//! The adapter implementing the storage contract over the sled embedded
//! store, treated as an opaque durable mapping from text keys to text
//! values.

use vstd::prelude::*;

use crate::engines::KvsEngine;
use crate::error::KvsError;

verus! {

#[verifier::external_type_specification]
#[verifier::external_body]
pub struct ExDb(sled::Db);

/// The text pairs the tree holds: each key bound to a well-formed text
/// value.  A key bound to bytes that are not text is outside this mapping;
/// reading such a key fails rather than answering from it.
pub uninterp spec fn sled_contents(db: sled::Db) -> Map<Seq<char>, Seq<char>>;

/// Relies on sled::open: opens or creates the tree directory at the path.
/// What the tree then holds came from the disk, so nothing is said of it.
#[verifier::external_body]
fn sled_open(path: &String) -> (r: Result<sled::Db, String>) {
    match sled::open(path.as_str()) {
        Ok(db) => Ok(db),
        Err(e) => Err(format!("{}", e)),
    }
}

/// Relies on sled::Tree::insert (on the default tree): binds the key to the
/// value.
#[verifier::external_body]
fn sled_insert(db: &mut sled::Db, key: &String, value: &String) -> (r: Result<(), String>)
    ensures
        r is Ok ==> sled_contents(*final(db)) == sled_contents(*old(db)).insert(key@, value@),
{
    match db.insert(key.as_str(), value.as_str().as_bytes()) {
        Ok(_) => Ok(()),
        Err(e) => Err(format!("{}", e)),
    }
}

/// Relies on sled::Tree::get: yields the value bound to the key, if any,
/// decoded back to text.
#[verifier::external_body]
fn sled_get(db: &sled::Db, key: &String) -> (r: Result<Option<String>, String>)
    ensures
        r matches Ok(Some(v)) ==> sled_contents(*db).contains_key(key@) && v@ == sled_contents(
            *db,
        )[key@],
        r matches Ok(None) ==> !sled_contents(*db).contains_key(key@),
{
    match db.get(key.as_str()) {
        Ok(Some(bytes)) => match std::str::from_utf8(bytes.as_ref()) {
            Ok(text) => Ok(Some(text.to_string())),
            Err(e) => Err(format!("{}", e)),
        },
        Ok(None) => Ok(None),
        Err(e) => Err(format!("{}", e)),
    }
}

/// Relies on sled::Tree::remove: unbinds the key and tells whether a value
/// was bound; a key bound in the text mapping is never reported unbound.
#[verifier::external_body]
fn sled_remove(db: &mut sled::Db, key: &String) -> (r: Result<bool, String>)
    ensures
        r is Ok ==> sled_contents(*final(db)) == sled_contents(*old(db)).remove(key@),
        r matches Ok(b) ==> (sled_contents(*old(db)).contains_key(key@) ==> b),
{
    match db.remove(key.as_str()) {
        Ok(prev) => Ok(prev.is_some()),
        Err(e) => Err(format!("{}", e)),
    }
}

/// The storage contract over a sled tree under `<dir>/sled.db`.
pub struct SledKvsEngine {
    sled_db: sled::Db,
}

impl SledKvsEngine {
    /// Opens the tree under `sled.db` in the given directory, creating it
    /// when absent.
    pub fn open(db_path: &str) -> (r: Result<SledKvsEngine, KvsError>)
        ensures
            r matches Err(e) ==> e matches KvsError::Io(_),
    {
        let mut path = db_path.to_owned();
        path.append("/sled.db");
        match sled_open(&path) {
            Ok(db) => Ok(SledKvsEngine { sled_db: db }),
            Err(m) => Err(KvsError::Io(m)),
        }
    }
}

impl KvsEngine for SledKvsEngine {
    closed spec fn model(&self) -> Map<Seq<char>, Seq<char>> {
        sled_contents(self.sled_db)
    }

    open spec fn inv(&self) -> bool {
        true
    }

    open spec fn infallible(&self) -> bool {
        false
    }

    fn set(&mut self, key: String, value: String) -> (r: Result<(), KvsError>) {
        match sled_insert(&mut self.sled_db, &key, &value) {
            Ok(()) => Ok(()),
            Err(m) => Err(KvsError::Io(m)),
        }
    }

    fn get(&self, key: String) -> (r: Result<Option<String>, KvsError>) {
        match sled_get(&self.sled_db, &key) {
            Ok(v) => Ok(v),
            Err(m) => Err(KvsError::Io(m)),
        }
    }

    fn remove(&mut self, key: String) -> (r: Result<(), KvsError>) {
        let present = match sled_get(&self.sled_db, &key) {
            Ok(Some(_v)) => true,
            Ok(None) => false,
            Err(m) => {
                return Err(KvsError::Io(m));
            },
        };
        if !present {
            return Err(KvsError::KeyNotFound);
        }
        match sled_remove(&mut self.sled_db, &key) {
            Ok(_was_bound) => Ok(()),
            Err(m) => Err(KvsError::Io(m)),
        }
    }
}

} // verus!
