//! The storage-engine contract and its two implementations.

pub mod kvs;
pub mod sled;

use vstd::prelude::*;

use crate::error::KvsError;

verus! {

/// The storage contract: a mapping from string keys to string values with
/// `set`, `get` and `remove`.
///
/// `model` is the mapping an engine holds and `inv` its internal
/// well-formedness; every operation preserves `inv` and changes `model` as
/// stated.  An engine may fail (a disk can), so plain success is promised
/// only by `infallible` engines; on a failure the mapping is left
/// unconstrained here, because an outside store's source does not show what
/// a failed write leaves behind — the log engine's own contract adds that
/// its mapping, and its whole state, are then unchanged.
pub trait KvsEngine: Sized {
    /// The key/value mapping the engine holds.
    spec fn model(&self) -> Map<Seq<char>, Seq<char>>;

    /// The engine's internal well-formedness.
    spec fn inv(&self) -> bool;

    /// Whether this engine's operations cannot fail: such an engine's `set`
    /// and `get` always succeed and its `remove` fails only, with
    /// `KeyNotFound`, on an absent key.  The log engine is infallible (its
    /// callers persist the log); the sled adapter is not (the disk decides).
    spec fn infallible(&self) -> bool;

    /// Binds `key` to `value`.
    fn set(&mut self, key: String, value: String) -> (r: Result<(), KvsError>)
        requires
            old(self).inv(),
        ensures
            final(self).inv(),
            final(self).infallible() == old(self).infallible(),
            r is Ok ==> final(self).model() == old(self).model().insert(key@, value@),
            old(self).infallible() ==> r is Ok,
    ;

    /// The current value of `key`, if any.
    fn get(&self, key: String) -> (r: Result<Option<String>, KvsError>)
        requires
            self.inv(),
        ensures
            match r {
                Ok(Some(v)) => self.model().contains_key(key@) && v@ == self.model()[key@],
                Ok(None) => !self.model().contains_key(key@),
                Err(_) => true,
            },
            self.infallible() ==> r is Ok,
    ;

    /// Removes `key`; fails with `KeyNotFound` when it is not present.
    fn remove(&mut self, key: String) -> (r: Result<(), KvsError>)
        requires
            old(self).inv(),
        ensures
            final(self).inv(),
            final(self).infallible() == old(self).infallible(),
            r is Ok ==> old(self).model().contains_key(key@) && final(self).model() == old(
                self,
            ).model().remove(key@),
            r matches Err(KvsError::KeyNotFound) ==> !old(self).model().contains_key(key@)
                && final(self).model() == old(self).model(),
            old(self).infallible() ==> (r is Ok <==> old(self).model().contains_key(key@)),
            old(self).infallible() && r is Err ==> r matches Err(KvsError::KeyNotFound),
    ;
}

} // verus!
