//! The log-structured storage engine.
//!
//! The store holds the text of an append-only log of `Set` and `Rm` records
//! and an index from each live key to the offset of the record holding its
//! current value.  Mutations append a record and update the index; reads
//! parse one record at the indexed offset; compaction rewrites the log to
//! one `Set` record per live key.

use vstd::prelude::*;

use vstd::hash_map::StringHashMap;

use crate::codec::{
    encode_command_into, encoded_command, lemma_parse_command_canonical,
    lemma_parse_command_encoded, lit_at, parse_command, parse_command_at,
};
use crate::error::KvsError;
use crate::util::{Command, CommandModel};

verus! {

/// How many mutations may pass between two compactions of the log.
pub const COMPACT_INTERVAL: u64 = 10000;

// ------------------------------------------------------------------
// The meaning of a record sequence: its text, its index, its state.
// ------------------------------------------------------------------

/// The text of a whole log: the records' encodings in write order.
pub open spec fn encode_all(rs: Seq<CommandModel>) -> Seq<char>
    decreases rs.len(),
{
    if rs.len() == 0 {
        Seq::empty()
    } else {
        encode_all(rs.drop_last()) + encoded_command(rs.last())
    }
}

/// The index that replaying the records builds: each live key maps to the
/// offset of the record that holds its current value.  A `Get` record is
/// never written, and replay ignores one.
pub open spec fn index_of(rs: Seq<CommandModel>) -> Map<Seq<char>, int>
    decreases rs.len(),
{
    if rs.len() == 0 {
        Map::empty()
    } else {
        let m = index_of(rs.drop_last());
        match rs.last() {
            CommandModel::Put { key, .. } => m.insert(key, encode_all(rs.drop_last()).len() as int),
            CommandModel::Rm { key } => m.remove(key),
            CommandModel::Get { .. } => m,
        }
    }
}

/// The key/value state that the records induce.
pub open spec fn state_of(rs: Seq<CommandModel>) -> Map<Seq<char>, Seq<char>>
    decreases rs.len(),
{
    if rs.len() == 0 {
        Map::empty()
    } else {
        let m = state_of(rs.drop_last());
        match rs.last() {
            CommandModel::Put { key, value } => m.insert(key, value),
            CommandModel::Rm { key } => m.remove(key),
            CommandModel::Get { .. } => m,
        }
    }
}

/// Greedily reads records from position `i` to the end of the text; `None`
/// when a malformed or partial record is met.
pub open spec fn parse_all(s: Seq<char>, i: int) -> Option<Seq<CommandModel>>
    decreases s.len() - i,
{
    if i < 0 {
        None
    } else if i >= s.len() {
        Some(Seq::empty())
    } else {
        match parse_command(s, i) {
            None => None,
            Some((c, j)) => if i < j <= s.len() {
                match parse_all(s, j) {
                    None => None,
                    Some(rest) => Some(seq![c] + rest),
                }
            } else {
                None
            },
        }
    }
}

/// A compacted record sequence: only `Set` records, and no key twice.
pub open spec fn one_record_per_key(rs: Seq<CommandModel>) -> bool {
    &&& forall|i: int| 0 <= i < rs.len() ==> rs[i] is Put
    &&& forall|i: int, j: int| 0 <= i < j < rs.len() ==> rs[i]->Put_key != rs[j]->Put_key
}

/// The records already replayed, prepended to what the rest of the text
/// yields.
pub open spec fn prepend_opt(done: Seq<CommandModel>, rest: Option<Seq<CommandModel>>) -> Option<
    Seq<CommandModel>,
> {
    match rest {
        None => None,
        Some(r) => Some(done + r),
    }
}

// ------------------------------------------------------------------
// Lemmas about record sequences.
// ------------------------------------------------------------------

/// The text of records split at the first one.
pub proof fn lemma_encode_all_cons(c: CommandModel, r: Seq<CommandModel>)
    ensures
        encode_all(seq![c] + r) == encoded_command(c) + encode_all(r),
    decreases r.len(),
{
    let x = seq![c] + r;
    if r.len() == 0 {
        assert(x.drop_last() =~= Seq::<CommandModel>::empty());
        assert(x.last() == c);
        assert(encode_all(x) == encode_all(Seq::<CommandModel>::empty()) + encoded_command(c));
        assert(Seq::<char>::empty() + encoded_command(c) =~= encoded_command(c) + encode_all(r));
    } else {
        assert(x.drop_last() =~= seq![c] + r.drop_last());
        assert(x.last() == r.last());
        lemma_encode_all_cons(c, r.drop_last());
        assert(encode_all(x) == (encoded_command(c) + encode_all(r.drop_last()))
            + encoded_command(r.last()));
        assert((encoded_command(c) + encode_all(r.drop_last())) + encoded_command(r.last()) =~=
            encoded_command(c) + (encode_all(r.drop_last()) + encoded_command(r.last())));
    }
}

/// A text that is exactly the records' encodings from position `i` on reads
/// back as exactly those records.
pub proof fn lemma_parse_all_complete(s: Seq<char>, i: int, rs: Seq<CommandModel>)
    requires
        0 <= i <= s.len(),
        s.skip(i) == encode_all(rs),
    ensures
        parse_all(s, i) == Some(rs),
    decreases rs.len(),
{
    if rs.len() == 0 {
        assert(s.skip(i).len() == 0);
        assert(i >= s.len());
    } else {
        let c = rs[0];
        let rest = rs.drop_first();
        assert(rs =~= seq![c] + rest);
        lemma_encode_all_cons(c, rest);
        let e = encoded_command(c);
        assert(encode_all(rs) == e + encode_all(rest));
        assert(s.skip(i).len() == s.len() - i);
        assert(s.len() - i == e.len() + encode_all(rest).len());
        assert forall|u: int| 0 <= u < e.len() implies s.subrange(i, i + e.len() as int)[u]
            == e[u] by {
            assert(s.skip(i)[u] == (e + encode_all(rest))[u]);
            assert(s.skip(i)[u] == s[i + u]);
        }
        assert(s.subrange(i, i + e.len() as int) =~= e);
        lemma_parse_command_encoded(s, i, c);
        let j = i + e.len();
        assert forall|u: int| 0 <= u < s.len() - j implies s.skip(j as int)[u] == encode_all(
            rest,
        )[u] by {
            assert(s.skip(i)[e.len() + u] == (e + encode_all(rest))[e.len() + u]);
        }
        assert(s.skip(j as int) =~= encode_all(rest));
        lemma_parse_all_complete(s, j as int, rest);
    }
}

/// What reads back from position `i` stands in the text as exactly its
/// records' encodings.
pub proof fn lemma_parse_all_canonical(s: Seq<char>, i: int)
    requires
        0 <= i <= s.len(),
        parse_all(s, i) is Some,
    ensures
        s.skip(i) == encode_all(parse_all(s, i)->0),
    decreases s.len() - i,
{
    let rs = parse_all(s, i)->0;
    if i >= s.len() {
        assert(s.skip(i) =~= Seq::<char>::empty());
    } else {
        let (c, j) = parse_command(s, i)->0;
        lemma_parse_command_canonical(s, i);
        lemma_parse_all_canonical(s, j);
        let rest = parse_all(s, j)->0;
        assert(rs == seq![c] + rest);
        lemma_encode_all_cons(c, rest);
        assert forall|u: int| 0 <= u < s.len() - i implies s.skip(i)[u] == (encoded_command(c)
            + encode_all(rest))[u] by {
            if u < j - i {
                assert(s.subrange(i, j)[u] == encoded_command(c)[u]);
            } else {
                assert(s.skip(j)[u - (j - i)] == encode_all(rest)[u - (j - i)]);
            }
        }
        assert(s.skip(i) =~= encoded_command(c) + encode_all(rest));
    }
}

/// The text of one more record is the text so far followed by its encoding,
/// and the index and state step accordingly.
pub proof fn lemma_snoc(rs: Seq<CommandModel>, c: CommandModel)
    ensures
        encode_all(rs.push(c)) == encode_all(rs) + encoded_command(c),
        index_of(rs.push(c)) == (match c {
            CommandModel::Put { key, .. } => index_of(rs).insert(key, encode_all(rs).len() as int),
            CommandModel::Rm { key } => index_of(rs).remove(key),
            CommandModel::Get { .. } => index_of(rs),
        }),
        state_of(rs.push(c)) == (match c {
            CommandModel::Put { key, value } => state_of(rs).insert(key, value),
            CommandModel::Rm { key } => state_of(rs).remove(key),
            CommandModel::Get { .. } => state_of(rs),
        }),
{
    assert(rs.push(c).drop_last() =~= rs);
    assert(rs.push(c).last() == c);
}

/// An occurrence of a literal is kept when text is appended after it.
pub proof fn lemma_lit_at_extend(s: Seq<char>, i: int, a: Seq<char>, t: Seq<char>)
    requires
        lit_at(s, i, a),
    ensures
        lit_at(s + t, i, a),
{
    assert forall|u: int| 0 <= u < a.len() implies (s + t).subrange(i, i + a.len() as int)[u]
        == a[u] by {
        assert(s.subrange(i, i + a.len() as int)[u] == a[u]);
    }
    assert((s + t).subrange(i, i + a.len() as int) =~= a);
}

/// The index and the state are defined on the same keys.
pub proof fn lemma_index_state_dom(rs: Seq<CommandModel>)
    ensures
        index_of(rs).dom() =~= state_of(rs).dom(),
    decreases rs.len(),
{
    if rs.len() > 0 {
        lemma_index_state_dom(rs.drop_last());
    }
}

/// Every index entry points at the text of a `Set` record binding that key
/// to its current value.
pub proof fn lemma_index_points(rs: Seq<CommandModel>, k: Seq<char>)
    requires
        index_of(rs).contains_key(k),
    ensures
        state_of(rs).contains_key(k),
        0 <= index_of(rs)[k],
        index_of(rs)[k] + encoded_command(
            CommandModel::Put { key: k, value: state_of(rs)[k] },
        ).len() <= encode_all(rs).len(),
        lit_at(
            encode_all(rs),
            index_of(rs)[k],
            encoded_command(CommandModel::Put { key: k, value: state_of(rs)[k] }),
        ),
    decreases rs.len(),
{
    lemma_index_state_dom(rs);
    let pre = rs.drop_last();
    match rs.last() {
        CommandModel::Put { key, value } => {
            if key == k {
                let e = encoded_command(CommandModel::Put { key: k, value: state_of(rs)[k] });
                assert(encode_all(rs) == encode_all(pre) + e);
                assert forall|u: int| 0 <= u < e.len() implies encode_all(rs).subrange(
                    encode_all(pre).len() as int,
                    encode_all(pre).len() + e.len() as int,
                )[u] == e[u] by {}
                assert(encode_all(rs).subrange(
                    encode_all(pre).len() as int,
                    encode_all(pre).len() + e.len() as int,
                ) =~= e);
            } else {
                lemma_index_points(pre, k);
                lemma_lit_at_extend(
                    encode_all(pre),
                    index_of(pre)[k],
                    encoded_command(CommandModel::Put { key: k, value: state_of(pre)[k] }),
                    encoded_command(rs.last()),
                );
            }
        },
        CommandModel::Rm { key } => {
            lemma_index_points(pre, k);
            lemma_lit_at_extend(
                encode_all(pre),
                index_of(pre)[k],
                encoded_command(CommandModel::Put { key: k, value: state_of(pre)[k] }),
                encoded_command(rs.last()),
            );
        },
        CommandModel::Get { .. } => {
            lemma_index_points(pre, k);
            lemma_lit_at_extend(
                encode_all(pre),
                index_of(pre)[k],
                encoded_command(CommandModel::Put { key: k, value: state_of(pre)[k] }),
                encoded_command(rs.last()),
            );
        },
    }
}

// ------------------------------------------------------------------
// The key list that compaction walks.
// ------------------------------------------------------------------

/// The key `k` occurs in the list.
pub open spec fn key_in_list(keys: Seq<String>, k: Seq<char>) -> bool {
    exists|i: int| 0 <= i < keys.len() && #[trigger] keys[i]@ == k
}

/// The list enumerates the domain exactly once: every entry is a domain
/// key, every domain key occurs, and no key occurs twice.
pub open spec fn keys_wf(keys: Seq<String>, dom: Set<Seq<char>>) -> bool {
    &&& forall|i: int| 0 <= i < keys.len() ==> dom.contains(#[trigger] keys[i]@)
    &&& forall|k: Seq<char>| #[trigger] dom.contains(k) ==> key_in_list(keys, k)
    &&& forall|i: int, j: int| 0 <= i < j < keys.len() ==> keys[i]@ != keys[j]@
}

/// Appending a fresh key keeps the list an exact enumeration.
pub proof fn lemma_keys_wf_insert(keys: Seq<String>, dom: Set<Seq<char>>, key: String)
    requires
        keys_wf(keys, dom),
        !dom.contains(key@),
    ensures
        keys_wf(keys.push(key), dom.insert(key@)),
{
    let keys2 = keys.push(key);
    assert forall|k: Seq<char>| #[trigger] dom.insert(key@).contains(k) implies key_in_list(
        keys2,
        k,
    ) by {
        if k == key@ {
            assert(keys2[keys.len() as int]@ == k);
        } else {
            let i = choose|i: int| 0 <= i < keys.len() && #[trigger] keys[i]@ == k;
            assert(keys2[i]@ == k);
        }
    }
    assert forall|i: int| 0 <= i < keys2.len() implies dom.insert(key@).contains(
        #[trigger] keys2[i]@,
    ) by {
        if i < keys.len() {
            assert(keys2[i]@ == keys[i]@);
        }
    }
}

/// An exact enumeration's length is the domain's size.
pub proof fn lemma_keys_count(keys: Seq<String>, dom: Set<Seq<char>>)
    requires
        keys_wf(keys, dom),
    ensures
        dom.len() == keys.len(),
{
    let views = keys.map_values(|s: String| s@);
    assert(views.no_duplicates()) by {
        assert forall|i: int, j: int|
            0 <= i < views.len() && 0 <= j < views.len() && i != j implies views[i] != views[j] by {
            if i < j {
                assert(keys[i]@ != keys[j]@);
            } else {
                assert(keys[j]@ != keys[i]@);
            }
        }
    }
    views.unique_seq_to_set();
    assert(views.to_set() =~= dom) by {
        assert forall|k: Seq<char>| views.to_set().contains(k) implies dom.contains(k) by {
            let t = choose|t: int| 0 <= t < views.len() && views[t] == k;
            assert(keys[t]@ == k);
        }
        assert forall|k: Seq<char>| dom.contains(k) implies views.to_set().contains(k) by {
            let t = choose|t: int| 0 <= t < keys.len() && #[trigger] keys[t]@ == k;
            assert(views[t] == k);
            assert(views.contains(k));
        }
    }
}

/// Dropping one entry keeps the list an exact enumeration of the domain
/// without that entry's key.
pub proof fn lemma_keys_wf_remove(keys: Seq<String>, dom: Set<Seq<char>>, i: int)
    requires
        keys_wf(keys, dom),
        0 <= i < keys.len(),
    ensures
        keys_wf(keys.remove(i), dom.remove(keys[i]@)),
{
    let keys2 = keys.remove(i);
    let k0 = keys[i]@;
    assert forall|t: int| 0 <= t < keys2.len() implies dom.remove(k0).contains(
        #[trigger] keys2[t]@,
    ) by {
        if t < i {
            assert(keys2[t] == keys[t]);
        } else {
            assert(keys2[t] == keys[t + 1]);
        }
    }
    assert forall|k: Seq<char>| #[trigger] dom.remove(k0).contains(k) implies key_in_list(
        keys2,
        k,
    ) by {
        let t = choose|t: int| 0 <= t < keys.len() && #[trigger] keys[t]@ == k;
        if t < i {
            assert(keys2[t]@ == k);
        } else {
            assert(t != i);
            assert(keys2[t - 1] == keys[t]);
            assert(keys2[t - 1]@ == k);
        }
    }
    assert forall|a: int, b: int| 0 <= a < b < keys2.len() implies keys2[a]@ != keys2[b]@ by {
        let a2: int = if a < i {
            a
        } else {
            a + 1
        };
        let b2: int = if b < i {
            b
        } else {
            b + 1
        };
        assert(keys2[a] == keys[a2]);
        assert(keys2[b] == keys[b2]);
    }
}

/// A list enumerating a domain that already holds `k` keeps enumerating it
/// after `k` is (re)inserted into the domain.
pub proof fn lemma_keys_wf_overwrite(keys: Seq<String>, dom: Set<Seq<char>>, k: Seq<char>)
    requires
        keys_wf(keys, dom),
        dom.contains(k),
    ensures
        keys_wf(keys, dom.insert(k)),
{
    assert(dom.insert(k) =~= dom);
}

/// The position of `key` in the list, if it occurs.
fn find_key(keys: &Vec<String>, key: &String) -> (r: Option<usize>)
    ensures
        match r {
            Some(i) => i < keys@.len() && keys@[i as int]@ == key@,
            None => !key_in_list(keys@, key@),
        },
{
    let n = keys.len();
    let mut i: usize = 0;
    while i < n
        invariant
            n == keys@.len(),
            i <= n,
            forall|t: int| 0 <= t < i ==> keys@[t]@ != key@,
        decreases n - i,
    {
        if keys[i].eq(key) {
            return Some(i);
        }
        i = i + 1;
    }
    proof {
        if key_in_list(keys@, key@) {
            let t = choose|t: int| 0 <= t < keys@.len() && #[trigger] keys@[t]@ == key@;
            assert(false);
        }
    }
    None
}

// ------------------------------------------------------------------
// The store.
// ------------------------------------------------------------------

/// The log-structured store: the log text, the index over it, the list of
/// live keys (for compaction), and the mutation counter that triggers
/// compaction.
pub struct KvStore {
    log: Vec<char>,
    index: StringHashMap<usize>,
    keys: Vec<String>,
    compact_count: u64,
    records: Ghost<Seq<CommandModel>>,
}

impl KvStore {
    /// The records whose encodings make up the log, in write order.
    pub closed spec fn records(&self) -> Seq<CommandModel> {
        self.records@
    }

    /// The text of the log.
    pub closed spec fn log_view(&self) -> Seq<char> {
        self.log@
    }

    /// The key/value mapping the store holds.
    pub closed spec fn model(&self) -> Map<Seq<char>, Seq<char>> {
        state_of(self.records@)
    }

    /// How many mutations have run since the last compaction.
    pub closed spec fn pending(&self) -> u64 {
        self.compact_count
    }

    /// The data invariant: the log is the records' text, the index is their
    /// replay, and the key list enumerates the index without repetition.
    /// This is what a store holds right after replaying an arbitrary log,
    /// before its first compaction.
    pub closed spec fn inv_core(&self) -> bool {
        &&& self.log@ == encode_all(self.records@)
        &&& self.index@.dom() == index_of(self.records@).dom()
        &&& forall|k: Seq<char>| #[trigger]
            self.index@.dom().contains(k) ==> self.index@[k] as int == index_of(self.records@)[k]
        &&& keys_wf(self.keys@, index_of(self.records@).dom())
        &&& self.compact_count < COMPACT_INTERVAL
    }

    /// Well-formedness: the data invariant, and the log bounded by the
    /// mutation counter — at most two records beyond one per live key for
    /// each counted mutation.  With the counter itself bounded by the
    /// compaction interval, a store cannot keep mutating without compaction
    /// running: a counter step that skipped the compaction would break this
    /// bound.
    pub closed spec fn inv(&self) -> bool {
        &&& self.inv_core()
        &&& self.records@.len() as int <= self.keys@.len() as int + 2 * (
        self.compact_count as int)
    }

    /// A fresh, empty store.
    pub fn new() -> (st: KvStore)
        ensures
            st.inv(),
            st.model() == Map::<Seq<char>, Seq<char>>::empty(),
            st.records() == Seq::<CommandModel>::empty(),
            st.log_view() == Seq::<char>::empty(),
    {
        let st = KvStore {
            log: Vec::new(),
            index: StringHashMap::new(),
            keys: Vec::new(),
            compact_count: 0,
            records: Ghost(Seq::empty()),
        };
        proof {
            assert(st.index@.dom() =~= index_of(st.records@).dom());
        }
        st
    }

    /// Binds `key` to `value`; never fails.  The encoded `Set` record is
    /// appended to the log, and when the mutation fills the compaction
    /// interval the log is rewritten to one record per live key.
    pub fn set(&mut self, key: String, value: String) -> (r: Result<(), KvsError>)
        requires
            old(self).inv(),
        ensures
            final(self).inv(),
            r is Ok,
            final(self).model() == old(self).model().insert(key@, value@),
            old(self).pending() + 1 < COMPACT_INTERVAL ==> final(self).records() == old(
                self,
            ).records().push((CommandModel::Put { key: key@, value: value@ }))
                && final(self).pending() == old(self).pending() + 1,
            old(self).pending() + 1 >= COMPACT_INTERVAL ==> one_record_per_key(
                final(self).records(),
            ) && final(self).pending() == 0,
    {
        let ghost rs0 = self.records@;
        let offset = self.log.len();
        let cmd = Command::Put { key: key.clone(), value };
        encode_command_into(&mut self.log, &cmd);
        proof {
            lemma_snoc(rs0, cmd@);
        }
        self.records = Ghost(rs0.push(cmd@));
        let ghost rs1 = self.records@;
        proof {
            assert(index_of(rs1).dom() =~= index_of(rs0).dom().insert(key@));
        }
        if !self.index.contains_key(key.as_str()) {
            proof {
                lemma_keys_wf_insert(self.keys@, index_of(rs0).dom(), key);
            }
            self.keys.push(key.clone());
        } else {
            proof {
                lemma_keys_wf_overwrite(self.keys@, index_of(rs0).dom(), key@);
            }
        }
        self.index.insert(key, offset);
        proof {
            assert(self.index@.dom() =~= index_of(rs1).dom());
            assert(self.records@.len() as int <= self.keys@.len() as int + 2 * (
            self.compact_count as int) + 2);
        }
        self.maybe_compact();
        Ok(())
    }

    /// The current value of `key`, if any; never fails.
    pub fn get(&self, key: String) -> (r: Result<Option<String>, KvsError>)
        requires
            self.inv(),
        ensures
            r is Ok,
            match r {
                Ok(Some(v)) => self.model().contains_key(key@) && v@ == self.model()[key@],
                Ok(None) => !self.model().contains_key(key@),
                Err(_) => false,
            },
    {
        proof {
            lemma_index_state_dom(self.records@);
        }
        let pos = match self.index.get(key.as_str()) {
            None => {
                return Ok(None);
            },
            Some(p) => *p,
        };
        let ghost put = CommandModel::Put { key: key@, value: self.model()[key@] };
        proof {
            lemma_index_points(self.records@, key@);
            lemma_parse_command_encoded(self.log@, pos as int, put);
        }
        match parse_command_at(&self.log, pos) {
            Some((cmd, _end)) => {
                match cmd {
                    Command::Put { key: _k, value } => Ok(Some(value)),
                    _ => {
                        proof {
                            assert(false);
                        }
                        Err(KvsError::UnexpectedCommandType)
                    },
                }
            },
            None => {
                proof {
                    assert(false);
                }
                Err(KvsError::UnexpectedCommandType)
            },
        }
    }

    /// Removes `key`; fails with `KeyNotFound`, leaving the store untouched,
    /// when it is not present.  On success the encoded `Rm` tombstone is
    /// appended to the log, and when the mutation fills the compaction
    /// interval the log is rewritten to one record per live key.
    pub fn remove(&mut self, key: String) -> (r: Result<(), KvsError>)
        requires
            old(self).inv(),
        ensures
            final(self).inv(),
            r is Ok <==> old(self).model().contains_key(key@),
            r is Ok ==> final(self).model() == old(self).model().remove(key@),
            r is Err ==> (r matches Err(KvsError::KeyNotFound)) && *final(self) == *old(self),
            r is Ok && old(self).pending() + 1 < COMPACT_INTERVAL ==> final(self).records()
                == old(self).records().push((CommandModel::Rm { key: key@ }))
                && final(self).pending() == old(self).pending() + 1,
            r is Ok && old(self).pending() + 1 >= COMPACT_INTERVAL ==> one_record_per_key(
                final(self).records(),
            ) && final(self).pending() == 0,
    {
        proof {
            lemma_index_state_dom(self.records@);
        }
        if !self.index.contains_key(key.as_str()) {
            return Err(KvsError::KeyNotFound);
        }
        let ghost rs0 = self.records@;
        let cmd = Command::Rm { key: key.clone() };
        encode_command_into(&mut self.log, &cmd);
        proof {
            lemma_snoc(rs0, cmd@);
        }
        self.records = Ghost(rs0.push(cmd@));
        self.index.remove(key.as_str());
        proof {
            assert(self.index@.dom() =~= index_of(self.records@).dom());
        }
        let at = match find_key(&self.keys, &key) {
            Some(i) => i,
            None => {
                proof {
                    assert(false);
                }
                0
            },
        };
        proof {
            lemma_keys_wf_remove(self.keys@, index_of(rs0).dom(), at as int);
        }
        self.keys.remove(at);
        proof {
            assert(index_of(self.records@).dom() =~= index_of(rs0).dom().remove(key@));
            assert(self.records@.len() as int <= self.keys@.len() as int + 2 * (
            self.compact_count as int) + 2);
        }
        self.maybe_compact();
        Ok(())
    }

    /// Reads the value of a live key by parsing the record at its indexed
    /// offset.
    fn read_at(&self, key: &String) -> (v: String)
        requires
            self.inv_core(),
            index_of(self.records@).contains_key(key@),
        ensures
            state_of(self.records@).contains_key(key@),
            v@ == state_of(self.records@)[key@],
    {
        proof {
            lemma_index_state_dom(self.records@);
            lemma_index_points(self.records@, key@);
            lemma_parse_command_encoded(
                self.log@,
                index_of(self.records@)[key@],
                CommandModel::Put { key: key@, value: state_of(self.records@)[key@] },
            );
        }
        let pos = match self.index.get(key.as_str()) {
            Some(p) => *p,
            None => {
                proof {
                    assert(false);
                }
                0
            },
        };
        match parse_command_at(&self.log, pos) {
            Some((cmd, _end)) => match cmd {
                Command::Put { key: _k, value } => value,
                _ => {
                    proof {
                        assert(false);
                    }
                    String::new()
                },
            },
            None => {
                proof {
                    assert(false);
                }
                String::new()
            },
        }
    }

    /// The whole log as a string, for persisting and reopening.
    pub fn log_string(&self) -> (r: String)
        ensures
            r@ == self.log_view(),
    {
        crate::strings::chars_to_string(&self.log)
    }

    /// Opens a store from the text of a log: replays the records into a
    /// fresh index, then compacts.  Fails, with `Sered`, exactly when the
    /// text is not a concatenation of well-formed records.
    pub fn open_from_log(text: &str) -> (r: Result<KvStore, KvsError>)
        ensures
            r is Ok <==> parse_all(text@, 0) is Some,
            r matches Ok(st) ==> st.inv() && st.model() == state_of(parse_all(text@, 0)->0)
                && one_record_per_key(st.records()) && st.records().len()
                == st.model().dom().len(),
            r matches Err(e) ==> e matches KvsError::Sered(_),
    {
        let log: Vec<char> = crate::strings::str_to_chars(text);
        let mut index: StringHashMap<usize> = StringHashMap::new();
        let mut keys: Vec<String> = Vec::new();
        let ghost empty_records: Seq<CommandModel> = Seq::empty();
        let mut records: Ghost<Seq<CommandModel>> = Ghost(empty_records);
        let mut i: usize = 0;
        let n = log.len();
        proof {
            assert(index@.dom() =~= index_of(records@).dom());
            assert(log@.subrange(0, 0) =~= encode_all(records@));
            if parse_all(log@, 0) is Some {
                let r0 = parse_all(log@, 0)->0;
                assert(records@ + r0 =~= r0);
            }
        }
        while i < n
            invariant
                n == log@.len(),
                i <= n,
                log@ == text@,
                encode_all(records@) == log@.subrange(0, i as int),
                index@.dom() == index_of(records@).dom(),
                forall|k: Seq<char>| #[trigger]
                    index@.dom().contains(k) ==> index@[k] as int == index_of(records@)[k],
                keys_wf(keys@, index_of(records@).dom()),
                parse_all(log@, 0) == prepend_opt(records@, parse_all(log@, i as int)),
            decreases n - i,
        {
            let ghost rs0 = records@;
            match parse_command_at(&log, i) {
                None => {
                    return Err(
                        KvsError::Sered("malformed or partial record in the log".to_owned()),
                    );
                },
                Some((cmd, end)) => {
                    proof {
                        lemma_parse_command_canonical(log@, i as int);
                        lemma_snoc(rs0, cmd@);
                        assert(log@.subrange(0, end as int) =~= log@.subrange(0, i as int)
                            + log@.subrange(i as int, end as int));
                        if parse_all(log@, end as int) is Some {
                            let rest = parse_all(log@, end as int)->0;
                            assert(rs0 + (seq![cmd@] + rest) =~= rs0.push(cmd@) + rest);
                        }
                    }
                    match &cmd {
                        Command::Put { key, value: _ } => {
                            proof {
                                assert(index_of(rs0.push(cmd@)).dom() =~= index_of(
                                    rs0,
                                ).dom().insert(key@));
                            }
                            if !index.contains_key(key.as_str()) {
                                proof {
                                    lemma_keys_wf_insert(keys@, index_of(rs0).dom(), *key);
                                }
                                keys.push(key.clone());
                            } else {
                                proof {
                                    lemma_keys_wf_overwrite(keys@, index_of(rs0).dom(), key@);
                                }
                            }
                            index.insert(key.clone(), i);
                        },
                        Command::Get { .. } => {},
                        Command::Rm { key } => {
                            proof {
                                assert(index_of(rs0.push(cmd@)).dom() =~= index_of(
                                    rs0,
                                ).dom().remove(key@));
                            }
                            index.remove(key.as_str());
                            match find_key(&keys, key) {
                                Some(at) => {
                                    proof {
                                        lemma_keys_wf_remove(keys@, index_of(rs0).dom(), at as int);
                                    }
                                    keys.remove(at);
                                },
                                None => {
                                    proof {
                                        if index_of(rs0).dom().contains(key@) {
                                            assert(key_in_list(keys@, key@));
                                        }
                                        assert(index_of(rs0).dom().remove(key@) =~= index_of(
                                            rs0,
                                        ).dom());
                                    }
                                },
                            }
                        },
                    }
                    records = Ghost(rs0.push(cmd@));
                    proof {
                        assert(index@.dom() =~= index_of(records@).dom());
                    }
                    i = end;
                },
            }
        }
        proof {
            assert(records@ + Seq::<CommandModel>::empty() =~= records@);
        }
        let mut st = KvStore { log, index, keys, compact_count: 0, records };
        proof {
            assert(st.log@.subrange(0, n as int) =~= st.log@);
        }
        st.compact();
        Ok(st)
    }

    /// Steps the mutation counter and compacts when it reaches the
    /// interval.
    fn maybe_compact(&mut self)
        requires
            old(self).inv_core(),
            old(self).records@.len() as int <= old(self).keys@.len() as int + 2 * (
            old(self).compact_count as int) + 2,
        ensures
            final(self).inv(),
            final(self).model() == old(self).model(),
            old(self).compact_count + 1 < COMPACT_INTERVAL ==> final(self).records@
                == old(self).records@ && final(self).compact_count == old(self).compact_count
                + 1,
            old(self).compact_count + 1 >= COMPACT_INTERVAL ==> one_record_per_key(
                final(self).records@,
            ) && final(self).compact_count == 0,
    {
        if self.compact_count + 1 >= COMPACT_INTERVAL {
            self.compact();
        } else {
            self.compact_count = self.compact_count + 1;
        }
    }

    /// Rewrites the log to exactly one `Set` record per live key, keeping
    /// the key/value state; afterwards the log holds as many records as
    /// there are live keys, no `Rm` record, and the mutation counter starts
    /// over.
    #[verifier::rlimit(100)]
    pub fn compact(&mut self)
        requires
            old(self).inv_core(),
        ensures
            final(self).inv(),
            final(self).model() == old(self).model(),
            final(self).records().len() == old(self).model().dom().len(),
            one_record_per_key(final(self).records()),
            final(self).pending() == 0,
    {
        let ghost rs0 = self.records@;
        let ghost model0 = state_of(rs0);
        let ghost dom0 = index_of(rs0).dom();
        let mut new_log: Vec<char> = Vec::new();
        let mut new_index: StringHashMap<usize> = StringHashMap::new();
        let ghost empty_records: Seq<CommandModel> = Seq::empty();
        let mut new_records: Ghost<Seq<CommandModel>> = Ghost(empty_records);
        let n = self.keys.len();
        let mut i: usize = 0;
        proof {
            assert(new_index@.dom() =~= index_of(new_records@).dom());
        }
        while i < n
            invariant
                *self == *old(self),
                old(self).inv_core(),
                rs0 == self.records@,
                model0 == state_of(rs0),
                dom0 == index_of(rs0).dom(),
                n == self.keys@.len(),
                i <= n,
                new_log@ == encode_all(new_records@),
                new_index@.dom() == index_of(new_records@).dom(),
                forall|k: Seq<char>| #[trigger]
                    new_index@.dom().contains(k) ==> new_index@[k] as int == index_of(
                        new_records@,
                    )[k],
                new_records@.len() == i,
                forall|t: int|
                    0 <= t < i ==> new_records@[t] == (CommandModel::Put {
                        key: self.keys@[t]@,
                        value: model0[self.keys@[t]@],
                    }),
                forall|t: int|
                    0 <= t < i ==> state_of(new_records@).contains_key(#[trigger] self.keys@[t]@)
                        && state_of(new_records@)[self.keys@[t]@] == model0[self.keys@[t]@],
                forall|k: Seq<char>| #[trigger]
                    state_of(new_records@).contains_key(k) ==> model0.contains_key(k)
                        && state_of(new_records@)[k] == model0[k],
            decreases n - i,
        {
            let key = self.keys[i].clone();
            proof {
                lemma_index_state_dom(rs0);
            }
            let value = self.read_at(&key);
            let offset = new_log.len();
            let ghost nrs0 = new_records@;
            let cmd2 = Command::Put { key: key.clone(), value };
            encode_command_into(&mut new_log, &cmd2);
            proof {
                lemma_snoc(nrs0, cmd2@);
            }
            new_records = Ghost(nrs0.push(cmd2@));
            new_index.insert(key, offset);
            proof {
                assert(new_index@.dom() =~= index_of(new_records@).dom());
            }
            i = i + 1;
        }
        proof {
            lemma_index_state_dom(rs0);
            assert forall|k: Seq<char>| #[trigger]
                model0.contains_key(k) implies state_of(new_records@).contains_key(k) by {
                assert(dom0.contains(k));
                let t = choose|t: int|
                    0 <= t < self.keys@.len() && #[trigger] self.keys@[t]@ == k;
            }
            assert(state_of(new_records@) =~= model0);
            lemma_keys_count(self.keys@, dom0);
            lemma_index_state_dom(new_records@);
            assert(index_of(new_records@).dom() =~= dom0);
        }
        self.log = new_log;
        self.index = new_index;
        self.records = new_records;
        self.compact_count = 0;
    }
}

impl crate::engines::KvsEngine for KvStore {
    open spec fn model(&self) -> Map<Seq<char>, Seq<char>> {
        KvStore::model(self)
    }

    open spec fn inv(&self) -> bool {
        KvStore::inv(self)
    }

    open spec fn infallible(&self) -> bool {
        true
    }

    fn set(&mut self, key: String, value: String) -> (r: Result<(), KvsError>) {
        KvStore::set(self, key, value)
    }

    fn get(&self, key: String) -> (r: Result<Option<String>, KvsError>) {
        KvStore::get(self, key)
    }

    fn remove(&mut self, key: String) -> (r: Result<(), KvsError>) {
        KvStore::remove(self, key)
    }
}

// ------------------------------------------------------------------
// The store shared among workers.
// ------------------------------------------------------------------

/// The invariant that every value stored in a shared store's lock
/// satisfies: the store is well-formed.
pub struct SharedPred;

impl vstd::rwlock::RwLockPredicate<KvStore> for SharedPred {
    open spec fn inv(self, v: KvStore) -> bool {
        v.inv()
    }
}

/// A store behind a verified reader/writer lock, for many workers to hit in
/// parallel: writers are exclusive, readers share, and every value that
/// enters or leaves the lock is a well-formed store.  Each operation is one
/// atomic application of the sequential store's verified transition, so any
/// interleaving of concurrent operations acts on the mapping as the
/// sequence of their lock acquisitions.  To hand the same store to several
/// threads, share one `SharedKvStore` by reference (or behind a reference
/// counter).
pub struct SharedKvStore {
    lock: vstd::rwlock::RwLock<KvStore, SharedPred>,
}

impl SharedKvStore {
    /// Puts a store behind a lock.
    pub fn share(store: KvStore) -> (r: SharedKvStore)
        requires
            store.inv(),
    {
        SharedKvStore { lock: vstd::rwlock::RwLock::new(store, Ghost(SharedPred)) }
    }

    /// Binds `key` to `value` under the write lock; never fails.
    pub fn set(&self, key: String, value: String) -> (r: Result<(), KvsError>)
        ensures
            r is Ok,
    {
        let (mut store, handle) = self.lock.acquire_write();
        let r = store.set(key, value);
        handle.release_write(store);
        r
    }

    /// The value of `key` in the store as of this call, under a read lock;
    /// never fails.
    pub fn get(&self, key: String) -> (r: Result<Option<String>, KvsError>)
        ensures
            r is Ok,
    {
        let read = self.lock.acquire_read();
        let r = read.borrow().get(key);
        read.release_read();
        r
    }

    /// Removes `key` under the write lock; fails with `KeyNotFound` when the
    /// key is not present as of this call.
    pub fn remove(&self, key: String) -> (r: Result<(), KvsError>)
        ensures
            r is Err ==> r matches Err(KvsError::KeyNotFound),
    {
        let (mut store, handle) = self.lock.acquire_write();
        let r = store.remove(key);
        handle.release_write(store);
        r
    }

    /// Serves one request under the write lock; fails, with `Sered` and the
    /// store untouched, exactly when the text is not one whole command.
    pub fn serve(&self, request: &str) -> (r: Result<String, KvsError>)
        ensures
            ({
                let p = crate::codec::parse_command(request@, 0);
                &&& r is Ok <==> (p is Some && (p->0).1 == request@.len())
                &&& r matches Err(e) ==> e matches KvsError::Sered(_)
            }),
    {
        let (mut store, handle) = self.lock.acquire_write();
        let r = crate::server::serve_request(&mut store, request);
        handle.release_write(store);
        r
    }

    /// The whole log's text as of this call, under a read lock.
    pub fn log_string(&self) -> (r: String) {
        let read = self.lock.acquire_read();
        let r = read.borrow().log_string();
        read.release_read();
        r
    }
}

// ------------------------------------------------------------------
// Laws of the store.
// ------------------------------------------------------------------

/// Read after write: whatever mapping `m` a store holds, after `set(k, v)`
/// (whose contract makes the mapping `m.insert(k, v)`) a `get(k)` (whose
/// contract returns the mapping's value at `k`) sees exactly `v`.
pub proof fn lemma_read_after_write(m: Map<Seq<char>, Seq<char>>, k: Seq<char>, v: Seq<char>)
    ensures
        m.insert(k, v).contains_key(k),
        m.insert(k, v)[k] == v,
{
}

/// Overwrite: after `set(k, v1); set(k, v2)` a `get(k)` sees `v2`.
pub proof fn lemma_overwrite(
    m: Map<Seq<char>, Seq<char>>,
    k: Seq<char>,
    v1: Seq<char>,
    v2: Seq<char>,
)
    ensures
        m.insert(k, v1).insert(k, v2).contains_key(k),
        m.insert(k, v1).insert(k, v2)[k] == v2,
{
}

/// Remove: after `set(k, v); remove(k)` the key is absent, so `get(k)` sees
/// nothing and a second `remove(k)` fails with `KeyNotFound` (the `remove`
/// contract returns `Ok` exactly on present keys).
pub proof fn lemma_set_then_remove(m: Map<Seq<char>, Seq<char>>, k: Seq<char>, v: Seq<char>)
    ensures
        !m.insert(k, v).remove(k).contains_key(k),
{
}

/// A well-formed store satisfies the data invariant, so `compact` may be
/// called on it at any time.
pub proof fn lemma_inv_implies_core(st: &KvStore)
    requires
        st.inv(),
    ensures
        st.inv_core(),
{
}

/// The log text of a well-formed store is exactly its records' encodings,
/// so the record clauses of `set` and `remove` pin the appended text.
pub proof fn lemma_log_is_records(st: &KvStore)
    requires
        st.inv(),
    ensures
        st.log_view() == encode_all(st.records()),
{
}

/// Bounded log: a well-formed store's log holds at most two records per
/// counted mutation beyond one per live key, and fewer than a compaction
/// interval of mutations is ever counted.
pub proof fn lemma_bounded_log(st: &KvStore)
    requires
        st.inv(),
    ensures
        st.records().len() as int <= st.model().dom().len() + 2 * (COMPACT_INTERVAL as int),
{
    lemma_index_state_dom(st.records());
    lemma_keys_count(st.keys@, index_of(st.records@).dom());
    assert(index_of(st.records@).dom().len() == state_of(st.records@).dom().len());
}

/// Persistence: a well-formed store's log text reads back as exactly its
/// records, so a store reopened from that text holds the same mapping.
pub proof fn lemma_persistence(st: &KvStore)
    requires
        st.inv(),
    ensures
        parse_all(st.log_view(), 0) == Some(st.records()),
        state_of(parse_all(st.log_view(), 0)->0) == st.model(),
{
    assert(st.log_view().skip(0) =~= st.log_view());
    lemma_parse_all_complete(st.log_view(), 0, st.records());
}

} // verus!
