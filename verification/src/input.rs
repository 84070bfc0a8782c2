//! The input ingredient: a revision-stamped key→value store that drives
//! invalidation.
//!
//! Writing bumps the clock and publishes an event; reading inside a query
//! records a dependency edge so later writes invalidate the reader.

use vstd::prelude::*;
use vstd::string::StringExecFns;
use crate::error::PicanteError;
use crate::frame::{FrameStack, spec_recorded_dep};
use crate::key::{Dep, Key, QueryKindId};
use crate::persist::{
    decode_input_record, encode_input_record, lemma_input_record_round_trip,
    spec_enc_input_record, spec_parse_input_record,
};
use crate::revision::Revision;
use crate::runtime::Runtime;

verus! {

/// The key bytes, value bytes and change revision of each entry.
pub type InputEntries = Seq<(Seq<u8>, Seq<u8>, u64)>;

/// The plain data carried by a vector of entries.
pub open spec fn spec_input_entries_of(v: Seq<(Key, Vec<u8>, Revision)>) -> InputEntries {
    Seq::new(v.len(), |i: int| (v[i].0@, v[i].1@, v[i].2.0))
}

/// Some entry holds exactly these key bytes.
pub open spec fn spec_input_has(es: InputEntries, k: Seq<u8>) -> bool {
    exists|i: int| 0 <= i < es.len() && es[i].0 == k
}

/// The index of the entry holding these key bytes.
pub open spec fn spec_input_index(es: InputEntries, k: Seq<u8>) -> int {
    choose|i: int| 0 <= i < es.len() && es[i].0 == k
}

/// The value and change revision stored under a key, if any.
pub open spec fn spec_input_lookup(es: InputEntries, k: Seq<u8>) -> Option<(Seq<u8>, u64)> {
    if spec_input_has(es, k) {
        let e = es[spec_input_index(es, k)];
        Some((e.1, e.2))
    } else {
        None
    }
}

/// The store's invariant: keys are unique.
pub open spec fn spec_input_wf(es: InputEntries) -> bool {
    forall|i: int, j: int| 0 <= i < j < es.len() ==> es[i].0 != es[j].0
}

/// What a write does: replace the unique entry in place, or append one.
pub open spec fn spec_input_set(es: InputEntries, k: Seq<u8>, v: Seq<u8>, rev: u64) -> InputEntries {
    if spec_input_has(es, k) {
        es.update(spec_input_index(es, k), (k, v, rev))
    } else {
        es.push((k, v, rev))
    }
}

/// What a removal does: delete the unique entry, or nothing.
pub open spec fn spec_input_remove(es: InputEntries, k: Seq<u8>) -> InputEntries {
    if spec_input_has(es, k) {
        es.remove(spec_input_index(es, k))
    } else {
        es
    }
}

/// Each entry as its own encoded record blob.
pub open spec fn spec_input_blobs(es: InputEntries) -> Seq<Seq<u8>> {
    Seq::new(es.len(), |i: int| spec_enc_input_record(es[i].0, es[i].1, es[i].2))
}

/// Parse every blob as a fully-consumed input record.
#[verifier::opaque]
pub open spec fn spec_input_of_blobs(blobs: Seq<Seq<u8>>) -> Option<InputEntries>
    decreases blobs.len(),
{
    if blobs.len() == 0 {
        Some(Seq::empty())
    } else {
        match spec_parse_input_record(blobs.first()) {
            None => None,
            Some(e) => match spec_input_of_blobs(blobs.drop_first()) {
                None => None,
                Some(rest) => Some(seq![e] + rest),
            },
        }
    }
}

/// Encoding each entry of a store and parsing the blobs back yields the
/// same entries.
pub proof fn lemma_input_records_round_trip(es: InputEntries)
    requires
        forall|i: int|
            0 <= i < es.len() ==> (#[trigger] es[i]).0.len() <= u64::MAX && es[i].1.len()
                <= u64::MAX,
    ensures
        spec_input_of_blobs(spec_input_blobs(es)) == Some(es),
    decreases es.len(),
{
    reveal(spec_input_of_blobs);
    let blobs = spec_input_blobs(es);
    if es.len() == 0 {
        assert(blobs.len() == 0);
    } else {
        let first = es.first();
        assert(blobs.first() == spec_enc_input_record(first.0, first.1, first.2));
        assert(es[0].0.len() <= u64::MAX && es[0].1.len() <= u64::MAX);
        lemma_input_record_round_trip(first.0, first.1, first.2);
        assert(first == (first.0, first.1, first.2));
        assert(blobs.drop_first() =~= spec_input_blobs(es.drop_first()));
        assert(forall|i: int|
            0 <= i < es.drop_first().len() ==> (#[trigger] es.drop_first()[i]).0.len()
                <= u64::MAX && es.drop_first()[i].1.len() <= u64::MAX) by {
            assert(forall|i: int|
                0 <= i < es.drop_first().len() ==> (#[trigger] es.drop_first()[i]) == es[i + 1]);
        }
        lemma_input_records_round_trip(es.drop_first());
        assert(seq![first] + es.drop_first() =~= es);
    }
}

/// A well-formed store's records always load back to the same entries.
pub proof fn lemma_input_save_load(es: InputEntries)
    requires
        spec_input_wf(es),
        forall|i: int|
            0 <= i < es.len() ==> (#[trigger] es[i]).0.len() <= u64::MAX && es[i].1.len()
                <= u64::MAX,
    ensures
        spec_input_of_blobs(spec_input_blobs(es)) == Some(es),
    
{
    lemma_input_records_round_trip(es);
}

/// Whether the keys of parsed entries are pairwise distinct.
fn input_keys_distinct(v: &Vec<(Key, Vec<u8>, Revision)>) -> (r: bool)
    ensures
        r == spec_input_wf(spec_input_entries_of(v@)),
{
    let ghost es = spec_input_entries_of(v@);
    let n = v.len();
    let mut i: usize = 0;
    while i < n
        invariant
            n == v@.len(),
            i <= n,
            es == spec_input_entries_of(v@),
            forall|a: int, b: int| 0 <= a < b < es.len() && a < i ==> es[a].0 != es[b].0,
        decreases n - i,
    {
        let mut j: usize = i + 1;
        while j < n
            invariant
                n == v@.len(),
                i < j <= n || (i + 1 == j && j > n),
                i < n,
                es == spec_input_entries_of(v@),
                forall|b: int| i < b < j ==> es[i as int].0 != es[b].0,
            decreases n - j,
        {
            if v[i].0 == v[j].0 {
                proof {
                    assert(es[i as int].0 == es[j as int].0);
                }
                return false;
            }
            j = j + 1;
        }
        i = i + 1;
    }
    proof {
        assert(spec_input_wf(es));
    }
    true
}

/// A key→value store whose writes advance the revision clock.
#[derive(Debug)]
pub struct InputIngredient {
    kind: QueryKindId,
    kind_name: &'static str,
    entries: Vec<(Key, Vec<u8>, Revision)>,
}

impl InputIngredient {
    /// The entries as plain data.
    pub closed spec fn entries_view(self) -> InputEntries {
        spec_input_entries_of(self.entries@)
    }

    /// The ingredient's kind id.
    pub closed spec fn spec_kind(self) -> u32 {
        self.kind.0
    }

    /// The ingredient's debug name.
    pub closed spec fn spec_kind_name(self) -> Seq<char> {
        self.kind_name@
    }

    /// The store's invariant.
    pub open spec fn wf(self) -> bool {
        spec_input_wf(self.entries_view())
    }

    /// Create an empty input ingredient.
    pub fn new(kind: QueryKindId, kind_name: &'static str) -> (r: InputIngredient)
        ensures
            r.wf(),
            r.entries_view() =~= Seq::<(Seq<u8>, Seq<u8>, u64)>::empty(),
            r.spec_kind() == kind.0,
            r.spec_kind_name() == kind_name@,
    {
        let r = InputIngredient { kind, kind_name, entries: Vec::new() };
        proof {
            assert(r.entries_view() =~= Seq::<(Seq<u8>, Seq<u8>, u64)>::empty());
        }
        r
    }

    /// The stable kind id.
    pub fn kind(&self) -> (r: QueryKindId)
        ensures
            r.0 == self.spec_kind(),
    {
        self.kind
    }

    /// Debug name for this ingredient.
    pub fn kind_name(&self) -> (r: &'static str)
        ensures
            r@ == self.spec_kind_name(),
    {
        self.kind_name
    }

    /// Insert or replace a value. Atomically with the write, the clock is
    /// bumped and an `InputSet` event carrying the new revision goes out;
    /// the entry is stamped with that revision, which is returned.
    pub fn set(&mut self, rt: &mut Runtime, key: Key, value: Vec<u8>) -> (r: Revision)
        requires
            old(self).wf(),
            old(rt).rev() < u64::MAX,
        ensures
            final(self).wf(),
            final(self).spec_kind() == old(self).spec_kind(),
            final(self).spec_kind_name() == old(self).spec_kind_name(),
            final(rt).rev() == old(rt).rev() + 1,
            r.0 == final(rt).rev(),
            final(self).entries_view() == spec_input_set(
                old(self).entries_view(),
                key@,
                value@,
                r.0,
            ),
    {
        let rev = rt.bump_revision();
        rt.notify_input_set(rev, self.kind, key.clone());
        let ghost es = self.entries_view();
        let n = self.entries.len();
        let mut i: usize = 0;
        while i < n
            invariant
                n == self.entries@.len(),
                i <= n,
                *self == *old(self),
                old(self).wf(),
                rt.rev() == old(rt).rev() + 1,
                rev.0 == rt.rev(),
                es == self.entries_view(),
                forall|j: int| 0 <= j < i ==> es[j].0 != key@,
            decreases n - i,
        {
            if self.entries[i].0 == key {
                self.entries[i] = (key, value, rev);
                proof {
                    assert(es[i as int].0 == old(self).entries@[i as int].0@);
                    let w = spec_input_index(es, es[i as int].0);
                    if w != i as int {
                        assert(false);
                    }
                    assert(self.entries_view() =~= spec_input_set(es, es[i as int].0, value@, rev.0));
                }
                return rev;
            }
            i = i + 1;
        }
        self.entries.push((key, value, rev));
        proof {
            assert(!spec_input_has(es, self.entries@.last().0@));
            assert(self.entries_view() =~= es.push(
                (self.entries@.last().0@, self.entries@.last().1@, rev.0),
            ));
            let es2 = self.entries_view();
            assert(forall|a: int, b: int| 0 <= a < b < es2.len() ==> es2[a].0 != es2[b].0);
        }
        rev
    }

    /// Delete a key if present. The clock is bumped either way, and an
    /// `InputRemoved` event carrying the new revision goes out.
    pub fn remove(&mut self, rt: &mut Runtime, key: &Key) -> (r: Revision)
        requires
            old(self).wf(),
            old(rt).rev() < u64::MAX,
        ensures
            final(self).wf(),
            final(self).spec_kind() == old(self).spec_kind(),
            final(self).spec_kind_name() == old(self).spec_kind_name(),
            final(rt).rev() == old(rt).rev() + 1,
            r.0 == final(rt).rev(),
            final(self).entries_view() == spec_input_remove(old(self).entries_view(), key@),
    {
        let rev = rt.bump_revision();
        rt.notify_input_removed(rev, self.kind, key.clone());
        let ghost es = self.entries_view();
        let n = self.entries.len();
        let mut i: usize = 0;
        while i < n
            invariant
                n == self.entries@.len(),
                i <= n,
                *self == *old(self),
                old(self).wf(),
                rt.rev() == old(rt).rev() + 1,
                rev.0 == rt.rev(),
                es == self.entries_view(),
                forall|j: int| 0 <= j < i ==> es[j].0 != key@,
            decreases n - i,
        {
            if self.entries[i].0 == *key {
                self.entries.remove(i);
                proof {
                    assert(es[i as int].0 == key@);
                    let w = spec_input_index(es, key@);
                    if w != i as int {
                        assert(false);
                    }
                    assert(self.entries_view() =~= es.remove(i as int));
                    let es2 = self.entries_view();
                    assert(forall|a: int, b: int| 0 <= a < b < es2.len() ==> es2[a].0 != es2[b].0);
                }
                return rev;
            }
            i = i + 1;
        }
        proof {
            assert(!spec_input_has(es, key@));
        }
        rev
    }

    /// Read the value stored under a key. When the task has an active
    /// query frame, a dependency edge on (kind, key) is recorded first.
    pub fn get(&self, frames: &mut FrameStack, key: &Key) -> (r: Option<Vec<u8>>)
        requires
            self.wf(),
        ensures
            spec_recorded_dep(old(frames).frames@, final(frames).frames@, (self.spec_kind(), key@)),
            match spec_input_lookup(self.entries_view(), key@) {
                Some((v, _)) => r matches Some(rv) && rv@ == v,
                None => r is None,
            },
    {
        if frames.has_active_frame() {
            frames.record_dep(Dep { kind: self.kind, key: key.clone() });
        }
        let ghost es = self.entries_view();
        let n = self.entries.len();
        let mut i: usize = 0;
        while i < n
            invariant
                n == self.entries@.len(),
                es == self.entries_view(),
                self.wf(),
                i <= n,
                spec_recorded_dep(
                    old(frames).frames@,
                    frames.frames@,
                    (self.spec_kind(), key@),
                ),
                forall|j: int| 0 <= j < i ==> es[j].0 != key@,
            decreases n - i,
        {
            if self.entries[i].0 == *key {
                let v = clone_bytes(&self.entries[i].1);
                proof {
                    assert(es[i as int].0 == key@);
                    let w = spec_input_index(es, key@);
                    if w != i as int {
                        assert(false);
                    }
                }
                return Some(v);
            }
            i = i + 1;
        }
        None
    }

    /// Serialize every entry, in entry order.
    pub fn save_records(&self) -> (r: Vec<Vec<u8>>)
        ensures
            r.deep_view() == spec_input_blobs(self.entries_view()),
    {
        let ghost es = self.entries_view();
        let n = self.entries.len();
        let mut records: Vec<Vec<u8>> = Vec::new();
        let mut i: usize = 0;
        while i < n
            invariant
                n == self.entries@.len(),
                i <= n,
                es == self.entries_view(),
                records.deep_view().len() == i,
                forall|j: int|
                    0 <= j < i ==> records.deep_view()[j] == spec_enc_input_record(
                        #[trigger] es[j].0,
                        es[j].1,
                        es[j].2,
                    ),
            decreases n - i,
        {
            let blob = encode_input_record(
                &self.entries[i].0,
                &self.entries[i].1,
                self.entries[i].2.0,
            );
            let ghost pre_dv = records.deep_view();
            let ghost blob_view = blob@;
            records.push(blob);
            i = i + 1;
            proof {
                assert(records@.last().deep_view() =~= blob_view);
                assert(records.deep_view() =~= pre_dv.push(blob_view));
            }
        }
        proof {
            assert(records.deep_view() =~= spec_input_blobs(es));
        }
        records
    }

    /// Load entries from raw record blobs, replacing the store.
    ///
    /// Every blob must decode, and keys must be distinct; any failure
    /// leaves the store cleared.
    pub fn load_records(&mut self, records: &Vec<Vec<u8>>) -> (r: Result<(), PicanteError>)
        ensures
            final(self).wf(),
            final(self).spec_kind() == old(self).spec_kind(),
            final(self).spec_kind_name() == old(self).spec_kind_name(),
            match spec_input_of_blobs(records.deep_view()) {
                None => {
                    &&& r matches Err(PicanteError::Decode { .. })
                    &&& final(self).entries_view() =~= Seq::<(Seq<u8>, Seq<u8>, u64)>::empty()
                },
                Some(es) => if spec_input_wf(es) {
                    &&& r is Ok
                    &&& final(self).entries_view() == es
                } else {
                    &&& r matches Err(PicanteError::Cache { .. })
                    &&& final(self).entries_view() =~= Seq::<(Seq<u8>, Seq<u8>, u64)>::empty()
                },
            },
    {
        self.entries = Vec::new();
        let n = records.len();
        let mut parsed: Vec<(Key, Vec<u8>, Revision)> = Vec::new();
        proof {
            reveal(spec_input_of_blobs);
            assert(records.deep_view().skip(0) =~= records.deep_view());
            assert(spec_input_entries_of(parsed@) =~= Seq::<(Seq<u8>, Seq<u8>, u64)>::empty());
            match spec_input_of_blobs(records.deep_view()) {
                None => {},
                Some(tail) => {
                    assert(Seq::<(Seq<u8>, Seq<u8>, u64)>::empty() + tail =~= tail);
                },
            }
        }
        let mut i: usize = 0;
        while i < n
            invariant
                n == records@.len(),
                i <= n,
                self.entries@.len() == 0,
                self.kind == old(self).kind,
                self.kind_name == old(self).kind_name,
                spec_input_of_blobs(records.deep_view()) == (match spec_input_of_blobs(
                    records.deep_view().skip(i as int),
                ) {
                    None => None::<InputEntries>,
                    Some(tail) => Some(spec_input_entries_of(parsed@) + tail),
                }),
            decreases n - i,
        {
            let ghost bdv = records.deep_view();
            proof {
                assert(bdv.skip(i as int).first() == bdv[i as int]);
                assert(bdv[i as int] == records@[i as int]@);
            }
            let (key, value, changed_at) = match decode_input_record(&records[i]) {
                Some(x) => x,
                None => {
                    proof {
                        reveal(spec_input_of_blobs);
                        assert(spec_input_of_blobs(bdv.skip(i as int)) is None);
                        assert(spec_input_of_blobs(bdv) is None);
                        assert(self.entries_view() =~= Seq::<(Seq<u8>, Seq<u8>, u64)>::empty());
                    }
                    return Err(
                        PicanteError::Decode {
                            what: "input record",
                            message: String::from_str("a record blob cannot be parsed"),
                        },
                    );
                },
            };
            let ghost pre_pv = spec_input_entries_of(parsed@);
            let ghost e_view = (key@, value@, changed_at);
            let ghost tail_opt = spec_input_of_blobs(bdv.skip(i + 1 as int));
            parsed.push((key, value, Revision(changed_at)));
            i = i + 1;
            proof {
                reveal(spec_input_of_blobs);
                assert(bdv.skip(i - 1 as int).drop_first() =~= bdv.skip(i as int));
                assert(spec_input_entries_of(parsed@) =~= pre_pv.push(e_view));
                match tail_opt {
                    None => {},
                    Some(tail) => {
                        assert(pre_pv + (seq![e_view] + tail) =~= pre_pv.push(e_view) + tail);
                    },
                }
            }
        }
        let ghost es = spec_input_entries_of(parsed@);
        proof {
            reveal(spec_input_of_blobs);
            assert(records.deep_view().skip(n as int) =~= Seq::<Seq<u8>>::empty());
            assert(es + Seq::<(Seq<u8>, Seq<u8>, u64)>::empty() =~= es);
            assert(spec_input_of_blobs(records.deep_view()) == Some(es));
        }
        if !input_keys_distinct(&parsed) {
            proof {
                assert(self.entries_view() =~= Seq::<(Seq<u8>, Seq<u8>, u64)>::empty());
            }
            return Err(
                PicanteError::Cache {
                    message: String::from_str("duplicate input key"),
                },
            );
        }
        self.entries = parsed;
        Ok(())
    }

    /// Forget every entry.
    pub fn clear(&mut self)
        ensures
            final(self).wf(),
            final(self).entries_view() =~= Seq::<(Seq<u8>, Seq<u8>, u64)>::empty(),
            final(self).spec_kind() == old(self).spec_kind(),
            final(self).spec_kind_name() == old(self).spec_kind_name(),
    {
        self.entries = Vec::new();
        proof {
            assert(self.entries_view() =~= Seq::<(Seq<u8>, Seq<u8>, u64)>::empty());
        }
    }
}

/// An owned copy of a byte vector.
fn clone_bytes(v: &Vec<u8>) -> (r: Vec<u8>)
    ensures
        r@ == v@,
{
    vstd::slice::slice_to_vec(v.as_slice())
}

/// Looking up the key just written finds the new value and revision, and
/// every other key is untouched.
pub proof fn lemma_input_set_lookup(es: InputEntries, k: Seq<u8>, v: Seq<u8>, rev: u64, k2: Seq<u8>)
    requires
        spec_input_wf(es),
    ensures
        spec_input_lookup(spec_input_set(es, k, v, rev), k) == Some((v, rev)),
        k2 != k ==> spec_input_lookup(spec_input_set(es, k, v, rev), k2) == spec_input_lookup(
            es,
            k2,
        ),
{
    let es1 = spec_input_set(es, k, v, rev);
    if spec_input_has(es, k) {
        let i = spec_input_index(es, k);
        assert(es1 == es.update(i, (k, v, rev)));
        assert(es1[i].0 == k);
        assert(spec_input_has(es1, k));
        let w = spec_input_index(es1, k);
        if w != i {
            assert(es1[w] == es[w]);
            assert(false);
        }
        if k2 != k {
            if spec_input_has(es, k2) {
                let j = spec_input_index(es, k2);
                assert(es1[j] == es[j]);
                assert(spec_input_has(es1, k2));
                let w2 = spec_input_index(es1, k2);
                if w2 != j {
                    assert(es1[w2] == es[w2]);
                    assert(false);
                }
            } else {
                if spec_input_has(es1, k2) {
                    let w2 = spec_input_index(es1, k2);
                    if w2 == i {
                        assert(false);
                    }
                    assert(es1[w2] == es[w2]);
                    assert(false);
                }
            }
        }
    } else {
        let i = es.len() as int;
        assert(es1 == es.push((k, v, rev)));
        assert(es1[i].0 == k);
        assert(spec_input_has(es1, k));
        let w = spec_input_index(es1, k);
        if w != i {
            assert(es1[w] == es[w]);
            assert(false);
        }
        if k2 != k {
            if spec_input_has(es, k2) {
                let j = spec_input_index(es, k2);
                assert(es1[j] == es[j]);
                assert(spec_input_has(es1, k2));
                let w2 = spec_input_index(es1, k2);
                if w2 == i {
                    assert(false);
                }
                if w2 != j {
                    assert(es1[w2] == es[w2]);
                    assert(false);
                }
            } else {
                if spec_input_has(es1, k2) {
                    let w2 = spec_input_index(es1, k2);
                    if w2 == i {
                        assert(false);
                    }
                    assert(es1[w2] == es[w2]);
                    assert(false);
                }
            }
        }
    }
}

} // verus!
