//! The interned ingredient: a dense id ↔ value bijection.
//!
//! Interned values are immutable; interning never bumps the revision, and
//! a lookup reports its last change as revision 0.

use vstd::prelude::*;
use vstd::string::StringExecFns;
use crate::error::PicanteError;
use crate::frame::{FrameStack, spec_recorded_dep};
use crate::key::{Key, QueryKindId};
use crate::persist::{
    decode_interned_record, encode_interned_record, lemma_interned_record_round_trip,
    spec_enc_interned_record, spec_parse_interned_record,
};
use crate::codec::{push_u32_le, spec_u32_le, spec_u32_of_le};
use crate::revision::Revision;

verus! {

/// An identifier returned from [`InternedIngredient::intern`].
#[derive(Copy, Clone, Eq, PartialEq, Hash, Debug, Structural)]
pub struct InternId(pub u32);

/// The id and value bytes of each entry, in insertion order.
pub type InternEntries = Seq<(u32, Seq<u8>)>;

/// Some entry holds exactly these value bytes.
pub open spec fn spec_has_value(es: InternEntries, v: Seq<u8>) -> bool {
    exists|i: int| 0 <= i < es.len() && es[i].1 == v
}

/// The id of the entry holding these value bytes.
pub open spec fn spec_id_of(es: InternEntries, v: Seq<u8>) -> u32 {
    es[choose|i: int| 0 <= i < es.len() && es[i].1 == v].0
}

/// Some entry carries this id.
pub open spec fn spec_has_id(es: InternEntries, id: u32) -> bool {
    exists|i: int| 0 <= i < es.len() && es[i].0 == id
}

/// The value bytes of the entry carrying this id, if any.
pub open spec fn spec_lookup_id(es: InternEntries, id: u32) -> Option<Seq<u8>> {
    if spec_has_id(es, id) {
        Some(es[choose|i: int| 0 <= i < es.len() && es[i].0 == id].1)
    } else {
        None
    }
}

/// The table's invariant: ids unique, values unique, every id below the
/// allocation counter.
pub open spec fn spec_table_wf(es: InternEntries, next: u32) -> bool {
    &&& forall|i: int, j: int| 0 <= i < j < es.len() ==> es[i].0 != es[j].0
    &&& forall|i: int, j: int| 0 <= i < j < es.len() ==> es[i].1 != es[j].1
    &&& forall|i: int| 0 <= i < es.len() ==> (#[trigger] es[i]).0 < next
}

/// What one intern does to a table: an existing value returns its id and
/// changes nothing; a new value takes the next id.
pub open spec fn spec_intern_tbl(es: InternEntries, next: u32, v: Seq<u8>) -> (
    InternEntries,
    u32,
    u32,
)
    recommends
        next < u32::MAX,
{
    if spec_has_value(es, v) {
        (es, next, spec_id_of(es, v))
    } else {
        (es.push((next, v)), (next + 1) as u32, next)
    }
}

/// The id and value bytes carried by a vector of entries.
pub open spec fn spec_entries_of(v: Seq<(u32, Key)>) -> InternEntries {
    Seq::new(v.len(), |i: int| (v[i].0, v[i].1@))
}

/// Every id is at most the largest id.
pub proof fn lemma_max_id_bounds(es: InternEntries)
    ensures
        forall|i: int| 0 <= i < es.len() ==> (#[trigger] es[i]).0 <= spec_max_id(es),
    decreases es.len(),
{
    if es.len() > 0 {
        lemma_max_id_bounds(es.drop_last());
        let m = spec_max_id(es);
        assert(es.last().0 <= m);
        assert(spec_max_id(es.drop_last()) <= m);
        assert forall|i: int| 0 <= i < es.len() implies (#[trigger] es[i]).0 <= m by {
            if i < es.len() - 1 {
                assert(es[i] == es.drop_last()[i]);
            } else {
                assert(es[i] == es.last());
            }
        }
    }
}

/// Whether ids and values are pairwise distinct, checked exactly.
fn entries_distinct(v: &Vec<(u32, Key)>) -> (r: bool)
    ensures
        r == spec_entries_distinct(spec_entries_of(v@)),
{
    let ghost es = spec_entries_of(v@);
    let n = v.len();
    let mut i: usize = 0;
    while i < n
        invariant
            n == v@.len(),
            i <= n,
            es == spec_entries_of(v@),
            forall|a: int, b: int|
                0 <= a < b < es.len() && a < i ==> es[a].0 != es[b].0 && es[a].1 != es[b].1,
        decreases n - i,
    {
        let mut j: usize = i + 1;
        while j < n
            invariant
                n == v@.len(),
                i < j <= n || (i + 1 == j && j > n),
                i < n,
                es == spec_entries_of(v@),
                forall|b: int| i < b < j ==> es[i as int].0 != es[b].0 && es[i as int].1 != es[b].1,
            decreases n - j,
        {
            if v[i].0 == v[j].0 || v[i].1 == v[j].1 {
                proof {
                    assert(es[i as int].0 == es[j as int].0 || es[i as int].1 == es[j as int].1);
                }
                return false;
            }
            j = j + 1;
        }
        i = i + 1;
    }
    proof {
        assert(spec_entries_distinct(es));
    }
    true
}

/// An ingredient that interns values and returns stable ids.
#[derive(Debug)]
pub struct InternedIngredient {
    kind: QueryKindId,
    kind_name: &'static str,
    entries: Vec<(u32, Key)>,
    next_id: u32,
}

impl InternedIngredient {
    /// The entries as plain data.
    pub closed spec fn entries_view(self) -> InternEntries {
        spec_entries_of(self.entries@)
    }

    /// The next id the table would allocate.
    pub closed spec fn spec_next_id(self) -> u32 {
        self.next_id
    }

    /// The ingredient's kind id.
    pub closed spec fn spec_kind(self) -> u32 {
        self.kind.0
    }

    /// The ingredient's debug name.
    pub closed spec fn spec_kind_name(self) -> Seq<char> {
        self.kind_name@
    }

    /// The table's invariant.
    pub open spec fn wf(self) -> bool {
        spec_table_wf(self.entries_view(), self.spec_next_id())
    }

    /// Create an empty interned ingredient.
    pub fn new(kind: QueryKindId, kind_name: &'static str) -> (r: InternedIngredient)
        ensures
            r.wf(),
            r.entries_view() =~= Seq::<(u32, Seq<u8>)>::empty(),
            r.spec_next_id() == 0,
            r.spec_kind() == kind.0,
            r.spec_kind_name() == kind_name@,
    {
        let r = InternedIngredient { kind, kind_name, entries: Vec::new(), next_id: 0 };
        proof {
            assert(r.entries_view() =~= Seq::<(u32, Seq<u8>)>::empty());
        }
        r
    }

    /// The stable kind id.
    pub fn kind(&self) -> (r: QueryKindId)
        ensures
            r.0 == self.spec_kind(),
    {
        self.kind
    }

    /// Debug name for this ingredient.
    pub fn kind_name(&self) -> (r: &'static str)
        ensures
            r@ == self.spec_kind_name(),
    {
        self.kind_name
    }

    /// Intern `value` and return its stable id: the existing id when the
    /// value is known, and a fresh one otherwise.
    pub fn intern(&mut self, value: Key) -> (r: InternId)
        requires
            old(self).wf(),
            old(self).spec_next_id() < u32::MAX,
        ensures
            final(self).wf(),
            final(self).spec_kind() == old(self).spec_kind(),
            final(self).spec_kind_name() == old(self).spec_kind_name(),
            (final(self).entries_view(), final(self).spec_next_id(), r.0) == spec_intern_tbl(
                old(self).entries_view(),
                old(self).spec_next_id(),
                value@,
            ),
    {
        let ghost es = self.entries_view();
        let n = self.entries.len();
        let mut i: usize = 0;
        while i < n
            invariant
                n == self.entries@.len(),
                i <= n,
                *self == *old(self),
                old(self).wf(),
                es == self.entries_view(),
                forall|j: int| 0 <= j < i ==> es[j].1 != value@,
            decreases n - i,
        {
            if self.entries[i].1 == value {
                proof {
                    assert(es[i as int].1 == value@);
                    let k = choose|k: int| 0 <= k < es.len() && es[k].1 == value@;
                    if k != i as int {
                        assert(false);
                    }
                }
                return InternId(self.entries[i].0);
            }
            i = i + 1;
        }
        let id = self.next_id;
        self.entries.push((id, value));
        self.next_id = id + 1;
        proof {
            assert(self.entries_view() =~= es.push((id, value@)));
            assert(forall|j: int| 0 <= j < es.len() ==> es[j].1 != value@);
            assert(!spec_has_value(es, value@));
            let es2 = self.entries_view();
            assert(forall|i2: int, j2: int| 0 <= i2 < j2 < es2.len() ==> es2[i2].0 != es2[j2].0);
            assert(forall|i2: int, j2: int| 0 <= i2 < j2 < es2.len() ==> es2[i2].1 != es2[j2].1);
        }
        InternId(id)
    }

    /// Look up an interned value by id, handing back its bytes.
    ///
    /// When the task has an active query frame, a dependency edge on
    /// (kind, the id's four-byte encoding) is recorded first.
    pub fn get(&self, frames: &mut FrameStack, id: InternId) -> (r: Result<Key, PicanteError>)
        requires
            self.wf(),
        ensures
            spec_recorded_dep(
                old(frames).frames@,
                final(frames).frames@,
                (self.spec_kind(), spec_u32_le(id.0)),
            ),
            match r {
                Ok(k) => spec_lookup_id(self.entries_view(), id.0) == Some(k@),
                Err(PicanteError::MissingInternedValue { kind, id: missing }) => {
                    &&& spec_lookup_id(self.entries_view(), id.0) is None
                    &&& kind.0 == self.spec_kind()
                    &&& missing == id.0
                },
                Err(_) => false,
            },
    {
        if frames.has_active_frame() {
            let mut kb: Vec<u8> = Vec::new();
            push_u32_le(&mut kb, id.0);
            frames.record_dep(crate::key::Dep { kind: self.kind, key: Key::from_bytes(kb) });
        }
        let ghost es = self.entries_view();
        let n = self.entries.len();
        let mut i: usize = 0;
        while i < n
            invariant
                n == self.entries@.len(),
                es == self.entries_view(),
                self.wf(),
                i <= n,
                spec_recorded_dep(
                    old(frames).frames@,
                    frames.frames@,
                    (self.spec_kind(), spec_u32_le(id.0)),
                ),
                forall|j: int| 0 <= j < i ==> es[j].0 != id.0,
            decreases n - i,
        {
            if self.entries[i].0 == id.0 {
                let k = self.entries[i].1.clone();
                proof {
                    assert(es[i as int].0 == id.0);
                    let w = choose|w: int| 0 <= w < es.len() && es[w].0 == id.0;
                    if w != i as int {
                        assert(false);
                    }
                }
                return Ok(k);
            }
            i = i + 1;
        }
        Err(PicanteError::MissingInternedValue { kind: self.kind, id: id.0 })
    }

    /// Report when the value behind an encoded id last changed: interned
    /// values are immutable, so a present id reports revision 0.
    pub fn touch(&self, key: &Key) -> (r: Result<Revision, PicanteError>)
        ensures
            match r {
                Ok(rev) => {
                    &&& key@.len() == 4
                    &&& rev.0 == 0
                    &&& spec_has_id(
                        self.entries_view(),
                        spec_u32_of_le(key@[0], key@[1], key@[2], key@[3]),
                    )
                },
                Err(PicanteError::Decode { .. }) => key@.len() != 4,
                Err(PicanteError::MissingInternedValue { kind, id }) => {
                    &&& key@.len() == 4
                    &&& id == spec_u32_of_le(key@[0], key@[1], key@[2], key@[3])
                    &&& !spec_has_id(self.entries_view(), id)
                    &&& kind.0 == self.spec_kind()
                },
                Err(_) => false,
            },
    {
        let kb = key.bytes();
        if kb.len() != 4 {
            return Err(
                PicanteError::Decode {
                    what: "intern id",
                    message: String::from_str("an intern id is four bytes"),
                },
            );
        }
        let id = (kb[0] as u32) | ((kb[1] as u32) << 8) | ((kb[2] as u32) << 16) | ((
        kb[3] as u32) << 24);
        let ghost es = self.entries_view();
        let n = self.entries.len();
        let mut i: usize = 0;
        while i < n
            invariant
                n == self.entries@.len(),
                es == self.entries_view(),
                i <= n,
                key@.len() == 4,
                id == spec_u32_of_le(key@[0], key@[1], key@[2], key@[3]),
                forall|j: int| 0 <= j < i ==> es[j].0 != id,
            decreases n - i,
        {
            if self.entries[i].0 == id {
                proof {
                    assert(es[i as int].0 == id);
                    assert(spec_has_id(es, id));
                }
                return Ok(Revision(0));
            }
            i = i + 1;
        }
        Err(PicanteError::MissingInternedValue { kind: self.kind, id })
    }

    /// Forget every entry and reset the id counter.
    pub fn clear(&mut self)
        ensures
            final(self).wf(),
            final(self).entries_view() =~= Seq::<(u32, Seq<u8>)>::empty(),
            final(self).spec_next_id() == 0,
            final(self).spec_kind() == old(self).spec_kind(),
            final(self).spec_kind_name() == old(self).spec_kind_name(),
    {
        self.entries = Vec::new();
        self.next_id = 0;
        proof {
            assert(self.entries_view() =~= Seq::<(u32, Seq<u8>)>::empty());
        }
    }

    /// Serialize every entry, in entry order.
    pub fn save_records(&self) -> (r: Vec<Vec<u8>>)
        ensures
            r.deep_view() == spec_interned_blobs(self.entries_view()),
    {
        let ghost es = self.entries_view();
        let n = self.entries.len();
        let mut records: Vec<Vec<u8>> = Vec::new();
        let mut i: usize = 0;
        while i < n
            invariant
                n == self.entries@.len(),
                i <= n,
                es == self.entries_view(),
                records.deep_view().len() == i,
                forall|j: int|
                    0 <= j < i ==> records.deep_view()[j] == spec_enc_interned_record(
                        #[trigger] es[j].0,
                        es[j].1,
                    ),
            decreases n - i,
        {
            let blob = encode_interned_record(self.entries[i].0, &self.entries[i].1);
            let ghost pre_dv = records.deep_view();
            let ghost blob_view = blob@;
            records.push(blob);
            i = i + 1;
            proof {
                assert(records@.last().deep_view() =~= blob_view);
                assert(records.deep_view() =~= pre_dv.push(blob_view));
            }
        }
        proof {
            assert(records.deep_view() =~= spec_interned_blobs(es));
        }
        records
    }

    /// Load entries from raw record blobs, replacing the table.
    ///
    /// Every blob must decode; ids and values must be distinct, and every
    /// id must leave room for the restored counter, which becomes one past
    /// the largest id. Any failure leaves the table cleared.
    pub fn load_records(&mut self, records: &Vec<Vec<u8>>) -> (r: Result<(), PicanteError>)
        ensures
            final(self).wf(),
            final(self).spec_kind() == old(self).spec_kind(),
            final(self).spec_kind_name() == old(self).spec_kind_name(),
            match spec_interned_of_blobs(records.deep_view()) {
                None => {
                    &&& r matches Err(PicanteError::Decode { .. })
                    &&& final(self).entries_view() =~= Seq::<(u32, Seq<u8>)>::empty()
                },
                Some(es) => if spec_entries_distinct(es) && spec_ids_small(es) {
                    &&& r is Ok
                    &&& final(self).entries_view() == es
                    &&& final(self).spec_next_id() == (if es.len() == 0 {
                        0u32
                    } else {
                        (spec_max_id(es) + 1) as u32
                    })
                } else {
                    &&& r matches Err(PicanteError::Cache { .. })
                    &&& final(self).entries_view() =~= Seq::<(u32, Seq<u8>)>::empty()
                },
            },
    {
        self.entries = Vec::new();
        self.next_id = 0;
        let n = records.len();
        let mut parsed: Vec<(u32, Key)> = Vec::new();
        proof {
            reveal(spec_interned_of_blobs);
            assert(records.deep_view().skip(0) =~= records.deep_view());
            assert(spec_entries_of(parsed@) =~= Seq::<(u32, Seq<u8>)>::empty());
            match spec_interned_of_blobs(records.deep_view()) {
                None => {},
                Some(tail) => {
                    assert(Seq::<(u32, Seq<u8>)>::empty() + tail =~= tail);
                },
            }
        }
        let mut i: usize = 0;
        while i < n
            invariant
                n == records@.len(),
                i <= n,
                self.entries@.len() == 0,
                self.next_id == 0,
                self.kind == old(self).kind,
                self.kind_name == old(self).kind_name,
                spec_interned_of_blobs(records.deep_view()) == (match spec_interned_of_blobs(
                    records.deep_view().skip(i as int),
                ) {
                    None => None::<InternEntries>,
                    Some(tail) => Some(spec_entries_of(parsed@) + tail),
                }),
            decreases n - i,
        {
            let ghost bdv = records.deep_view();
            proof {
                assert(bdv.skip(i as int).first() == bdv[i as int]);
                assert(bdv[i as int] == records@[i as int]@);
            }
            let (id, value) = match decode_interned_record(&records[i]) {
                Some(x) => x,
                None => {
                    proof {
                        reveal(spec_interned_of_blobs);
                        assert(spec_interned_of_blobs(bdv.skip(i as int)) is None);
                        assert(spec_interned_of_blobs(bdv) is None);
                        assert(self.entries_view() =~= Seq::<(u32, Seq<u8>)>::empty());
                    }
                    return Err(
                        PicanteError::Decode {
                            what: "interned record",
                            message: String::from_str("a record blob cannot be parsed"),
                        },
                    );
                },
            };
            let ghost pre_pv = spec_entries_of(parsed@);
            let ghost e_view = (id, value@);
            let ghost tail_opt = spec_interned_of_blobs(bdv.skip(i + 1 as int));
            parsed.push((id, value));
            i = i + 1;
            proof {
                reveal(spec_interned_of_blobs);
                assert(bdv.skip(i - 1 as int).drop_first() =~= bdv.skip(i as int));
                assert(spec_entries_of(parsed@) =~= pre_pv.push(e_view));
                match tail_opt {
                    None => {},
                    Some(tail) => {
                        assert(pre_pv + (seq![e_view] + tail) =~= pre_pv.push(e_view) + tail);
                    },
                }
            }
        }
        let ghost es = spec_entries_of(parsed@);
        proof {
            reveal(spec_interned_of_blobs);
            assert(records.deep_view().skip(n as int) =~= Seq::<Seq<u8>>::empty());
            assert(es + Seq::<(u32, Seq<u8>)>::empty() =~= es);
            assert(spec_interned_of_blobs(records.deep_view()) == Some(es));
        }
        if !entries_distinct(&parsed) {
            proof {
                assert(self.entries_view() =~= Seq::<(u32, Seq<u8>)>::empty());
            }
            return Err(
                PicanteError::Cache {
                    message: String::from_str("duplicate interned id or value"),
                },
            );
        }
        let m = parsed.len();
        let mut max_id: u32 = 0;
        let mut all_small = true;
        let mut k: usize = 0;
        while k < m
            invariant
                m == parsed@.len(),
                k <= m,
                es == spec_entries_of(parsed@),
                k > 0 ==> max_id == spec_max_id(es.take(k as int)),
                k == 0 ==> max_id == 0,
                (all_small && k > 0) ==> max_id < u32::MAX,
                all_small == (forall|j: int| 0 <= j < k ==> (#[trigger] es[j]).0 < u32::MAX),
            decreases m - k,
        {
            let id = parsed[k].0;
            if id == u32::MAX {
                all_small = false;
            }
            if id > max_id || k == 0 {
                max_id = id;
            }
            k = k + 1;
            proof {
                assert(es.take(k as int).drop_last() =~= es.take(k - 1));
                assert(es.take(k as int).last() == es[k - 1]);
                if k == 1 {
                    assert(es.take(0).len() == 0);
                    assert(spec_max_id(es.take(0)) == 0);
                }
                assert(spec_max_id(es.take(k as int)) == (if es[k - 1].0 > spec_max_id(
                    es.take(k - 1),
                ) {
                    es[k - 1].0
                } else {
                    spec_max_id(es.take(k - 1))
                }));
            }
        }
        if !all_small {
            proof {
                assert(self.entries_view() =~= Seq::<(u32, Seq<u8>)>::empty());
            }
            return Err(
                PicanteError::Cache {
                    message: String::from_str("an interned id leaves no room for the counter"),
                },
            );
        }
        self.entries = parsed;
        self.next_id = if m == 0 {
            0
        } else {
            max_id + 1
        };
        proof {
            assert(es.take(m as int) =~= es);
            assert(self.entries_view() == es);
            assert(forall|j: int| 0 <= j < es.len() ==> (#[trigger] es[j]).0 < u32::MAX);
            if m > 0 {
                lemma_max_id_bounds(es);
            }
        }
        Ok(())
    }
}

/// Each entry as its own encoded record blob.
pub open spec fn spec_interned_blobs(es: InternEntries) -> Seq<Seq<u8>> {
    Seq::new(es.len(), |i: int| spec_enc_interned_record(es[i].0, es[i].1))
}

/// Parse every blob as a fully-consumed interned record.
#[verifier::opaque]
pub open spec fn spec_interned_of_blobs(blobs: Seq<Seq<u8>>) -> Option<InternEntries>
    decreases blobs.len(),
{
    if blobs.len() == 0 {
        Some(Seq::empty())
    } else {
        match spec_parse_interned_record(blobs.first()) {
            None => None,
            Some(e) => match spec_interned_of_blobs(blobs.drop_first()) {
                None => None,
                Some(rest) => Some(seq![e] + rest),
            },
        }
    }
}

/// Ids and values are pairwise distinct.
pub open spec fn spec_entries_distinct(es: InternEntries) -> bool {
    &&& forall|i: int, j: int| 0 <= i < j < es.len() ==> es[i].0 != es[j].0
    &&& forall|i: int, j: int| 0 <= i < j < es.len() ==> es[i].1 != es[j].1
}

/// Every id leaves room for the restored counter.
pub open spec fn spec_ids_small(es: InternEntries) -> bool {
    forall|i: int| 0 <= i < es.len() ==> (#[trigger] es[i]).0 < u32::MAX
}

/// The largest id among the entries, 0 when there are none.
pub open spec fn spec_max_id(es: InternEntries) -> u32
    decreases es.len(),
{
    if es.len() == 0 {
        0
    } else {
        let m = spec_max_id(es.drop_last());
        if es.last().0 > m {
            es.last().0
        } else {
            m
        }
    }
}

/// Encoding each entry of a table and parsing the blobs back yields the
/// same entries.
pub proof fn lemma_interned_records_round_trip(es: InternEntries)
    requires
        forall|i: int| 0 <= i < es.len() ==> (#[trigger] es[i]).1.len() <= u64::MAX,
    ensures
        spec_interned_of_blobs(spec_interned_blobs(es)) == Some(es),
    decreases es.len(),
{
    reveal(spec_interned_of_blobs);
    let blobs = spec_interned_blobs(es);
    if es.len() == 0 {
        assert(blobs.len() == 0);
    } else {
        let first = es.first();
        assert(blobs.first() == spec_enc_interned_record(first.0, first.1));
        assert(es[0].1.len() <= u64::MAX);
        lemma_interned_record_round_trip(first.0, first.1);
        assert(blobs.drop_first() =~= spec_interned_blobs(es.drop_first()));
        assert(forall|i: int|
            0 <= i < es.drop_first().len() ==> (#[trigger] es.drop_first()[i]).1.len()
                <= u64::MAX) by {
            assert(forall|i: int|
                0 <= i < es.drop_first().len() ==> es.drop_first()[i] == es[i + 1] && (#[trigger] es.drop_first()[i]).1.len() == es[i + 1].1.len());
        }
        lemma_interned_records_round_trip(es.drop_first());
        assert(seq![first] + es.drop_first() =~= es);
    }
}

/// A well-formed table's records always load back: its entries are
/// distinct and its ids leave room for the restored counter.
pub proof fn lemma_interned_save_load(es: InternEntries, next: u32)
    requires
        spec_table_wf(es, next),
        forall|i: int| 0 <= i < es.len() ==> (#[trigger] es[i]).1.len() <= u64::MAX,
    ensures
        spec_interned_of_blobs(spec_interned_blobs(es)) == Some(es),
        spec_entries_distinct(es),
        spec_ids_small(es),
{
    lemma_interned_records_round_trip(es);
}

/// Interning bijection, one half: interning two values in turn yields the
/// same id exactly when the values are byte-equal.
pub proof fn lemma_intern_injective(es: InternEntries, next: u32, v1: Seq<u8>, v2: Seq<u8>)
    requires
        spec_table_wf(es, next),
        next + 1 < u32::MAX,
    ensures
        ({
            let (es1, n1, id1) = spec_intern_tbl(es, next, v1);
            let (es2, n2, id2) = spec_intern_tbl(es1, n1, v2);
            (id1 == id2) <==> (v1 == v2)
        }),
{
    let (es1, n1, id1) = spec_intern_tbl(es, next, v1);
    let (es2, n2, id2) = spec_intern_tbl(es1, n1, v2);
    if spec_has_value(es, v1) {
        let i1 = choose|i: int| 0 <= i < es.len() && es[i].1 == v1;
        assert(es[i1].0 == id1 && es[i1].1 == v1);
        assert(id1 < next);
        if spec_has_value(es1, v2) {
            let i2 = choose|i: int| 0 <= i < es1.len() && es1[i].1 == v2;
            assert(es1 == es);
            assert(es[i2].0 == id2 && es[i2].1 == v2);
            if id1 == id2 {
                if i1 != i2 {
                    assert(false);
                }
                assert(v1 == v2);
            }
            if v1 == v2 {
                if i1 != i2 {
                    assert(false);
                }
                assert(id1 == id2);
            }
        } else {
            assert(id2 == next);
            assert(id1 != id2);
            assert(v1 != v2);
        }
    } else {
        assert(id1 == next);
        assert(es1 == es.push((next, v1)));
        if v1 == v2 {
            assert(es1[es.len() as int].1 == v2);
            assert(spec_has_value(es1, v2));
            let i2 = choose|i: int| 0 <= i < es1.len() && es1[i].1 == v2;
            assert(es1[i2].1 == v2);
            if i2 != es.len() as int {
                assert(es1[i2] == es[i2]);
                assert(spec_has_value(es, v1));
                assert(false);
            }
            assert(id2 == next);
        } else {
            if spec_has_value(es1, v2) {
                let i2 = choose|i: int| 0 <= i < es1.len() && es1[i].1 == v2;
                if i2 == es.len() as int {
                    assert(es1[i2].1 == v1);
                    assert(false);
                }
                assert(es1[i2] == es[i2]);
                assert(id2 == es[i2].0);
                assert(id2 < next);
                assert(id1 != id2);
            } else {
                assert(id2 == n1);
                assert(n1 == next + 1);
                assert(id1 != id2);
            }
        }
    }
}

/// Interning bijection, other half: looking an id up right after
/// interning its value hands the value back.
pub proof fn lemma_get_after_intern(es: InternEntries, next: u32, v: Seq<u8>)
    requires
        spec_table_wf(es, next),
        next < u32::MAX,
    ensures
        ({
            let (es1, n1, id) = spec_intern_tbl(es, next, v);
            spec_lookup_id(es1, id) == Some(v)
        }),
{
    let (es1, n1, id) = spec_intern_tbl(es, next, v);
    if spec_has_value(es, v) {
        let i = choose|i: int| 0 <= i < es.len() && es[i].1 == v;
        assert(es[i].0 == id);
        assert(spec_has_id(es, id));
        let w = choose|w: int| 0 <= w < es.len() && es[w].0 == id;
        if w != i {
            assert(false);
        }
    } else {
        assert(es1[es.len() as int].0 == next);
        assert(spec_has_id(es1, id));
        let w = choose|w: int| 0 <= w < es1.len() && es1[w].0 == id;
        if w != es.len() as int {
            assert(es1[w] == es[w]);
            assert(es[w].0 < next);
            assert(false);
        }
        assert(es1[w].1 == v);
    }
}

} // verus!
