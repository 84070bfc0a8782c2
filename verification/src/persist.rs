//! The cache file: per-ingredient sections of opaque records, with the
//! database's revision, in the deterministic byte format of `codec`.

use vstd::prelude::*;
use crate::codec::{
    decode_blob_list, decode_string, decode_u32_le, decode_u64_le, decode_u8, push_blob_list,
    push_string, push_u32_le, push_u64_le, push_u8, spec_enc_blob_list, spec_enc_string,
    spec_enc_bytes, spec_parse_blob_list, spec_parse_bytes, spec_parse_string, spec_parse_u32,
    spec_parse_u64, spec_parse_u8, spec_u32_le, spec_u64_le, lemma_parse_u32_of_enc,
    lemma_parse_u64_of_enc, lemma_parse_u8_of_enc, lemma_parse_string_of_enc,
    lemma_parse_blob_list_of_enc, lemma_parse_blob_list_at_end, lemma_parse_u32_head,
    lemma_parse_u64_at_end, lemma_parse_bytes_head, lemma_parse_bytes_at_end, lemma_seq_assoc,
    decode_bytes, push_bytes,
    lemma_parse_bytes_of_enc,
};
use crate::error::PicanteError;
use crate::key::{Dep, Key, QueryKindId};

verus! {

/// The current cache format version.
pub const FORMAT_VERSION: u32 = 1;

/// What kind of ingredient a section holds.
#[derive(Copy, Clone, Eq, PartialEq, Debug, Structural)]
pub enum SectionType {
    /// Key-value input storage.
    Input,
    /// Memoized derived query cells.
    Derived,
    /// Interned id-value pairs.
    Interned,
}

/// The byte that stands for a section type on disk.
pub open spec fn spec_section_type_byte(t: SectionType) -> u8 {
    match t {
        SectionType::Input => 0,
        SectionType::Derived => 1,
        SectionType::Interned => 2,
    }
}

/// The section type a byte stands for, if any.
pub open spec fn spec_section_type_of_byte(b: u8) -> Option<SectionType> {
    if b == 0 {
        Some(SectionType::Input)
    } else if b == 1 {
        Some(SectionType::Derived)
    } else if b == 2 {
        Some(SectionType::Interned)
    } else {
        None
    }
}

/// A per-ingredient cache section.
#[derive(Debug)]
pub struct Section {
    /// Stable ingredient kind id.
    pub kind_id: u32,
    /// Human-readable name, used for mismatch detection.
    pub kind_name: String,
    /// Whether this section holds inputs, derived cells, or interned values.
    pub section_type: SectionType,
    /// Ingredient-defined records, each an opaque self-describing blob.
    pub records: Vec<Vec<u8>>,
}

/// The mathematical content of a section.
pub type SectionView = (u32, Seq<char>, SectionType, Seq<Seq<u8>>);

impl View for Section {
    type V = SectionView;

    open spec fn view(&self) -> SectionView {
        (self.kind_id, self.kind_name@, self.section_type, self.records.deep_view())
    }
}

impl DeepView for Section {
    type V = SectionView;

    open spec fn deep_view(&self) -> SectionView {
        self.view()
    }
}

/// The top-level cache file payload.
#[derive(Debug)]
pub struct CacheFile {
    /// Cache format version.
    pub format_version: u32,
    /// The database's current revision at the time of the snapshot.
    pub current_revision: u64,
    /// Per-ingredient sections.
    pub sections: Vec<Section>,
}

/// The mathematical content of a cache file.
pub type CacheFileView = (u32, u64, Seq<SectionView>);

impl View for CacheFile {
    type V = CacheFileView;

    open spec fn view(&self) -> CacheFileView {
        (self.format_version, self.current_revision, self.sections.deep_view())
    }
}

/// A section's byte encoding: kind id, name, type byte, record blobs.
#[verifier::opaque]
pub open spec fn spec_enc_section(s: SectionView) -> Seq<u8> {
    spec_u32_le(s.0) + spec_enc_string(s.1) + seq![spec_section_type_byte(s.2)]
        + spec_enc_blob_list(s.3)
}

/// Parse a section at `pos`.
pub open spec fn spec_parse_section(input: Seq<u8>, pos: int) -> Option<(SectionView, int)> {
    match spec_parse_u32(input, pos) {
        None => None,
        Some((kind_id, p1)) => match spec_parse_string(input, p1) {
            None => None,
            Some((name, p2)) => match spec_parse_u8(input, p2) {
                None => None,
                Some((tb, p3)) => match spec_section_type_of_byte(tb) {
                    None => None,
                    Some(st) => match spec_parse_blob_list(input, p3) {
                        None => None,
                        Some((records, p4)) => Some(((kind_id, name, st, records), p4)),
                    },
                },
            },
        },
    }
}

/// Every length inside a section is expressible in the format.
pub open spec fn spec_section_sized(s: SectionView) -> bool {
    &&& vstd::utf8::encode_utf8(s.1).len() <= u64::MAX
    &&& s.3.len() <= u64::MAX
    &&& forall|i: int| 0 <= i < s.3.len() ==> #[trigger] s.3[i].len() <= u64::MAX
}

/// Parsing a section out of its own encoding yields the section and steps
/// over exactly the encoding.
#[verifier::rlimit(60)]
pub proof fn lemma_parse_section_of_enc(pre: Seq<u8>, s: SectionView, post: Seq<u8>)
    requires
        spec_section_sized(s),
    ensures
        spec_parse_section(pre + spec_enc_section(s) + post, pre.len() as int) == Some(
            (s, pre.len() + spec_enc_section(s).len() as int),
        ),
{
    reveal(spec_enc_section);
    let buf = pre + spec_enc_section(s) + post;
    let e_name = spec_enc_string(s.1);
    let e_type = seq![spec_section_type_byte(s.2)];
    let e_recs = spec_enc_blob_list(s.3);

    assert(buf =~= pre + spec_u32_le(s.0) + (e_name + e_type + e_recs + post));
    lemma_parse_u32_of_enc(pre, s.0, e_name + e_type + e_recs + post);

    let pre1 = pre + spec_u32_le(s.0);
    assert(buf =~= pre1 + e_name + (e_type + e_recs + post));
    lemma_parse_string_of_enc(pre1, s.1, e_type + e_recs + post);

    let pre2 = pre1 + e_name;
    assert(buf =~= pre2 + e_type + (e_recs + post));
    lemma_parse_u8_of_enc(pre2, spec_section_type_byte(s.2), e_recs + post);

    let pre3 = pre2 + e_type;
    assert(buf =~= pre3 + e_recs + post);
    lemma_parse_blob_list_of_enc(pre3, s.3, post);
}

/// Encode one section.
pub fn encode_section(s: &Section) -> (r: Vec<u8>)
    ensures
        r@ == spec_enc_section(s@),
{
    let mut out: Vec<u8> = Vec::new();
    push_u32_le(&mut out, s.kind_id);
    push_string(&mut out, s.kind_name.as_str());
    let tb: u8 = match s.section_type {
        SectionType::Input => 0,
        SectionType::Derived => 1,
        SectionType::Interned => 2,
    };
    push_u8(&mut out, tb);
    push_blob_list(&mut out, &s.records);
    proof {
        reveal(spec_enc_section);
        assert(out@ =~= spec_enc_section(s@));
    }
    out
}

/// Decode one section blob; it must be consumed exactly.
pub fn decode_section_blob(blob: &Vec<u8>) -> (r: Option<Section>)
    ensures
        match r {
            Some(s) => spec_parse_section(blob@, 0) == Some((s@, blob@.len() as int)),
            None => !(spec_parse_section(blob@, 0) matches Some((_, end)) && end
                == blob@.len()),
        },
{
    let (kind_id, p1) = match decode_u32_le(blob, 0) {
        Some(x) => x,
        None => { return None },
    };
    let (kind_name, p2) = match decode_string(blob, p1) {
        Some(x) => x,
        None => { return None },
    };
    let (tb, p3) = match decode_u8(blob, p2) {
        Some(x) => x,
        None => { return None },
    };
    let section_type = if tb == 0 {
        SectionType::Input
    } else if tb == 1 {
        SectionType::Derived
    } else if tb == 2 {
        SectionType::Interned
    } else {
        return None;
    };
    let (records, p4) = match decode_blob_list(blob, p3) {
        Some(x) => x,
        None => { return None },
    };
    if p4 != blob.len() {
        return None;
    }
    Some(Section { kind_id, kind_name, section_type, records })
}

/// Each section of a list as its own encoded blob.
pub open spec fn spec_section_blobs(sections: Seq<SectionView>) -> Seq<Seq<u8>> {
    Seq::new(sections.len(), |i: int| spec_enc_section(sections[i]))
}

/// A cache file's byte encoding: version, revision, then every section as
/// one blob in a counted list. The whole buffer is consumed.
pub open spec fn spec_enc_cache_file(c: CacheFileView) -> Seq<u8> {
    spec_u32_le(c.0) + spec_u64_le(c.1) + spec_enc_blob_list(spec_section_blobs(c.2))
}

/// Parse every blob as a fully-consumed section.
#[verifier::opaque]
pub open spec fn spec_sections_of_blobs(blobs: Seq<Seq<u8>>) -> Option<Seq<SectionView>>
    decreases blobs.len(),
{
    if blobs.len() == 0 {
        Some(Seq::empty())
    } else {
        match spec_parse_section(blobs.first(), 0) {
            None => None,
            Some((s, end)) => if end == blobs.first().len() {
                match spec_sections_of_blobs(blobs.drop_first()) {
                    None => None,
                    Some(rest) => Some(seq![s] + rest),
                }
            } else {
                None
            },
        }
    }
}

/// Parse a whole cache file; the buffer must be consumed exactly.
pub open spec fn spec_parse_cache_file(input: Seq<u8>) -> Option<CacheFileView> {
    match spec_parse_u32(input, 0) {
        None => None,
        Some((ver, p1)) => match spec_parse_u64(input, p1) {
            None => None,
            Some((rev, p2)) => match spec_parse_blob_list(input, p2) {
                None => None,
                Some((blobs, p3)) => if p3 == input.len() {
                    match spec_sections_of_blobs(blobs) {
                        None => None,
                        Some(sections) => Some((ver, rev, sections)),
                    }
                } else {
                    None
                },
            },
        },
    }
}

/// Every length inside a cache file is expressible in the format.
pub open spec fn spec_cache_file_sized(c: CacheFileView) -> bool {
    &&& c.2.len() <= u64::MAX
    &&& forall|i: int| 0 <= i < c.2.len() ==> spec_section_sized(#[trigger] c.2[i])
    &&& forall|i: int|
        0 <= i < c.2.len() ==> spec_enc_section(#[trigger] c.2[i]).len() <= u64::MAX
}

/// Encode a whole cache file.
pub fn encode_cache_file(c: &CacheFile) -> (r: Vec<u8>)
    ensures
        r@ == spec_enc_cache_file(c@),
{
    let n = c.sections.len();
    let mut blobs: Vec<Vec<u8>> = Vec::new();
    let mut i: usize = 0;
    while i < n
        invariant
            n == c.sections@.len(),
            i <= n,
            blobs.deep_view().len() == i,
            forall|j: int|
                0 <= j < i ==> blobs.deep_view()[j] == spec_enc_section(
                    #[trigger] c.sections.deep_view()[j],
                ),
        decreases n - i,
    {
        let blob = encode_section(&c.sections[i]);
        let ghost pre_dv = blobs.deep_view();
        let ghost blob_view = blob@;
        blobs.push(blob);
        i = i + 1;
        proof {
            let dv = c.sections.deep_view();
            assert(blobs@.last().deep_view() =~= blob_view);
            assert(blobs.deep_view() =~= pre_dv.push(blob_view));
            assert(blob_view == spec_enc_section(dv[i - 1]));
        }
    }
    proof {
        assert(blobs.deep_view() =~= spec_section_blobs(c.sections.deep_view()));
    }
    let mut out: Vec<u8> = Vec::new();
    push_u32_le(&mut out, c.format_version);
    push_u64_le(&mut out, c.current_revision);
    push_blob_list(&mut out, &blobs);
    proof {
        assert(out@ =~= spec_enc_cache_file(c@));
    }
    out
}

/// Decode a whole cache file; trailing bytes or any malformed section are
/// rejected.
pub fn decode_cache_file(input: &Vec<u8>) -> (r: Option<CacheFile>)
    ensures
        match r {
            Some(c) => spec_parse_cache_file(input@) == Some(c@),
            None => spec_parse_cache_file(input@) is None,
        },
{
    let (format_version, p1) = match decode_u32_le(input, 0) {
        Some(x) => x,
        None => { return None },
    };
    let (current_revision, p2) = match decode_u64_le(input, p1) {
        Some(x) => x,
        None => { return None },
    };
    let (blobs, p3) = match decode_blob_list(input, p2) {
        Some(x) => x,
        None => { return None },
    };
    if p3 != input.len() {
        return None;
    }
    let n = blobs.len();
    let mut sections: Vec<Section> = Vec::new();
    proof {
        reveal(spec_sections_of_blobs);
        assert(blobs.deep_view().skip(0) =~= blobs.deep_view());
        assert(sections.deep_view() =~= Seq::<SectionView>::empty());
        match spec_sections_of_blobs(blobs.deep_view()) {
            None => {},
            Some(tail) => {
                assert(Seq::<SectionView>::empty() + tail =~= tail);
            },
        }
    }
    let mut i: usize = 0;
    while i < n
        invariant
            n == blobs@.len(),
            i <= n,
            spec_parse_u32(input@, 0) == Some((format_version, p1 as int)),
            spec_parse_u64(input@, p1 as int) == Some((current_revision, p2 as int)),
            spec_parse_blob_list(input@, p2 as int) == Some((blobs.deep_view(), p3 as int)),
            p3 == input@.len(),
            spec_sections_of_blobs(blobs.deep_view()) == (match spec_sections_of_blobs(
                blobs.deep_view().skip(i as int),
            ) {
                None => None::<Seq<SectionView>>,
                Some(tail) => Some(sections.deep_view() + tail),
            }),
        decreases n - i,
    {
        let ghost bdv = blobs.deep_view();
        proof {
            reveal(spec_sections_of_blobs);
            assert(bdv.skip(i as int).first() == bdv[i as int]);
            assert(bdv[i as int] == blobs@[i as int]@);
        }
        let s = match decode_section_blob(&blobs[i]) {
            Some(s) => s,
            None => {
                proof {
                    reveal(spec_sections_of_blobs);
                    assert(spec_sections_of_blobs(bdv.skip(i as int)) is None);
                    assert(spec_sections_of_blobs(bdv) is None);
                    assert(spec_parse_cache_file(input@) is None);
                }
                return None;
            },
        };
        let ghost pre_dv = sections.deep_view();
        let ghost tail_opt = spec_sections_of_blobs(bdv.skip(i + 1 as int));
        sections.push(s);
        i = i + 1;
        proof {
            reveal(spec_sections_of_blobs);
            assert(bdv.skip(i - 1 as int).drop_first() =~= bdv.skip(i as int));
            assert(sections.deep_view() =~= pre_dv.push(s@));
            match tail_opt {
                None => {},
                Some(tail) => {
                    assert(pre_dv + (seq![s@] + tail) =~= pre_dv.push(s@) + tail);
                },
            }
        }
    }
    proof {
        reveal(spec_sections_of_blobs);
        assert(blobs.deep_view().skip(n as int) =~= Seq::<Seq<u8>>::empty());
        assert(sections.deep_view() + Seq::<SectionView>::empty() =~= sections.deep_view());
    }
    Some(CacheFile { format_version, current_revision, sections })
}

/// Encoding each section of a list and parsing the blobs back yields the
/// same sections.
#[verifier::spinoff_prover]
#[verifier::rlimit(100)]
pub proof fn lemma_sections_of_blobs_of_enc(sections: Seq<SectionView>)
    requires
        forall|i: int| 0 <= i < sections.len() ==> spec_section_sized(#[trigger] sections[i]),
    ensures
        spec_sections_of_blobs(spec_section_blobs(sections)) == Some(sections),
    decreases sections.len(),
{
    reveal_with_fuel(spec_sections_of_blobs, 2);
    let blobs = spec_section_blobs(sections);
    if sections.len() == 0 {
        assert(blobs.len() == 0);
    } else {
        let first = sections.first();
        assert(blobs.first() == spec_enc_section(first));
        assert(spec_section_sized(sections[0]));
        lemma_parse_section_of_enc(Seq::empty(), first, Seq::empty());
        assert(Seq::<u8>::empty() + spec_enc_section(first) + Seq::<u8>::empty() =~= spec_enc_section(first));
        assert(spec_parse_section(blobs.first(), 0) == Some(
            (first, spec_enc_section(first).len() as int),
        ));
        assert(blobs.drop_first() =~= spec_section_blobs(sections.drop_first()));
        assert(forall|i: int|
            0 <= i < sections.drop_first().len() ==> spec_section_sized(
                #[trigger] sections.drop_first()[i],
            )) by {
            assert(forall|i: int|
                0 <= i < sections.drop_first().len() ==> sections.drop_first()[i] == sections[i
                    + 1] && spec_section_sized(sections[i + 1]));
        }
        lemma_sections_of_blobs_of_enc(sections.drop_first());
        assert(seq![first] + sections.drop_first() =~= sections);
    }
}

/// Every section blob of a sized cache file fits the format's length field.
proof fn lemma_cache_blobs_sized(c: CacheFileView)
    requires
        spec_cache_file_sized(c),
    ensures
        forall|i: int|
            0 <= i < spec_section_blobs(c.2).len() ==> #[trigger] spec_section_blobs(c.2)[i].len()
                <= u64::MAX,
{
    let blobs = spec_section_blobs(c.2);
    assert(forall|i: int| 0 <= i < blobs.len() ==> #[trigger] blobs[i].len() <= u64::MAX) by {
        assert(forall|i: int|
            0 <= i < blobs.len() ==> blobs[i] == spec_enc_section(#[trigger] c.2[i])
                && spec_enc_section(c.2[i]).len() <= u64::MAX);
    }
}

/// The version and revision at the head of an encoded cache file parse back.
#[verifier::spinoff_prover]
proof fn lemma_parse_cache_header(c: CacheFileView)
    ensures
        spec_parse_u32(spec_enc_cache_file(c), 0) == Some((c.0, 4 as int)),
        spec_parse_u64(spec_enc_cache_file(c), 4) == Some((c.1, 12 as int)),
{
    let e1 = spec_u32_le(c.0);
    let e2 = spec_u64_le(c.1);
    let e3 = spec_enc_blob_list(spec_section_blobs(c.2));
    let buf = spec_enc_cache_file(c);
    assert(buf == (e1 + e2) + e3);
    assert(Seq::<u8>::empty() + e1 + (e2 + e3) =~= buf);
    lemma_parse_u32_of_enc(Seq::empty(), c.0, e2 + e3);
    assert(spec_parse_u32(buf, 0) == Some((c.0, 4 as int)));
    assert(e1 + e2 + e3 =~= buf);
    lemma_parse_u64_of_enc(e1, c.1, e3);
    assert(spec_parse_u64(buf, 4) == Some((c.1, 12 as int)));
}

/// Parsing a cache file out of its own encoding yields it back: the byte
/// format loses nothing.
#[verifier::spinoff_prover]
#[verifier::rlimit(100)]
pub proof fn lemma_cache_file_round_trip(c: CacheFileView)
    requires
        spec_cache_file_sized(c),
    ensures
        spec_parse_cache_file(spec_enc_cache_file(c)) == Some(c),
{
    lemma_parse_cache_header(c);
    lemma_cache_blobs_sized(c);
    let e1 = spec_u32_le(c.0);
    let e2 = spec_u64_le(c.1);
    lemma_parse_blob_list_at_end(e1 + e2, spec_section_blobs(c.2));
    assert((e1 + e2).len() == 12);
    lemma_sections_of_blobs_of_enc(c.2);
    assert(c == (c.0, c.1, c.2));
    let buf = spec_enc_cache_file(c);
    assert(buf == (e1 + e2) + spec_enc_blob_list(spec_section_blobs(c.2)));
    assert(spec_parse_u32(buf, 0) == Some((c.0, 4 as int)));
    assert(spec_parse_u64(buf, 4) == Some((c.1, 12 as int)));
    assert(spec_parse_blob_list(buf, 12) == Some((spec_section_blobs(c.2), buf.len() as int)));
    assert(spec_sections_of_blobs(spec_section_blobs(c.2)) == Some(c.2));
}

/// An input record: key bytes, value bytes, and the revision of the last
/// change.
pub open spec fn spec_enc_input_record(key: Seq<u8>, value: Seq<u8>, changed_at: u64) -> Seq<u8> {
    spec_enc_bytes(key) + spec_enc_bytes(value) + spec_u64_le(changed_at)
}

/// Parse an input record; the blob must be consumed exactly.
pub open spec fn spec_parse_input_record(input: Seq<u8>) -> Option<(Seq<u8>, Seq<u8>, u64)> {
    match spec_parse_bytes(input, 0) {
        None => None,
        Some((k, p1)) => match spec_parse_bytes(input, p1) {
            None => None,
            Some((v, p2)) => match spec_parse_u64(input, p2) {
                None => None,
                Some((c, p3)) => if p3 == input.len() {
                    Some((k, v, c))
                } else {
                    None
                },
            },
        },
    }
}

/// An input record parses back from its own encoding.
#[verifier::spinoff_prover]
pub proof fn lemma_input_record_round_trip(key: Seq<u8>, value: Seq<u8>, changed_at: u64)
    requires
        key.len() <= u64::MAX,
        value.len() <= u64::MAX,
    ensures
        spec_parse_input_record(spec_enc_input_record(key, value, changed_at)) == Some(
            (key, value, changed_at),
        ),
{
    let ek = spec_enc_bytes(key);
    let ev = spec_enc_bytes(value);
    let ec = spec_u64_le(changed_at);
    let buf = spec_enc_input_record(key, value, changed_at);
    assert(buf == (ek + ev) + ec);
    lemma_seq_assoc(ek, ev, ec);
    lemma_parse_bytes_head(key, ev + ec);
    lemma_parse_bytes_of_enc(ek, value, ec);
    lemma_parse_u64_at_end(ek + ev, changed_at);
}

/// Encode one input record.
pub fn encode_input_record(key: &Key, value: &Vec<u8>, changed_at: u64) -> (r: Vec<u8>)
    ensures
        r@ == spec_enc_input_record(key@, value@, changed_at),
{
    let mut out: Vec<u8> = Vec::new();
    push_bytes(&mut out, key.bytes());
    push_bytes(&mut out, value.as_slice());
    push_u64_le(&mut out, changed_at);
    proof {
        assert(out@ =~= spec_enc_input_record(key@, value@, changed_at));
    }
    out
}

/// Decode one input record blob.
pub fn decode_input_record(blob: &Vec<u8>) -> (r: Option<(Key, Vec<u8>, u64)>)
    ensures
        match r {
            Some((k, v, c)) => spec_parse_input_record(blob@) == Some((k@, v@, c)),
            None => spec_parse_input_record(blob@) is None,
        },
{
    let (k, p1) = match decode_bytes(blob, 0) {
        Some(x) => x,
        None => { return None },
    };
    let (v, p2) = match decode_bytes(blob, p1) {
        Some(x) => x,
        None => { return None },
    };
    let (c, p3) = match decode_u64_le(blob, p2) {
        Some(x) => x,
        None => { return None },
    };
    if p3 != blob.len() {
        return None;
    }
    Some((Key::from_bytes(k), v, c))
}

/// An interned record: the dense id and the interned value's bytes.
pub open spec fn spec_enc_interned_record(id: u32, value: Seq<u8>) -> Seq<u8> {
    spec_u32_le(id) + spec_enc_bytes(value)
}

/// Parse an interned record; the blob must be consumed exactly.
pub open spec fn spec_parse_interned_record(input: Seq<u8>) -> Option<(u32, Seq<u8>)> {
    match spec_parse_u32(input, 0) {
        None => None,
        Some((id, p1)) => match spec_parse_bytes(input, p1) {
            None => None,
            Some((v, p2)) => if p2 == input.len() {
                Some((id, v))
            } else {
                None
            },
        },
    }
}

/// An interned record parses back from its own encoding.
#[verifier::spinoff_prover]
pub proof fn lemma_interned_record_round_trip(id: u32, value: Seq<u8>)
    requires
        value.len() <= u64::MAX,
    ensures
        spec_parse_interned_record(spec_enc_interned_record(id, value)) == Some((id, value)),
{
    let ei = spec_u32_le(id);
    let ev = spec_enc_bytes(value);
    let buf = spec_enc_interned_record(id, value);
    assert(buf == ei + ev);
    lemma_parse_u32_head(id, ev);
    lemma_parse_bytes_at_end(ei, value);
}

/// Encode one interned record.
pub fn encode_interned_record(id: u32, value: &Key) -> (r: Vec<u8>)
    ensures
        r@ == spec_enc_interned_record(id, value@),
{
    let mut out: Vec<u8> = Vec::new();
    push_u32_le(&mut out, id);
    push_bytes(&mut out, value.bytes());
    proof {
        assert(out@ =~= spec_enc_interned_record(id, value@));
    }
    out
}

/// Decode one interned record blob.
pub fn decode_interned_record(blob: &Vec<u8>) -> (r: Option<(u32, Key)>)
    ensures
        match r {
            Some((id, v)) => spec_parse_interned_record(blob@) == Some((id, v@)),
            None => spec_parse_interned_record(blob@) is None,
        },
{
    let (id, p1) = match decode_u32_le(blob, 0) {
        Some(x) => x,
        None => { return None },
    };
    let (v, p2) = match decode_bytes(blob, p1) {
        Some(x) => x,
        None => { return None },
    };
    if p2 != blob.len() {
        return None;
    }
    Some((id, Key::from_bytes(v)))
}

/// A dependency edge as a blob: the kind id, then the raw key bytes to the
/// end of the blob.
pub open spec fn spec_enc_dep(d: (u32, Seq<u8>)) -> Seq<u8> {
    spec_u32_le(d.0) + d.1
}

/// Parse a dependency edge from a whole blob.
pub open spec fn spec_parse_dep(input: Seq<u8>) -> Option<(u32, Seq<u8>)> {
    match spec_parse_u32(input, 0) {
        None => None,
        Some((kind, p1)) => Some((kind, input.subrange(p1, input.len() as int))),
    }
}

/// A dependency edge parses back from its own encoding.
pub proof fn lemma_dep_round_trip(d: (u32, Seq<u8>))
    ensures
        spec_parse_dep(spec_enc_dep(d)) == Some(d),
{
    let buf = spec_enc_dep(d);
    assert(Seq::<u8>::empty() + spec_u32_le(d.0) + d.1 =~= buf);
    lemma_parse_u32_of_enc(Seq::empty(), d.0, d.1);
    assert(buf.subrange(4, buf.len() as int) =~= d.1);
    assert(d == (d.0, d.1));
}

/// Encode one dependency edge.
pub fn encode_dep(dep: &Dep) -> (r: Vec<u8>)
    ensures
        r@ == spec_enc_dep(dep@),
{
    let mut out: Vec<u8> = Vec::new();
    push_u32_le(&mut out, dep.kind.as_u32());
    let kb = dep.key.bytes();
    let n = kb.len();
    let mut i: usize = 0;
    while i < n
        invariant
            n == kb@.len(),
            i <= n,
            out@ == spec_u32_le(dep@.0) + kb@.take(i as int),
        decreases n - i,
    {
        out.push(kb[i]);
        i = i + 1;
        proof {
            assert(out@ =~= spec_u32_le(dep@.0) + kb@.take(i as int));
        }
    }
    proof {
        assert(kb@.take(n as int) =~= kb@);
        assert(out@ =~= spec_enc_dep(dep@));
    }
    out
}

/// Decode one dependency edge blob.
pub fn decode_dep(blob: &Vec<u8>) -> (r: Option<Dep>)
    ensures
        match r {
            Some(d) => spec_parse_dep(blob@) == Some(d@),
            None => spec_parse_dep(blob@) is None,
        },
{
    let (kind, p1) = match decode_u32_le(blob, 0) {
        Some(x) => x,
        None => { return None },
    };
    proof {
        reveal(spec_parse_u32);
    }
    let n = blob.len();
    let mut kb: Vec<u8> = Vec::new();
    let mut i: usize = p1;
    while i < n
        invariant
            p1 <= i <= n,
            n == blob@.len(),
            kb@ =~= blob@.subrange(p1 as int, i as int),
        decreases n - i,
    {
        kb.push(blob[i]);
        i = i + 1;
    }
    proof {
        assert(kb@ =~= blob@.subrange(p1 as int, n as int));
    }
    Some(Dep { kind: QueryKindId(kind), key: Key::from_bytes(kb) })
}

/// Each dependency of a list as its own encoded blob.
pub open spec fn spec_dep_blobs(deps: Seq<(u32, Seq<u8>)>) -> Seq<Seq<u8>> {
    Seq::new(deps.len(), |i: int| spec_enc_dep(deps[i]))
}

/// Parse every blob as a fully-consumed dependency edge.
#[verifier::opaque]
pub open spec fn spec_deps_of_blobs(blobs: Seq<Seq<u8>>) -> Option<Seq<(u32, Seq<u8>)>>
    decreases blobs.len(),
{
    if blobs.len() == 0 {
        Some(Seq::empty())
    } else {
        match spec_parse_dep(blobs.first()) {
            None => None,
            Some(d) => match spec_deps_of_blobs(blobs.drop_first()) {
                None => None,
                Some(rest) => Some(seq![d] + rest),
            },
        }
    }
}

/// Encoding each dependency of a list and parsing the blobs back yields
/// the same dependencies.
pub proof fn lemma_deps_of_blobs_of_enc(deps: Seq<(u32, Seq<u8>)>)
    ensures
        spec_deps_of_blobs(spec_dep_blobs(deps)) == Some(deps),
    decreases deps.len(),
{
    reveal(spec_deps_of_blobs);
    let blobs = spec_dep_blobs(deps);
    if deps.len() == 0 {
        assert(blobs.len() == 0);
    } else {
        let first = deps.first();
        assert(blobs.first() == spec_enc_dep(first));
        lemma_dep_round_trip(first);
        assert(blobs.drop_first() =~= spec_dep_blobs(deps.drop_first()));
        lemma_deps_of_blobs_of_enc(deps.drop_first());
        assert(seq![first] + deps.drop_first() =~= deps);
    }
}

/// A derived record: key, value, the revision it was verified at, and the
/// recorded dependency edges.
pub open spec fn spec_enc_derived_record(
    key: Seq<u8>,
    value: Seq<u8>,
    verified_at: u64,
    deps: Seq<(u32, Seq<u8>)>,
) -> Seq<u8> {
    spec_enc_bytes(key) + spec_enc_bytes(value) + spec_u64_le(verified_at) + spec_enc_blob_list(
        spec_dep_blobs(deps),
    )
}

/// Parse a derived record; the blob must be consumed exactly.
pub open spec fn spec_parse_derived_record(input: Seq<u8>) -> Option<
    (Seq<u8>, Seq<u8>, u64, Seq<(u32, Seq<u8>)>),
> {
    match spec_parse_bytes(input, 0) {
        None => None,
        Some((k, p1)) => match spec_parse_bytes(input, p1) {
            None => None,
            Some((v, p2)) => match spec_parse_u64(input, p2) {
                None => None,
                Some((at, p3)) => match spec_parse_blob_list(input, p3) {
                    None => None,
                    Some((blobs, p4)) => if p4 == input.len() {
                        match spec_deps_of_blobs(blobs) {
                            None => None,
                            Some(deps) => Some((k, v, at, deps)),
                        }
                    } else {
                        None
                    },
                },
            },
        },
    }
}

/// Every length inside a derived record is expressible in the format.
pub open spec fn spec_derived_record_sized(
    key: Seq<u8>,
    value: Seq<u8>,
    deps: Seq<(u32, Seq<u8>)>,
) -> bool {
    &&& key.len() <= u64::MAX
    &&& value.len() <= u64::MAX
    &&& deps.len() <= u64::MAX
    &&& forall|i: int| 0 <= i < deps.len() ==> #[trigger] deps[i].1.len() + 4 <= u64::MAX
}

/// Every dependency blob of a sized derived record fits the format.
proof fn lemma_dep_blobs_sized(deps: Seq<(u32, Seq<u8>)>)
    requires
        forall|i: int| 0 <= i < deps.len() ==> #[trigger] deps[i].1.len() + 4 <= u64::MAX,
    ensures
        forall|i: int|
            0 <= i < spec_dep_blobs(deps).len() ==> #[trigger] spec_dep_blobs(deps)[i].len()
                <= u64::MAX,
{
    let blobs = spec_dep_blobs(deps);
    assert(forall|i: int| 0 <= i < blobs.len() ==> #[trigger] blobs[i].len() <= u64::MAX) by {
        assert(forall|i: int|
            0 <= i < blobs.len() ==> blobs[i] == spec_enc_dep(#[trigger] deps[i]) && deps[i].1.len()
                + 4 <= u64::MAX);
    }
}

/// A derived record parses back from its own encoding.
#[verifier::spinoff_prover]
#[verifier::rlimit(100)]
pub proof fn lemma_derived_record_round_trip(
    key: Seq<u8>,
    value: Seq<u8>,
    verified_at: u64,
    deps: Seq<(u32, Seq<u8>)>,
)
    requires
        spec_derived_record_sized(key, value, deps),
    ensures
        spec_parse_derived_record(spec_enc_derived_record(key, value, verified_at, deps)) == Some(
            (key, value, verified_at, deps),
        ),
{
    let blobs = spec_dep_blobs(deps);
    let ek = spec_enc_bytes(key);
    let ev = spec_enc_bytes(value);
    let ea = spec_u64_le(verified_at);
    let ed = spec_enc_blob_list(blobs);
    let buf = spec_enc_derived_record(key, value, verified_at, deps);
    assert(buf == ((ek + ev) + ea) + ed);
    lemma_seq_assoc(ek + ev, ea, ed);
    lemma_seq_assoc(ek, ev, ea + ed);
    lemma_parse_bytes_head(key, ev + (ea + ed));
    lemma_parse_bytes_of_enc(ek, value, ea + ed);
    lemma_parse_u64_of_enc(ek + ev, verified_at, ed);
    lemma_dep_blobs_sized(deps);
    lemma_parse_blob_list_at_end((ek + ev) + ea, blobs);
    lemma_deps_of_blobs_of_enc(deps);
}

/// Encode one derived record.
pub fn encode_derived_record(
    key: &Key,
    value: &Vec<u8>,
    verified_at: u64,
    deps: &Vec<Dep>,
) -> (r: Vec<u8>)
    ensures
        r@ == spec_enc_derived_record(key@, value@, verified_at, deps.deep_view()),
{
    let n = deps.len();
    let mut blobs: Vec<Vec<u8>> = Vec::new();
    let mut i: usize = 0;
    while i < n
        invariant
            n == deps@.len(),
            i <= n,
            blobs.deep_view().len() == i,
            forall|j: int|
                0 <= j < i ==> blobs.deep_view()[j] == spec_enc_dep(
                    #[trigger] deps.deep_view()[j],
                ),
        decreases n - i,
    {
        let blob = encode_dep(&deps[i]);
        let ghost pre_dv = blobs.deep_view();
        let ghost blob_view = blob@;
        blobs.push(blob);
        i = i + 1;
        proof {
            assert(blobs@.last().deep_view() =~= blob_view);
            assert(blobs.deep_view() =~= pre_dv.push(blob_view));
            assert(blob_view == spec_enc_dep(deps.deep_view()[i - 1]));
        }
    }
    proof {
        assert(blobs.deep_view() =~= spec_dep_blobs(deps.deep_view()));
    }
    let mut out: Vec<u8> = Vec::new();
    push_bytes(&mut out, key.bytes());
    push_bytes(&mut out, value.as_slice());
    push_u64_le(&mut out, verified_at);
    push_blob_list(&mut out, &blobs);
    proof {
        assert(out@ =~= spec_enc_derived_record(key@, value@, verified_at, deps.deep_view()));
    }
    out
}

/// Decode one derived record blob.
pub fn decode_derived_record(blob: &Vec<u8>) -> (r: Option<(Key, Vec<u8>, u64, Vec<Dep>)>)
    ensures
        match r {
            Some((k, v, at, deps)) => spec_parse_derived_record(blob@) == Some(
                (k@, v@, at, deps.deep_view()),
            ),
            None => spec_parse_derived_record(blob@) is None,
        },
{
    let (k, p1) = match decode_bytes(blob, 0) {
        Some(x) => x,
        None => { return None },
    };
    let (v, p2) = match decode_bytes(blob, p1) {
        Some(x) => x,
        None => { return None },
    };
    let (at, p3) = match decode_u64_le(blob, p2) {
        Some(x) => x,
        None => { return None },
    };
    let (dblobs, p4) = match decode_blob_list(blob, p3) {
        Some(x) => x,
        None => { return None },
    };
    if p4 != blob.len() {
        return None;
    }
    let n = dblobs.len();
    let mut deps: Vec<Dep> = Vec::new();
    proof {
        reveal(spec_deps_of_blobs);
        assert(dblobs.deep_view().skip(0) =~= dblobs.deep_view());
        assert(deps.deep_view() =~= Seq::<(u32, Seq<u8>)>::empty());
        match spec_deps_of_blobs(dblobs.deep_view()) {
            None => {},
            Some(tail) => {
                assert(Seq::<(u32, Seq<u8>)>::empty() + tail =~= tail);
            },
        }
    }
    let mut i: usize = 0;
    while i < n
        invariant
            n == dblobs@.len(),
            i <= n,
            spec_parse_bytes(blob@, 0) == Some((k@, p1 as int)),
            spec_parse_bytes(blob@, p1 as int) == Some((v@, p2 as int)),
            spec_parse_u64(blob@, p2 as int) == Some((at, p3 as int)),
            spec_parse_blob_list(blob@, p3 as int) == Some((dblobs.deep_view(), p4 as int)),
            p4 == blob@.len(),
            spec_deps_of_blobs(dblobs.deep_view()) == (match spec_deps_of_blobs(
                dblobs.deep_view().skip(i as int),
            ) {
                None => None::<Seq<(u32, Seq<u8>)>>,
                Some(tail) => Some(deps.deep_view() + tail),
            }),
        decreases n - i,
    {
        let ghost bdv = dblobs.deep_view();
        proof {
            assert(bdv.skip(i as int).first() == bdv[i as int]);
            assert(bdv[i as int] == dblobs@[i as int]@);
        }
        let d = match decode_dep(&dblobs[i]) {
            Some(d) => d,
            None => {
                proof {
                    reveal(spec_deps_of_blobs);
                    assert(spec_deps_of_blobs(bdv.skip(i as int)) is None);
                    assert(spec_deps_of_blobs(bdv) is None);
                    assert(spec_parse_derived_record(blob@) is None);
                }
                return None;
            },
        };
        let ghost pre_dv = deps.deep_view();
        let ghost tail_opt = spec_deps_of_blobs(bdv.skip(i + 1 as int));
        deps.push(d);
        i = i + 1;
        proof {
            reveal(spec_deps_of_blobs);
            assert(bdv.skip(i - 1 as int).drop_first() =~= bdv.skip(i as int));
            assert(deps.deep_view() =~= pre_dv.push(d@));
            match tail_opt {
                None => {},
                Some(tail) => {
                    assert(pre_dv + (seq![d@] + tail) =~= pre_dv.push(d@) + tail);
                },
            }
        }
    }
    proof {
        reveal(spec_deps_of_blobs);
        assert(dblobs.deep_view().skip(n as int) =~= Seq::<Seq<u8>>::empty());
        assert(deps.deep_view() + Seq::<(u32, Seq<u8>)>::empty() =~= deps.deep_view());
    }
    Some((Key::from_bytes(k), v, at, deps))
}

/// What an ingredient presents for persistence matching.
#[derive(Debug)]
pub struct IngredientDesc {
    /// Stable kind id; must be unique within a database.
    pub kind_id: u32,
    /// Debug name, used for mismatch detection.
    pub kind_name: String,
    /// Whether the ingredient stores inputs, derived cells, or interned
    /// values.
    pub section_type: SectionType,
}

/// The plain data carried by a vector of descriptors.
pub open spec fn spec_descs_of(v: Seq<IngredientDesc>) -> Seq<(u32, Seq<char>, SectionType)> {
    Seq::new(v.len(), |i: int| (v[i].kind_id, v[i].kind_name@, v[i].section_type))
}

/// Kind ids are pairwise distinct.
pub open spec fn spec_kinds_unique(ds: Seq<(u32, Seq<char>, SectionType)>) -> bool {
    forall|i: int, j: int| 0 <= i < j < ds.len() ==> ds[i].0 != ds[j].0
}

/// Some descriptor carries this kind id.
pub open spec fn spec_has_kind(ds: Seq<(u32, Seq<char>, SectionType)>, kind: u32) -> bool {
    exists|i: int| 0 <= i < ds.len() && ds[i].0 == kind
}

/// The index of the descriptor carrying this kind id.
pub open spec fn spec_kind_index(ds: Seq<(u32, Seq<char>, SectionType)>, kind: u32) -> int {
    choose|i: int| 0 <= i < ds.len() && ds[i].0 == kind
}

/// A section agrees with a descriptor on name and type.
pub open spec fn spec_section_matches(sec: SectionView, d: (u32, Seq<char>, SectionType)) -> bool {
    sec.1 == d.1 && sec.2 == d.2
}

/// A cache file can be loaded into a set of descriptors: the version is
/// current, and every section whose kind is known agrees with its
/// descriptor on name and type. Unknown kinds are skipped.
pub open spec fn spec_load_ok(c: CacheFileView, ds: Seq<(u32, Seq<char>, SectionType)>) -> bool {
    &&& c.0 == FORMAT_VERSION
    &&& forall|i: int|
        0 <= i < c.2.len() ==> (spec_has_kind(ds, (#[trigger] c.2[i]).0)
            ==> spec_section_matches(c.2[i], ds[spec_kind_index(ds, c.2[i].0)]))
}

/// Fail with `Cache` when two provided ingredients share a kind id.
pub fn ensure_unique_kinds(ingredients: &Vec<IngredientDesc>) -> (r: Result<(), PicanteError>)
    ensures
        r is Ok <==> spec_kinds_unique(spec_descs_of(ingredients@)),
        r matches Err(e) ==> e matches PicanteError::Cache { .. },
{
    let ghost ds = spec_descs_of(ingredients@);
    let n = ingredients.len();
    let mut i: usize = 0;
    while i < n
        invariant
            n == ingredients@.len(),
            i <= n,
            ds == spec_descs_of(ingredients@),
            forall|a: int, b: int| 0 <= a < b < ds.len() && a < i ==> ds[a].0 != ds[b].0,
        decreases n - i,
    {
        let mut j: usize = i + 1;
        while j < n
            invariant
                n == ingredients@.len(),
                i < j <= n || (i + 1 == j && j > n),
                i < n,
                ds == spec_descs_of(ingredients@),
                forall|b: int| i < b < j ==> ds[i as int].0 != ds[b].0,
            decreases n - j,
        {
            if ingredients[i].kind_id == ingredients[j].kind_id {
                proof {
                    assert(ds[i as int].0 == ds[j as int].0);
                }
                return Err(
                    PicanteError::Cache {
                        message: String::from_str("duplicate ingredient kind id"),
                    },
                );
            }
            j = j + 1;
        }
        i = i + 1;
    }
    proof {
        assert(spec_kinds_unique(ds));
    }
    Ok(())
}

/// Decide what loading a decoded cache file does: for each section, the
/// index of the ingredient it loads into, or nothing for an unknown kind.
/// A version, name, or type disagreement fails with `Cache` and loads
/// nothing.
pub fn plan_load(cache: &CacheFile, ingredients: &Vec<IngredientDesc>) -> (r: Result<
    Vec<Option<usize>>,
    PicanteError,
>)
    requires
        spec_kinds_unique(spec_descs_of(ingredients@)),
    ensures
        ({
            let c = cache@;
            let ds = spec_descs_of(ingredients@);
            match r {
                Ok(plan) => {
                    &&& spec_load_ok(c, ds)
                    &&& plan@.len() == c.2.len()
                    &&& forall|i: int|
                        0 <= i < c.2.len() ==> (if spec_has_kind(ds, (#[trigger] c.2[i]).0) {
                            plan@[i] matches Some(j) && j == spec_kind_index(ds, c.2[i].0)
                        } else {
                            plan@[i] is None
                        })
                },
                Err(e) => {
                    &&& !spec_load_ok(c, ds)
                    &&& e matches PicanteError::Cache { .. }
                },
            }
        }),
{
    let ghost c = cache@;
    let ghost ds = spec_descs_of(ingredients@);
    if cache.format_version != FORMAT_VERSION {
        return Err(
            PicanteError::Cache {
                message: String::from_str("unsupported cache format version"),
            },
        );
    }
    let ns = cache.sections.len();
    let ni = ingredients.len();
    let mut plan: Vec<Option<usize>> = Vec::new();
    let mut i: usize = 0;
    while i < ns
        invariant
            ns == cache.sections@.len(),
            ni == ingredients@.len(),
            i <= ns,
            c == cache@,
            ds == spec_descs_of(ingredients@),
            c.0 == FORMAT_VERSION,
            spec_kinds_unique(ds),
            plan@.len() == i,
            forall|a: int|
                0 <= a < i ==> (spec_has_kind(ds, (#[trigger] c.2[a]).0)
                    ==> spec_section_matches(c.2[a], ds[spec_kind_index(ds, c.2[a].0)])),
            forall|a: int|
                0 <= a < i ==> (if spec_has_kind(ds, (#[trigger] c.2[a]).0) {
                    plan@[a] matches Some(j) && j == spec_kind_index(ds, c.2[a].0)
                } else {
                    plan@[a] is None
                }),
        decreases ns - i,
    {
        let kind_id = cache.sections[i].kind_id;
        proof {
            assert(c.2[i as int].0 == kind_id);
        }
        let mut found: Option<usize> = None;
        let mut j: usize = 0;
        while j < ni
            invariant
                ni == ingredients@.len(),
                j <= ni,
                ds == spec_descs_of(ingredients@),
                spec_kinds_unique(ds),
                match found {
                    Some(f) => f < ni && ds[f as int].0 == kind_id,
                    None => forall|b: int| 0 <= b < j ==> ds[b].0 != kind_id,
                },
                j <= ni,
            decreases ni - j,
        {
            if found.is_none() && ingredients[j].kind_id == kind_id {
                proof {
                    assert(ds[j as int].0 == kind_id);
                }
                found = Some(j);
            }
            j = j + 1;
        }
        match found {
            None => {
                proof {
                    assert(!spec_has_kind(ds, kind_id));
                }
                plan.push(None);
            },
            Some(f) => {
                proof {
                    assert(spec_has_kind(ds, kind_id));
                    let w = spec_kind_index(ds, kind_id);
                    if w != f as int {
                        assert(ds[w].0 == kind_id && ds[f as int].0 == kind_id);
                        assert(false);
                    }
                }
                if !(cache.sections[i].kind_name == ingredients[f].kind_name) {
                    proof {
                        assert(c.2[i as int].1 != ds[f as int].1);
                        assert(!spec_section_matches(c.2[i as int], ds[spec_kind_index(ds, c.2[i as int].0)]));
                        assert(!spec_load_ok(c, ds));
                    }
                    return Err(
                        PicanteError::Cache {
                            message: String::from_str("kind name mismatch for a section"),
                        },
                    );
                }
                let st_match = match (cache.sections[i].section_type, ingredients[f].section_type) {
                    (SectionType::Input, SectionType::Input) => true,
                    (SectionType::Derived, SectionType::Derived) => true,
                    (SectionType::Interned, SectionType::Interned) => true,
                    _ => false,
                };
                if !st_match {
                    proof {
                        assert(c.2[i as int].2 != ds[f as int].2);
                        assert(!spec_section_matches(c.2[i as int], ds[spec_kind_index(ds, c.2[i as int].0)]));
                        assert(!spec_load_ok(c, ds));
                    }
                    return Err(
                        PicanteError::Cache {
                            message: String::from_str("section type mismatch for a section"),
                        },
                    );
                }
                plan.push(Some(f));
            },
        }
        i = i + 1;
    }
    Ok(plan)
}

} // verus!
