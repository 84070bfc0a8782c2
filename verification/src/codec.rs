//! The deterministic byte format of the cache file.
//!
//! Integers are little-endian and fixed width; byte strings and lists are
//! preceded by a 64-bit length. Every decoder is exact: it accepts
//! precisely the encodings its encoder produces, and the round trip is
//! proved for each layer.

use vstd::prelude::*;

verus! {

/// A `u32` as four little-endian bytes.
pub open spec fn spec_u32_le(v: u32) -> Seq<u8> {
    seq![
        (v & 0xff) as u8,
        ((v >> 8) & 0xff) as u8,
        ((v >> 16) & 0xff) as u8,
        ((v >> 24) & 0xff) as u8,
    ]
}

/// The `u32` read from four little-endian bytes.
pub open spec fn spec_u32_of_le(b0: u8, b1: u8, b2: u8, b3: u8) -> u32 {
    (b0 as u32) | ((b1 as u32) << 8) | ((b2 as u32) << 16) | ((b3 as u32) << 24)
}

/// A `u64` as eight little-endian bytes.
pub open spec fn spec_u64_le(v: u64) -> Seq<u8> {
    seq![
        (v & 0xff) as u8,
        ((v >> 8) & 0xff) as u8,
        ((v >> 16) & 0xff) as u8,
        ((v >> 24) & 0xff) as u8,
        ((v >> 32) & 0xff) as u8,
        ((v >> 40) & 0xff) as u8,
        ((v >> 48) & 0xff) as u8,
        ((v >> 56) & 0xff) as u8,
    ]
}

/// The `u64` read from eight little-endian bytes.
pub open spec fn spec_u64_of_le(
    b0: u8,
    b1: u8,
    b2: u8,
    b3: u8,
    b4: u8,
    b5: u8,
    b6: u8,
    b7: u8,
) -> u64 {
    (b0 as u64) | ((b1 as u64) << 8) | ((b2 as u64) << 16) | ((b3 as u64) << 24) | ((b4 as u64)
        << 32) | ((b5 as u64) << 40) | ((b6 as u64) << 48) | ((b7 as u64) << 56)
}

/// Reading back the four bytes of a `u32` gives the value again.
pub proof fn lemma_u32_le_round_trip(v: u32)
    ensures
        spec_u32_of_le(
            (v & 0xff) as u8,
            ((v >> 8) & 0xff) as u8,
            ((v >> 16) & 0xff) as u8,
            ((v >> 24) & 0xff) as u8,
        ) == v,
{
    assert((((v & 0xff) as u8) as u32) | (((((v >> 8) & 0xff) as u8) as u32) << 8) | (((((v >> 16)
        & 0xff) as u8) as u32) << 16) | (((((v >> 24) & 0xff) as u8) as u32) << 24) == v)
        by (bit_vector);
}

/// Reading back the eight bytes of a `u64` gives the value again.
pub proof fn lemma_u64_le_round_trip(v: u64)
    ensures
        spec_u64_of_le(
            (v & 0xff) as u8,
            ((v >> 8) & 0xff) as u8,
            ((v >> 16) & 0xff) as u8,
            ((v >> 24) & 0xff) as u8,
            ((v >> 32) & 0xff) as u8,
            ((v >> 40) & 0xff) as u8,
            ((v >> 48) & 0xff) as u8,
            ((v >> 56) & 0xff) as u8,
        ) == v,
{
    assert((((v & 0xff) as u8) as u64) | (((((v >> 8) & 0xff) as u8) as u64) << 8) | (((((v >> 16)
        & 0xff) as u8) as u64) << 16) | (((((v >> 24) & 0xff) as u8) as u64) << 24) | (((((v >> 32)
        & 0xff) as u8) as u64) << 32) | (((((v >> 40) & 0xff) as u8) as u64) << 40) | (((((v >> 48)
        & 0xff) as u8) as u64) << 48) | (((((v >> 56) & 0xff) as u8) as u64) << 56) == v)
        by (bit_vector);
}

/// Parse a `u32` at `pos`: exactly four bytes when they are there.
#[verifier::opaque]
pub open spec fn spec_parse_u32(input: Seq<u8>, pos: int) -> Option<(u32, int)> {
    if 0 <= pos && pos + 4 <= input.len() {
        Some(
            (spec_u32_of_le(input[pos], input[pos + 1], input[pos + 2], input[pos + 3]), pos + 4),
        )
    } else {
        None
    }
}

/// Parse a `u64` at `pos`: exactly eight bytes when they are there.
#[verifier::opaque]
pub open spec fn spec_parse_u64(input: Seq<u8>, pos: int) -> Option<(u64, int)> {
    if 0 <= pos && pos + 8 <= input.len() {
        Some(
            (
                spec_u64_of_le(
                    input[pos],
                    input[pos + 1],
                    input[pos + 2],
                    input[pos + 3],
                    input[pos + 4],
                    input[pos + 5],
                    input[pos + 6],
                    input[pos + 7],
                ),
                pos + 8,
            ),
        )
    } else {
        None
    }
}

/// Parsing a `u32` out of its own encoding, wherever it sits in a buffer,
/// yields the value and steps over exactly its four bytes.
pub proof fn lemma_parse_u32_of_enc(pre: Seq<u8>, v: u32, post: Seq<u8>)
    ensures
        spec_parse_u32(pre + spec_u32_le(v) + post, pre.len() as int) == Some(
            (v, pre.len() + 4 as int),
        ),
{
    reveal(spec_parse_u32);
    let buf = pre + spec_u32_le(v) + post;
    let p = pre.len() as int;
    assert(buf[p] == spec_u32_le(v)[0]);
    assert(buf[p + 1] == spec_u32_le(v)[1]);
    assert(buf[p + 2] == spec_u32_le(v)[2]);
    assert(buf[p + 3] == spec_u32_le(v)[3]);
    lemma_u32_le_round_trip(v);
}

/// Parsing a `u64` out of its own encoding, wherever it sits in a buffer,
/// yields the value and steps over exactly its eight bytes.
pub proof fn lemma_parse_u64_of_enc(pre: Seq<u8>, v: u64, post: Seq<u8>)
    ensures
        spec_parse_u64(pre + spec_u64_le(v) + post, pre.len() as int) == Some(
            (v, pre.len() + 8 as int),
        ),
{
    reveal(spec_parse_u64);
    let buf = pre + spec_u64_le(v) + post;
    let p = pre.len() as int;
    assert(buf[p] == spec_u64_le(v)[0]);
    assert(buf[p + 1] == spec_u64_le(v)[1]);
    assert(buf[p + 2] == spec_u64_le(v)[2]);
    assert(buf[p + 3] == spec_u64_le(v)[3]);
    assert(buf[p + 4] == spec_u64_le(v)[4]);
    assert(buf[p + 5] == spec_u64_le(v)[5]);
    assert(buf[p + 6] == spec_u64_le(v)[6]);
    assert(buf[p + 7] == spec_u64_le(v)[7]);
    lemma_u64_le_round_trip(v);
}

/// Append the four little-endian bytes of `v`.
pub fn push_u32_le(out: &mut Vec<u8>, v: u32)
    ensures
        final(out)@ == old(out)@ + spec_u32_le(v),
{
    out.push((v & 0xff) as u8);
    out.push(((v >> 8) & 0xff) as u8);
    out.push(((v >> 16) & 0xff) as u8);
    out.push(((v >> 24) & 0xff) as u8);
    proof {
        assert(out@ =~= old(out)@ + spec_u32_le(v));
    }
}

/// Append the eight little-endian bytes of `v`.
pub fn push_u64_le(out: &mut Vec<u8>, v: u64)
    ensures
        final(out)@ == old(out)@ + spec_u64_le(v),
{
    out.push((v & 0xff) as u8);
    out.push(((v >> 8) & 0xff) as u8);
    out.push(((v >> 16) & 0xff) as u8);
    out.push(((v >> 24) & 0xff) as u8);
    out.push(((v >> 32) & 0xff) as u8);
    out.push(((v >> 40) & 0xff) as u8);
    out.push(((v >> 48) & 0xff) as u8);
    out.push(((v >> 56) & 0xff) as u8);
    proof {
        assert(out@ =~= old(out)@ + spec_u64_le(v));
    }
}

/// Read a `u32` at `pos`.
pub fn decode_u32_le(input: &Vec<u8>, pos: usize) -> (r: Option<(u32, usize)>)
    ensures
        match r {
            Some((v, end)) => spec_parse_u32(input@, pos as int) == Some((v, end as int)),
            None => spec_parse_u32(input@, pos as int) is None,
        },
{
    proof {
        reveal(spec_parse_u32);
    }
    if pos > input.len() || input.len() - pos < 4 {
        return None;
    }
    let v = (input[pos] as u32) | ((input[pos + 1] as u32) << 8) | ((input[pos + 2] as u32) << 16)
        | ((input[pos + 3] as u32) << 24);
    Some((v, pos + 4))
}

/// Read a `u64` at `pos`.
pub fn decode_u64_le(input: &Vec<u8>, pos: usize) -> (r: Option<(u64, usize)>)
    ensures
        match r {
            Some((v, end)) => spec_parse_u64(input@, pos as int) == Some((v, end as int)),
            None => spec_parse_u64(input@, pos as int) is None,
        },
{
    proof {
        reveal(spec_parse_u64);
    }
    if pos > input.len() || input.len() - pos < 8 {
        return None;
    }
    let v = (input[pos] as u64) | ((input[pos + 1] as u64) << 8) | ((input[pos + 2] as u64) << 16)
        | ((input[pos + 3] as u64) << 24) | ((input[pos + 4] as u64) << 32) | ((input[pos
        + 5] as u64) << 40) | ((input[pos + 6] as u64) << 48) | ((input[pos + 7] as u64) << 56);
    Some((v, pos + 8))
}

/// Parse a single byte at `pos`.
pub open spec fn spec_parse_u8(input: Seq<u8>, pos: int) -> Option<(u8, int)> {
    if 0 <= pos && pos + 1 <= input.len() {
        Some((input[pos], pos + 1))
    } else {
        None
    }
}

/// Parsing a byte out of its own encoding yields the byte.
pub proof fn lemma_parse_u8_of_enc(pre: Seq<u8>, b: u8, post: Seq<u8>)
    ensures
        spec_parse_u8(pre + seq![b] + post, pre.len() as int) == Some((b, pre.len() + 1 as int)),
{
    let buf = pre + seq![b] + post;
    assert(buf[pre.len() as int] == b);
}

/// Append one byte.
pub fn push_u8(out: &mut Vec<u8>, b: u8)
    ensures
        final(out)@ == old(out)@ + seq![b],
{
    out.push(b);
    proof {
        assert(out@ =~= old(out)@ + seq![b]);
    }
}

/// Read one byte at `pos`.
pub fn decode_u8(input: &Vec<u8>, pos: usize) -> (r: Option<(u8, usize)>)
    ensures
        match r {
            Some((b, end)) => spec_parse_u8(input@, pos as int) == Some((b, end as int)),
            None => spec_parse_u8(input@, pos as int) is None,
        },
{
    if pos >= input.len() {
        return None;
    }
    Some((input[pos], pos + 1))
}

/// A byte string: its 64-bit length, then its bytes.
pub open spec fn spec_enc_bytes(b: Seq<u8>) -> Seq<u8> {
    spec_u64_le(b.len() as u64) + b
}

/// Parse a length-prefixed byte string at `pos`.
#[verifier::opaque]
pub open spec fn spec_parse_bytes(input: Seq<u8>, pos: int) -> Option<(Seq<u8>, int)> {
    match spec_parse_u64(input, pos) {
        None => None,
        Some((len, p)) => if p + len <= input.len() {
            Some((input.subrange(p, p + len), p + len))
        } else {
            None
        },
    }
}

/// Parsing a byte string out of its own encoding yields the bytes and
/// steps over exactly the encoding.
pub proof fn lemma_parse_bytes_of_enc(pre: Seq<u8>, b: Seq<u8>, post: Seq<u8>)
    requires
        b.len() <= u64::MAX,
    ensures
        spec_parse_bytes(pre + spec_enc_bytes(b) + post, pre.len() as int) == Some(
            (b, pre.len() + 8 + b.len() as int),
        ),
{
    reveal(spec_parse_bytes);
    let buf = pre + spec_enc_bytes(b) + post;
    let l = b.len() as u64;
    assert(buf =~= pre + spec_u64_le(l) + (b + post));
    lemma_parse_u64_of_enc(pre, l, b + post);
    let p = pre.len() + 8 as int;
    assert(buf.subrange(p, p + l as int) =~= b);
}

/// Append a length-prefixed byte string.
pub fn push_bytes(out: &mut Vec<u8>, data: &[u8])
    ensures
        final(out)@ == old(out)@ + spec_enc_bytes(data@),
{
    push_u64_le(out, data.len() as u64);
    let n = data.len();
    let mut i: usize = 0;
    while i < n
        invariant
            n == data@.len(),
            i <= n,
            out@ == old(out)@ + spec_u64_le(n as u64) + data@.take(i as int),
        decreases n - i,
    {
        out.push(data[i]);
        i = i + 1;
        proof {
            assert(out@ =~= old(out)@ + spec_u64_le(n as u64) + data@.take(i as int));
        }
    }
    proof {
        assert(data@.take(n as int) =~= data@);
        assert(out@ =~= old(out)@ + spec_enc_bytes(data@));
    }
}

/// Read a length-prefixed byte string at `pos`.
pub fn decode_bytes(input: &Vec<u8>, pos: usize) -> (r: Option<(Vec<u8>, usize)>)
    ensures
        match r {
            Some((b, end)) => spec_parse_bytes(input@, pos as int) == Some((b@, end as int)),
            None => spec_parse_bytes(input@, pos as int) is None,
        },
{
    proof {
        reveal(spec_parse_bytes);
        reveal(spec_parse_u64);
    }
    let (len, p) = match decode_u64_le(input, pos) {
        Some(x) => x,
        None => { return None },
    };
    if len > (input.len() - p) as u64 {
        return None;
    }
    let l = len as usize;
    let ilen = input.len();
    let mut b: Vec<u8> = Vec::new();
    let mut i: usize = 0;
    while i < l
        invariant
            ilen == input@.len(),
            p + l <= ilen,
            i <= l,
            b@ =~= input@.subrange(p as int, p + i as int),
        decreases l - i,
    {
        b.push(input[p + i]);
        i = i + 1;
    }
    proof {
        assert(b@ =~= input@.subrange(p as int, p + l as int));
    }
    Some((b, p + l))
}

/// A string: the length-prefixed UTF-8 encoding of its characters.
pub open spec fn spec_enc_string(s: Seq<char>) -> Seq<u8> {
    spec_enc_bytes(vstd::utf8::encode_utf8(s))
}

/// Relies on `String::from_utf8`: it succeeds exactly on valid UTF-8, and
/// the returned string's UTF-8 encoding is the input bytes.
#[verifier::external_body]
fn string_from_utf8(bytes: Vec<u8>) -> (r: Option<String>)
    ensures
        match r {
            Some(s) => vstd::utf8::encode_utf8(s@) == bytes@,
            None => !vstd::utf8::valid_utf8(bytes@),
        },
{
    String::from_utf8(bytes).ok()
}

/// Append a length-prefixed string.
pub fn push_string(out: &mut Vec<u8>, s: &str)
    ensures
        final(out)@ == old(out)@ + spec_enc_string(s@),
{
    push_bytes(out, s.as_bytes());
}

/// Parse a string at `pos`: a length-prefixed byte string that must be
/// valid UTF-8.
pub open spec fn spec_parse_string(input: Seq<u8>, pos: int) -> Option<(Seq<char>, int)> {
    match spec_parse_bytes(input, pos) {
        None => None,
        Some((b, p)) => if vstd::utf8::valid_utf8(b) {
            Some((vstd::utf8::decode_utf8(b), p))
        } else {
            None
        },
    }
}

/// Read a length-prefixed string at `pos`; invalid UTF-8 is rejected.
pub fn decode_string(input: &Vec<u8>, pos: usize) -> (r: Option<(String, usize)>)
    ensures
        match r {
            Some((s, end)) => spec_parse_string(input@, pos as int) == Some((s@, end as int)),
            None => spec_parse_string(input@, pos as int) is None,
        },
{
    broadcast use vstd::utf8::encode_utf8_valid_utf8, vstd::utf8::encode_utf8_decode_utf8;

    let (b, end) = match decode_bytes(input, pos) {
        Some(x) => x,
        None => { return None },
    };
    match string_from_utf8(b) {
        Some(s) => Some((s, end)),
        None => None,
    }
}

/// Parsing a string out of its own encoding yields the same characters and
/// steps over exactly the encoding.
pub proof fn lemma_parse_string_of_enc(pre: Seq<u8>, s: Seq<char>, post: Seq<u8>)
    requires
        vstd::utf8::encode_utf8(s).len() <= u64::MAX,
    ensures
        spec_parse_string(pre + spec_enc_string(s) + post, pre.len() as int) == Some(
            (s, pre.len() + 8 + vstd::utf8::encode_utf8(s).len() as int),
        ),
{
    broadcast use vstd::utf8::encode_utf8_valid_utf8, vstd::utf8::encode_utf8_decode_utf8;

    lemma_parse_bytes_of_enc(pre, vstd::utf8::encode_utf8(s), post);
}

/// A list of byte blobs: its 64-bit count, then each blob length-prefixed.
#[verifier::opaque]
pub open spec fn spec_enc_blob_items(l: Seq<Seq<u8>>) -> Seq<u8>
    decreases l.len(),
{
    if l.len() == 0 {
        Seq::empty()
    } else {
        spec_enc_bytes(l.first()) + spec_enc_blob_items(l.drop_first())
    }
}

/// A blob list with its count header.
pub open spec fn spec_enc_blob_list(l: Seq<Seq<u8>>) -> Seq<u8> {
    spec_u64_le(l.len() as u64) + spec_enc_blob_items(l)
}

/// Parse `count` length-prefixed blobs starting at `pos`.
#[verifier::opaque]
pub open spec fn spec_parse_blob_items(input: Seq<u8>, pos: int, count: nat) -> Option<
    (Seq<Seq<u8>>, int),
>
    decreases count,
{
    if count == 0 {
        Some((Seq::empty(), pos))
    } else {
        match spec_parse_bytes(input, pos) {
            None => None,
            Some((b, p)) => match spec_parse_blob_items(input, p, (count - 1) as nat) {
                None => None,
                Some((rest, e)) => Some((seq![b] + rest, e)),
            },
        }
    }
}

/// Parse a counted blob list at `pos`.
pub open spec fn spec_parse_blob_list(input: Seq<u8>, pos: int) -> Option<(Seq<Seq<u8>>, int)> {
    match spec_parse_u64(input, pos) {
        None => None,
        Some((n, p)) => spec_parse_blob_items(input, p, n as nat),
    }
}

/// Appending one blob to a list appends its encoding.
pub proof fn lemma_enc_blob_items_push(l: Seq<Seq<u8>>, x: Seq<u8>)
    ensures
        spec_enc_blob_items(l.push(x)) == spec_enc_blob_items(l) + spec_enc_bytes(x),
    decreases l.len(),
{
    reveal_with_fuel(spec_enc_blob_items, 2);
    if l.len() == 0 {
        let lp = l.push(x);
        assert(lp.first() == x);
        assert(lp.drop_first() =~= Seq::<Seq<u8>>::empty());
        assert(spec_enc_blob_items(lp.drop_first()).len() == 0);
        assert(spec_enc_blob_items(lp) =~= spec_enc_bytes(x));
        assert(spec_enc_blob_items(l).len() == 0);
        assert(spec_enc_blob_items(l) + spec_enc_bytes(x) =~= spec_enc_bytes(x));
    } else {
        assert(l.push(x).first() == l.first());
        assert(l.push(x).drop_first() =~= l.drop_first().push(x));
        lemma_enc_blob_items_push(l.drop_first(), x);
        assert(spec_enc_bytes(l.first()) + (spec_enc_blob_items(l.drop_first()) + spec_enc_bytes(x))
            =~= (spec_enc_bytes(l.first()) + spec_enc_blob_items(l.drop_first())) + spec_enc_bytes(
            x,
        ));
    }
}

/// Concatenation of byte sequences is associative.
pub proof fn lemma_seq_assoc(a: Seq<u8>, b: Seq<u8>, c: Seq<u8>)
    ensures
        (a + b) + c == a + (b + c),
{
    assert((a + b) + c =~= a + (b + c));
}

/// Parsing `count` blobs out of their own encodings yields the blobs and
/// steps over exactly the encodings.
#[verifier::rlimit(100)]
#[verifier::spinoff_prover]
pub proof fn lemma_parse_blob_items_of_enc(pre: Seq<u8>, l: Seq<Seq<u8>>, post: Seq<u8>)
    requires
        forall|i: int| 0 <= i < l.len() ==> #[trigger] l[i].len() <= u64::MAX,
    ensures
        spec_parse_blob_items(pre + spec_enc_blob_items(l) + post, pre.len() as int, l.len())
            == Some((l, pre.len() + spec_enc_blob_items(l).len() as int)),
    decreases l.len(),
{
    reveal_with_fuel(spec_enc_blob_items, 2);
    reveal_with_fuel(spec_parse_blob_items, 2);
    if l.len() == 0 {
        assert(pre + spec_enc_blob_items(l) + post =~= pre + post);
    } else {
        let first = l.first();
        let rest = l.drop_first();
        let eb = spec_enc_bytes(first);
        let er = spec_enc_blob_items(rest);
        let buf = pre + spec_enc_blob_items(l) + post;
        assert(spec_enc_blob_items(l) == eb + er);
        lemma_seq_assoc(pre, eb, er);
        lemma_seq_assoc(pre + eb, er, post);
        assert(buf == (pre + eb) + er + post);
        lemma_seq_assoc(pre, eb, er + post);
        assert(buf == pre + eb + (er + post));
        lemma_parse_bytes_of_enc(pre, first, er + post);
        assert(first.len() <= u64::MAX) by {
            assert(l[0].len() <= u64::MAX);
        }
        let pre2 = pre + eb;
        assert(forall|i: int| 0 <= i < rest.len() ==> #[trigger] rest[i].len() <= u64::MAX)
            by {
            assert(forall|i: int|
                0 <= i < rest.len() ==> #[trigger] rest[i].len() == l[i + 1].len() && l[i
                    + 1].len() <= u64::MAX);
        }
        lemma_parse_blob_items_of_enc(pre2, rest, post);
        assert(seq![first] + rest =~= l);
        assert(pre2.len() == pre.len() + 8 + first.len());
    }
}

/// Parsing a counted blob list out of its own encoding yields the list.
pub proof fn lemma_parse_blob_list_of_enc(pre: Seq<u8>, l: Seq<Seq<u8>>, post: Seq<u8>)
    requires
        l.len() <= u64::MAX,
        forall|i: int| 0 <= i < l.len() ==> #[trigger] l[i].len() <= u64::MAX,
    ensures
        spec_parse_blob_list(pre + spec_enc_blob_list(l) + post, pre.len() as int) == Some(
            (l, pre.len() + spec_enc_blob_list(l).len() as int),
        ),
{
    let n = l.len() as u64;
    let eh = spec_u64_le(n);
    let ei = spec_enc_blob_items(l);
    let buf = pre + spec_enc_blob_list(l) + post;
    assert(spec_enc_blob_list(l) == eh + ei);
    lemma_seq_assoc(pre, eh, ei);
    lemma_seq_assoc(pre + eh, ei, post);
    assert(buf == (pre + eh) + ei + post);
    lemma_seq_assoc(pre, eh, ei + post);
    assert(buf == pre + eh + (ei + post));
    lemma_parse_u64_of_enc(pre, n, ei + post);
    lemma_parse_blob_items_of_enc(pre + eh, l, post);
}

/// A `u32` at the very start of a buffer parses back.
pub proof fn lemma_parse_u32_head(v: u32, post: Seq<u8>)
    ensures
        spec_parse_u32(spec_u32_le(v) + post, 0) == Some((v, 4 as int)),
{
    assert(Seq::<u8>::empty() + spec_u32_le(v) + post =~= spec_u32_le(v) + post);
    lemma_parse_u32_of_enc(Seq::empty(), v, post);
}

/// A `u64` that ends its buffer parses back.
pub proof fn lemma_parse_u64_at_end(pre: Seq<u8>, v: u64)
    ensures
        spec_parse_u64(pre + spec_u64_le(v), pre.len() as int) == Some(
            (v, (pre + spec_u64_le(v)).len() as int),
        ),
{
    assert(pre + spec_u64_le(v) + Seq::<u8>::empty() =~= pre + spec_u64_le(v));
    lemma_parse_u64_of_enc(pre, v, Seq::empty());
}

/// A byte string at the very start of a buffer parses back.
pub proof fn lemma_parse_bytes_head(b: Seq<u8>, post: Seq<u8>)
    requires
        b.len() <= u64::MAX,
    ensures
        spec_parse_bytes(spec_enc_bytes(b) + post, 0) == Some((b, 8 + b.len() as int)),
{
    assert(Seq::<u8>::empty() + spec_enc_bytes(b) + post =~= spec_enc_bytes(b) + post);
    lemma_parse_bytes_of_enc(Seq::empty(), b, post);
}

/// A byte string that ends its buffer parses back.
pub proof fn lemma_parse_bytes_at_end(pre: Seq<u8>, b: Seq<u8>)
    requires
        b.len() <= u64::MAX,
    ensures
        spec_parse_bytes(pre + spec_enc_bytes(b), pre.len() as int) == Some(
            (b, (pre + spec_enc_bytes(b)).len() as int),
        ),
{
    assert(pre + spec_enc_bytes(b) + Seq::<u8>::empty() =~= pre + spec_enc_bytes(b));
    lemma_parse_bytes_of_enc(pre, b, Seq::empty());
}

/// A counted blob list that ends its buffer parses back to the list.
pub proof fn lemma_parse_blob_list_at_end(pre: Seq<u8>, l: Seq<Seq<u8>>)
    requires
        l.len() <= u64::MAX,
        forall|i: int| 0 <= i < l.len() ==> #[trigger] l[i].len() <= u64::MAX,
    ensures
        spec_parse_blob_list(pre + spec_enc_blob_list(l), pre.len() as int) == Some(
            (l, (pre + spec_enc_blob_list(l)).len() as int),
        ),
{
    lemma_parse_blob_list_of_enc(pre, l, Seq::empty());
    assert(pre + spec_enc_blob_list(l) + Seq::<u8>::empty() =~= pre + spec_enc_blob_list(l));
}

/// Append a counted list of byte blobs.
pub fn push_blob_list(out: &mut Vec<u8>, items: &Vec<Vec<u8>>)
    ensures
        final(out)@ == old(out)@ + spec_enc_blob_list(items.deep_view()),
{
    let n = items.len();
    push_u64_le(out, n as u64);
    proof {
        reveal(spec_enc_blob_items);
        assert(items.deep_view().take(0) =~= Seq::<Seq<u8>>::empty());
    }
    let mut i: usize = 0;
    while i < n
        invariant
            n == items@.len(),
            i <= n,
            items.deep_view().len() == n,
            forall|j: int| 0 <= j < n ==> items.deep_view()[j] == items@[j]@,
            out@ == old(out)@ + spec_u64_le(n as u64) + spec_enc_blob_items(
                items.deep_view().take(i as int),
            ),
        decreases n - i,
    {
        push_bytes(out, items[i].as_slice());
        proof {
            reveal(spec_enc_blob_items);
            let dv = items.deep_view();
            lemma_enc_blob_items_push(dv.take(i as int), dv[i as int]);
            assert(dv.take(i + 1 as int) =~= dv.take(i as int).push(dv[i as int]));
        }
        i = i + 1;
    }
    proof {
        reveal(spec_enc_blob_items);
        assert(items.deep_view().take(n as int) =~= items.deep_view());
        assert(out@ =~= old(out)@ + spec_enc_blob_list(items.deep_view()));
    }
}

/// Read a counted list of byte blobs at `pos`.
pub fn decode_blob_list(input: &Vec<u8>, pos: usize) -> (r: Option<(Vec<Vec<u8>>, usize)>)
    ensures
        match r {
            Some((items, end)) => spec_parse_blob_list(input@, pos as int) == Some(
                (items.deep_view(), end as int),
            ),
            None => spec_parse_blob_list(input@, pos as int) is None,
        },
{
    let (n, start) = match decode_u64_le(input, pos) {
        Some(x) => x,
        None => { return None },
    };
    proof {
        reveal(spec_parse_blob_items);
    }
    let mut items: Vec<Vec<u8>> = Vec::new();
    let mut p = start;
    let mut j: u64 = 0;
    while j < n
        invariant
            j <= n,
            spec_parse_u64(input@, pos as int) == Some((n, start as int)),
            spec_parse_blob_items(input@, start as int, n as nat) == (match spec_parse_blob_items(
                input@,
                p as int,
                (n - j) as nat,
            ) {
                None => None::<(Seq<Seq<u8>>, int)>,
                Some((tail, e)) => Some((items.deep_view() + tail, e)),
            }),
        decreases n - j,
    {
        let (b, p2) = match decode_bytes(input, p) {
            Some(x) => x,
            None => {
                proof {
                    reveal(spec_parse_blob_items);
                    assert(spec_parse_blob_items(input@, p as int, (n - j) as nat) is None);
                    assert(spec_parse_blob_items(input@, start as int, n as nat) is None);
                    assert(spec_parse_u64(input@, pos as int) == Some((n, start as int)));
                    assert(spec_parse_blob_list(input@, pos as int) is None);
                }
                return None;
            },
        };
        let ghost pre_dv = items.deep_view();
        let ghost tail_opt = spec_parse_blob_items(input@, p2 as int, (n - j - 1) as nat);
        items.push(b);
        p = p2;
        j = j + 1;
        proof {
            reveal(spec_parse_blob_items);
            assert(b.deep_view() =~= b@);
            assert(items.deep_view() =~= pre_dv.push(b@));
            match tail_opt {
                None => {},
                Some((tail, e)) => {
                    assert(pre_dv + (seq![b@] + tail) =~= pre_dv.push(b@) + tail);
                },
            }
        }
    }
    proof {
        reveal(spec_parse_blob_items);
        assert(items.deep_view() + Seq::<Seq<u8>>::empty() =~= items.deep_view());
    }
    Some((items, p))
}

} // verus!
