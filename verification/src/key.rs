//! Query identity: encoded key bytes, ingredient kind ids, dependency edges,
//! and the stable 64-bit hash over encoded keys.

use vstd::prelude::*;
use vstd::slice::slice_to_vec;

verus! {

/// An ingredient's stable numeric identifier within a database instance.
#[derive(Copy, Clone, Eq, PartialEq, Hash, Debug, Structural)]
pub struct QueryKindId(pub u32);

impl QueryKindId {
    /// The raw numeric id.
    pub fn as_u32(self) -> (r: u32)
        ensures
            r == self.0,
    {
        self.0
    }
}

/// An encoded key: the deterministic, stable byte encoding of a typed key.
///
/// Equal typed keys encode to byte-equal `Key`s, so byte equality is key
/// identity throughout the engine.
#[derive(Eq, Hash, Debug)]
pub struct Key {
    bytes: Vec<u8>,
}

impl View for Key {
    type V = Seq<u8>;

    closed spec fn view(&self) -> Seq<u8> {
        self.bytes@
    }
}

/// The FNV-1a 64-bit offset basis.
pub const FNV_OFFSET: u64 = 0xcbf2_9ce4_8422_2325;

/// The FNV-1a 64-bit prime.
pub const FNV_PRIME: u64 = 0x100_0000_01b3;

/// One step of the FNV-1a hash: fold a byte into the running state.
pub open spec fn fnv1a_step(h: u64, b: u8) -> u64 {
    (h ^ (b as u64)).wrapping_mul(FNV_PRIME)
}

/// The FNV-1a 64-bit hash of a byte sequence.
pub open spec fn fnv1a(bytes: Seq<u8>) -> u64
    decreases bytes.len(),
{
    if bytes.len() == 0 {
        FNV_OFFSET
    } else {
        fnv1a_step(fnv1a(bytes.drop_last()), bytes.last())
    }
}

impl Key {
    /// Wrap already-encoded key bytes.
    pub fn from_bytes(bytes: Vec<u8>) -> (r: Key)
        ensures
            r@ == bytes@,
    {
        Key { bytes }
    }

    /// The encoded bytes.
    pub fn bytes(&self) -> (r: &[u8])
        ensures
            r@ == self@,
    {
        self.bytes.as_slice()
    }

    /// The stable 64-bit FNV-1a hash of the encoded bytes, used for
    /// diagnostics and cycle-lookup acceleration.
    pub fn hash(&self) -> (r: u64)
        ensures
            r == fnv1a(self@),
    {
        let n = self.bytes.len();
        let mut h: u64 = FNV_OFFSET;
        let mut i: usize = 0;
        while i < n
            invariant
                n == self@.len(),
                i <= n,
                h == fnv1a(self@.take(i as int)),
            decreases n - i,
        {
            let b = self.bytes[i];
            h = (h ^ (b as u64)).wrapping_mul(FNV_PRIME);
            i = i + 1;
            proof {
                assert(self@.take(i as int).drop_last() =~= self@.take(i - 1));
                assert(self@.take(i as int).last() == self@[i - 1]);
            }
        }
        proof {
            assert(self@.take(n as int) =~= self@);
        }
        h
    }
}

impl Clone for Key {
    fn clone(&self) -> (r: Key)
        ensures
            r@ == self@,
    {
        Key { bytes: slice_to_vec(self.bytes.as_slice()) }
    }
}

/// Byte-wise equality of two slices.
fn bytes_eq(a: &[u8], b: &[u8]) -> (r: bool)
    ensures
        r == (a@ == b@),
{
    if a.len() != b.len() {
        proof {
            assert(a@.len() != b@.len());
        }
        return false;
    }
    let n = a.len();
    let mut i: usize = 0;
    while i < n
        invariant
            n == a@.len(),
            n == b@.len(),
            i <= n,
            forall|j: int| 0 <= j < i ==> a@[j] == b@[j],
        decreases n - i,
    {
        if a[i] != b[i] {
            return false;
        }
        i = i + 1;
    }
    proof {
        assert(a@ =~= b@);
    }
    true
}

impl PartialEq for Key {
    fn eq(&self, other: &Key) -> (r: bool) {
        bytes_eq(self.bytes.as_slice(), other.bytes.as_slice())
    }
}

impl vstd::std_specs::cmp::PartialEqSpecImpl for Key {
    open spec fn obeys_eq_spec() -> bool {
        true
    }

    open spec fn eq_spec(&self, other: &Key) -> bool {
        self@ == other@
    }
}

/// The global identity of a query invocation: ingredient kind plus encoded key.
#[derive(Eq, Hash, Debug)]
pub struct DynKey {
    /// The ingredient's kind id.
    pub kind: QueryKindId,
    /// The encoded key bytes.
    pub key: Key,
}

impl View for DynKey {
    type V = (u32, Seq<u8>);

    open spec fn view(&self) -> (u32, Seq<u8>) {
        (self.kind.0, self.key@)
    }
}

impl DeepView for DynKey {
    type V = (u32, Seq<u8>);

    open spec fn deep_view(&self) -> (u32, Seq<u8>) {
        self.view()
    }
}

impl Clone for DynKey {
    fn clone(&self) -> (r: DynKey)
        ensures
            r@ == self@,
    {
        DynKey { kind: self.kind, key: self.key.clone() }
    }
}

impl PartialEq for DynKey {
    fn eq(&self, other: &DynKey) -> (r: bool) {
        self.kind.0 == other.kind.0 && self.key == other.key
    }
}

impl vstd::std_specs::cmp::PartialEqSpecImpl for DynKey {
    open spec fn obeys_eq_spec() -> bool {
        true
    }

    open spec fn eq_spec(&self, other: &DynKey) -> bool {
        self@ == other@
    }
}

/// A recorded dependency edge: the kind and encoded key of a queried cell.
#[derive(Eq, Hash, Debug)]
pub struct Dep {
    /// The kind id of the ingredient depended on.
    pub kind: QueryKindId,
    /// The encoded key depended on.
    pub key: Key,
}

impl View for Dep {
    type V = (u32, Seq<u8>);

    open spec fn view(&self) -> (u32, Seq<u8>) {
        (self.kind.0, self.key@)
    }
}

impl DeepView for Dep {
    type V = (u32, Seq<u8>);

    open spec fn deep_view(&self) -> (u32, Seq<u8>) {
        self.view()
    }
}

impl Clone for Dep {
    fn clone(&self) -> (r: Dep)
        ensures
            r@ == self@,
    {
        Dep { kind: self.kind, key: self.key.clone() }
    }
}

impl PartialEq for Dep {
    fn eq(&self, other: &Dep) -> (r: bool) {
        self.kind.0 == other.kind.0 && self.key == other.key
    }
}

impl vstd::std_specs::cmp::PartialEqSpecImpl for Dep {
    open spec fn obeys_eq_spec() -> bool {
        true
    }

    open spec fn eq_spec(&self, other: &Dep) -> bool {
        self@ == other@
    }
}

} // verus!
