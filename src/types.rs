//! Account identifiers and account values.
use vstd::prelude::*;

verus! {

/// Width in bytes of an account identifier.
pub const ADDRESS_LEN: usize = 20;

/// A 20-byte account identifier, compared byte for byte.
#[derive(Clone, Copy, Debug, PartialEq, Eq, Hash)]
pub struct Address {
    pub bytes: [u8; 20],
}

/// A 256-bit unsigned account value, held as four 64-bit limbs,
/// least significant first.
#[derive(Clone, Copy, Debug, PartialEq, Eq, Hash)]
pub struct Value {
    pub limbs: [u64; 4],
}

impl Address {
    pub fn from_bytes(bytes: [u8; 20]) -> (r: Address)
        ensures
            r.bytes == bytes,
    {
        Address { bytes }
    }

    /// Whether two identifiers hold the same bytes.
    pub fn same_as(&self, other: &Address) -> (r: bool)
        ensures
            r == (*self == *other),
    {
        let mut i: usize = 0;
        while i < ADDRESS_LEN
            invariant
                0 <= i <= 20,
                forall|k: int| 0 <= k < i ==> self.bytes[k] == other.bytes[k],
            decreases 20 - i,
        {
            if self.bytes[i] != other.bytes[i] {
                return false;
            }
            i = i + 1;
        }
        proof {
            broadcast use vstd::array::group_array_axioms;

            assert(self.bytes@ =~= other.bytes@);
            assert(self.bytes == other.bytes);
        }
        true
    }
}

impl Value {
    /// The number held, as an integer.
    pub open spec fn as_nat(self) -> nat {
        self.limbs[0] as nat + self.limbs[1] as nat * 0x1_0000_0000_0000_0000 + self.limbs[2] as nat
            * 0x1_0000_0000_0000_0000_0000_0000_0000_0000 + self.limbs[3] as nat
            * 0x1_0000_0000_0000_0000_0000_0000_0000_0000_0000_0000_0000_0000
    }

    pub fn from_limbs(limbs: [u64; 4]) -> (r: Value)
        ensures
            r.limbs == limbs,
    {
        Value { limbs }
    }

    pub fn from_u64(n: u64) -> (r: Value)
        ensures
            r.as_nat() == n,
            r.limbs@ == seq![n, 0u64, 0u64, 0u64],
    {
        let r = Value { limbs: [n, 0, 0, 0] };
        assert(r.limbs@ =~= seq![n, 0u64, 0u64, 0u64]);
        r
    }
}

} // verus!

verus! {

/// One cached account: its identifier and the value last fetched for it.
#[derive(Clone, Copy, Debug, PartialEq, Eq, Hash)]
pub struct Entry {
    pub address: Address,
    pub value: Value,
}

} // verus!
