//! A 32-byte account identity.
//!
//! The host ledger addresses every account, mint and authority by a 32-byte
//! key. This crate only ever stores keys, compares them for equality and
//! copies their bytes in and out of packed records, so the type is a plain
//! byte array with structural equality.

use vstd::prelude::*;

verus! {

/// A 32-byte identity of an account, asset or authority.
#[derive(Clone, Copy, Debug)]
pub struct Pubkey {
    pub bytes: [u8; 32],
}

impl View for Pubkey {
    type V = Seq<u8>;

    open spec fn view(&self) -> Seq<u8> {
        self.bytes@
    }
}

impl Pubkey {
    /// Builds a key from its raw bytes.
    pub fn new(bytes: [u8; 32]) -> (r: Pubkey)
        ensures
            r@ == bytes@,
    {
        Pubkey { bytes }
    }

    /// The all-zero key, the identity of an account that was never assigned.
    pub fn default_key() -> (r: Pubkey)
        ensures
            r@ == Seq::new(32, |i: int| 0u8),
            r@.len() == 32,
    {
        let bytes = [0u8; 32];
        let r = Pubkey { bytes };
        proof {
            assert(r@ =~= Seq::new(32, |i: int| 0u8));
        }
        r
    }
}

impl PartialEq for Pubkey {
    fn eq(&self, other: &Pubkey) -> (r: bool) {
        let mut i: usize = 0;
        while i < 32
            invariant
                i <= 32,
                forall|k: int| 0 <= k < i ==> self.bytes@[k] == other.bytes@[k],
            decreases 32 - i,
        {
            if self.bytes[i] != other.bytes[i] {
                return false;
            }
            i = i + 1;
        }
        proof {
            assert(self.bytes@ =~= other.bytes@);
        }
        true
    }
}

impl Eq for Pubkey {}

impl vstd::std_specs::cmp::PartialEqSpecImpl for Pubkey {
    open spec fn obeys_eq_spec() -> bool {
        true
    }

    open spec fn eq_spec(&self, other: &Pubkey) -> bool {
        self.bytes@ == other.bytes@
    }
}

} // verus!
