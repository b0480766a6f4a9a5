//! 256-bit node identifiers.

use vstd::prelude::*;

verus! {

/// A 256-bit opaque identifier.  It serves both as a node's long-term
/// public identity and as the ephemeral challenge value the server
/// assigns to each connection.  Equality is byte-wise.
#[derive(Clone, Copy, Debug)]
pub struct U256 {
    pub bytes: [u8; 32],
}

impl PartialEq for U256 {
    fn eq(&self, other: &U256) -> (r: bool)
        ensures
            r <==> self@ == other@,
    {
        self.same(other)
    }
}

impl vstd::std_specs::cmp::PartialEqSpecImpl for U256 {
    open spec fn obeys_eq_spec() -> bool {
        true
    }

    open spec fn eq_spec(&self, other: &U256) -> bool {
        self@ == other@
    }
}

impl Eq for U256 {

}

impl U256 {
    /// The sequence of 32 bytes this identifier consists of.
    pub open spec fn view(self) -> Seq<u8> {
        self.bytes@
    }

    /// Builds an identifier from its 32 bytes.
    pub fn new(bytes: [u8; 32]) -> (r: U256)
        ensures
            r@ == bytes@,
    {
        U256 { bytes }
    }

    /// A fresh random identifier.
    ///
    /// Relies on rand::fill, which fills the buffer with bytes from
    /// the thread-local random generator.  Nothing can be promised of
    /// a random value, so nothing is claimed of the result.
    #[verifier::external_body]
    pub fn rnd() -> U256 {
        let mut bytes = [0u8; 32];
        rand::fill(&mut bytes[..]);
        U256 { bytes }
    }

    /// Byte-wise equality test.
    pub fn same(&self, other: &U256) -> (r: bool)
        ensures
            r <==> self@ == other@,
    {
        let mut i: usize = 0;
        while i < 32
            invariant
                i <= 32,
                forall|j: int| 0 <= j < i ==> self.bytes@[j] == other.bytes@[j],
            decreases 32 - i,
        {
            if self.bytes[i] != other.bytes[i] {
                assert(self@ != other@);
                return false;
            }
            i += 1;
        }
        assert(self@ =~= other@);
        true
    }
}

} // verus!
