use vstd::prelude::*;
use vstd::std_specs::cmp::PartialEqSpec;

verus! {

/// Number of bytes in a network `Name`.
pub const NAME_BYTES: usize = 64;

/// Number of bytes in a sealed-box nonce.
pub const NONCE_BYTES: usize = 24;

/// Fixed-width opaque identifier addressing content in the network.
/// Equality is byte equality.
#[derive(PartialEq, Eq, Debug)]
pub struct Name {
    bytes: Vec<u8>,
}

impl View for Name {
    type V = Seq<u8>;

    closed spec fn view(&self) -> Seq<u8> {
        self.bytes@
    }
}

impl Name {
    /// A name is exactly `NAME_BYTES` bytes.
    pub open spec fn wf(&self) -> bool {
        self@.len() == NAME_BYTES
    }

    pub fn from_bytes(bytes: Vec<u8>) -> (r: Name)
        requires
            bytes@.len() == NAME_BYTES,
        ensures
            r@ == bytes@,
            r.wf(),
    {
        Name { bytes }
    }

    pub fn as_bytes(&self) -> (r: &Vec<u8>)
        ensures
            r@ == self@,
    {
        &self.bytes
    }

    pub fn equals(&self, other: &Name) -> (r: bool)
        ensures
            r <==> self@ == other@,
    {
        let r = self.bytes == other.bytes;
        proof {
            if self.bytes.eq_spec(&other.bytes) {
                assert(self.bytes@ =~= other.bytes@);
            }
        }
        r
    }
}

impl Clone for Name {
    fn clone(&self) -> (r: Self)
        ensures
            r@ == self@,
    {
        Name { bytes: self.bytes.clone() }
    }
}

/// A sealed-box nonce: exactly `NONCE_BYTES` bytes.
pub struct Nonce {
    bytes: Vec<u8>,
}

impl View for Nonce {
    type V = Seq<u8>;

    closed spec fn view(&self) -> Seq<u8> {
        self.bytes@
    }
}

impl Nonce {
    pub open spec fn wf(&self) -> bool {
        self@.len() == NONCE_BYTES
    }

    pub fn from_bytes(bytes: Vec<u8>) -> (r: Nonce)
        requires
            bytes@.len() == NONCE_BYTES,
        ensures
            r@ == bytes@,
            r.wf(),
    {
        Nonce { bytes }
    }

    pub fn as_bytes(&self) -> (r: &Vec<u8>)
        ensures
            r@ == self@,
    {
        &self.bytes
    }
}

impl Clone for Nonce {
    fn clone(&self) -> (r: Self)
        ensures
            r@ == self@,
    {
        Nonce { bytes: self.bytes.clone() }
    }
}

} // verus!
