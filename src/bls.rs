use vstd::prelude::*;

verus! {

/// A BLS signature: an opaque 96-byte blob.
#[derive(Debug, Clone, PartialEq, Eq)]
pub struct BlsSignature(pub [u8; 96]);

impl BlsSignature {
    pub fn to_bytes(&self) -> (r: [u8; 96])
        ensures
            r@ == self.0@,
    {
        self.0
    }

    pub fn from_bytes(bytes: &[u8; 96]) -> (r: Self)
        ensures
            r.0@ == bytes@,
    {
        Self(*bytes)
    }
}

/// A BLS public key: an opaque 48-byte blob.
#[derive(Debug, Clone, PartialEq, Eq)]
pub struct BlsPublicKey(pub [u8; 48]);

impl BlsPublicKey {
    pub fn to_bytes(&self) -> (r: [u8; 48])
        ensures
            r@ == self.0@,
    {
        self.0
    }
}

} // verus!
