use vstd::prelude::*;
use crate::bls::{BlsPublicKey, BlsSignature};
use crate::canonical::{bytes_value, entry_value, has_key, is_bytes_value, CanonicalValue};

verus! {

/// A signer's public key together with its signature.
#[derive(Debug, Clone, PartialEq, Eq)]
pub struct AletheiaWitness {
    pub public_key: BlsPublicKey,
    pub signature: BlsSignature,
}

/// A witness and the 32-byte root hash it signs.
#[derive(Debug, Clone, PartialEq, Eq)]
pub struct AletheiaHeader {
    pub witness: AletheiaWitness,
    pub root_hash: [u8; 32],
}

/// `v` is the generic form of witness `w`: its two fields, in declaration
/// order, each as a sequence of byte values.
pub open spec fn is_witness_value(v: CanonicalValue, w: AletheiaWitness) -> bool {
    &&& v->Mapping_0@.len() == 2
    &&& has_key(v, 0, "public_key"@)
    &&& is_bytes_value(entry_value(v, 0), w.public_key.0@)
    &&& has_key(v, 1, "signature"@)
    &&& is_bytes_value(entry_value(v, 1), w.signature.0@)
}

/// `v` is the generic form of header `h`.
pub open spec fn is_header_value(v: CanonicalValue, h: AletheiaHeader) -> bool {
    &&& v->Mapping_0@.len() == 2
    &&& has_key(v, 0, "witness"@)
    &&& is_witness_value(entry_value(v, 0), h.witness)
    &&& has_key(v, 1, "root_hash"@)
    &&& is_bytes_value(entry_value(v, 1), h.root_hash@)
}

impl AletheiaWitness {
    /// The generic form of this witness, ready for canonical encoding.
    pub fn to_canonical_value(&self) -> (r: CanonicalValue)
        ensures
            is_witness_value(r, *self),
    {
        let mut es: Vec<(String, CanonicalValue)> = Vec::new();
        es.push(("public_key".to_owned(), bytes_value(self.public_key.0.as_slice())));
        es.push(("signature".to_owned(), bytes_value(self.signature.0.as_slice())));
        CanonicalValue::Mapping(es)
    }
}

impl AletheiaHeader {
    /// The generic form of this header, ready for canonical encoding.
    pub fn to_canonical_value(&self) -> (r: CanonicalValue)
        ensures
            is_header_value(r, *self),
    {
        let mut es: Vec<(String, CanonicalValue)> = Vec::new();
        es.push(("witness".to_owned(), self.witness.to_canonical_value()));
        es.push(("root_hash".to_owned(), bytes_value(self.root_hash.as_slice())));
        CanonicalValue::Mapping(es)
    }
}

} // verus!
