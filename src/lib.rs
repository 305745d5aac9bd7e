pub mod aletheia;
pub mod bls;
pub mod canonical;
pub mod encoding;
pub mod entropy;
pub mod error;
pub mod ordering;
pub mod proofs;
