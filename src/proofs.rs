use vstd::prelude::*;
use crate::aletheia::{is_header_value, AletheiaHeader};
use crate::canonical::{entry_value, has_key, CanonicalValue};
use crate::entropy::{is_entropy_value, timestamp_text, EntropyProof};
use crate::error::SerializationError;

verus! {

/// A header together with its ordered list of entropy proofs.
#[derive(Debug, Clone, PartialEq, Eq)]
pub struct AletheiaProof {
    pub header: AletheiaHeader,
    pub entropy_proofs: Vec<EntropyProof>,
}

/// Every proof's timestamp can be written.
pub open spec fn all_timestamps_written(ps: Seq<EntropyProof>) -> bool {
    forall|i: int| 0 <= i < ps.len() ==> (#[trigger] timestamp_text(ps[i].timestamp)) is Some
}

/// `v` is the generic form of `p`: the header, then the entropy proofs as a
/// sequence in their own order.
pub open spec fn is_proof_value(v: CanonicalValue, p: AletheiaProof) -> bool {
    &&& v->Mapping_0@.len() == 2
    &&& has_key(v, 0, "header"@)
    &&& is_header_value(entry_value(v, 0), p.header)
    &&& has_key(v, 1, "entropy_proofs"@)
    &&& entry_value(v, 1) is Sequence
    &&& entry_value(v, 1)->Sequence_0@.len() == p.entropy_proofs@.len()
    &&& forall|i: int|
        0 <= i < p.entropy_proofs@.len() ==> is_entropy_value(
            #[trigger] entry_value(v, 1)->Sequence_0@[i],
            p.entropy_proofs@[i],
            timestamp_text(p.entropy_proofs@[i].timestamp)->0,
        )
}

impl AletheiaProof {
    /// The generic form of this proof; fails exactly when one of its entropy
    /// proofs has a timestamp that cannot be written.
    pub fn to_canonical_value(&self) -> (r: Result<CanonicalValue, SerializationError>)
        ensures
            r is Ok <==> all_timestamps_written(self.entropy_proofs@),
            r is Ok ==> is_proof_value(r->Ok_0, *self),
            r is Err ==> r->Err_0 == SerializationError::Unrepresentable,
    {
        let mut items: Vec<CanonicalValue> = Vec::new();
        let mut i: usize = 0;
        while i < self.entropy_proofs.len()
            invariant
                i <= self.entropy_proofs@.len(),
                items@.len() == i,
                all_timestamps_written(self.entropy_proofs@.subrange(0, i as int)),
                forall|j: int|
                    0 <= j < i ==> is_entropy_value(
                        #[trigger] items@[j],
                        self.entropy_proofs@[j],
                        timestamp_text(self.entropy_proofs@[j].timestamp)->0,
                    ),
            decreases self.entropy_proofs@.len() - i,
        {
            match self.entropy_proofs[i].to_canonical_value() {
                Ok(v) => items.push(v),
                Err(e) => {
                    assert(!all_timestamps_written(self.entropy_proofs@)) by {
                        assert(timestamp_text(self.entropy_proofs@[i as int].timestamp) is None);
                    }
                    return Err(e);
                },
            }
            i = i + 1;
            assert forall|j: int| 0 <= j < i implies (#[trigger] timestamp_text(
                self.entropy_proofs@.subrange(0, i as int)[j].timestamp,
            )) is Some by {
                if j < i - 1 {
                    assert(self.entropy_proofs@.subrange(0, i as int)[j]
                        == self.entropy_proofs@.subrange(0, i - 1)[j]);
                }
            }
        }
        assert(self.entropy_proofs@.subrange(0, i as int) =~= self.entropy_proofs@);
        let mut es: Vec<(String, CanonicalValue)> = Vec::new();
        es.push(("header".to_owned(), self.header.to_canonical_value()));
        es.push(("entropy_proofs".to_owned(), CanonicalValue::Sequence(items)));
        Ok(CanonicalValue::Mapping(es))
    }
}

} // verus!
