use vstd::prelude::*;
use crate::canonical::{entry_value, has_key, CanonicalValue};
use crate::error::SerializationError;

verus! {

/// A UTC instant: whole seconds since the Unix epoch and the nanoseconds
/// past that second.
#[derive(Debug, Clone, Copy, PartialEq, Eq)]
pub struct Timestamp {
    pub secs: i64,
    pub nanos: u32,
}

/// The RFC 3339 UTC text (`Z` suffix, fractional seconds only when nonzero)
/// of the instant `secs` seconds and `nanos` nanoseconds after the epoch, or
/// `None` where no such instant can be represented.
pub uninterp spec fn rfc3339_of(secs: int, nanos: int) -> Option<Seq<char>>;

pub open spec fn timestamp_text(t: Timestamp) -> Option<Seq<char>> {
    rfc3339_of(t.secs as int, t.nanos as int)
}

/// Relies on chrono's `DateTime::from_timestamp` (`None` out of range or for
/// an invalid nanosecond count) and `to_rfc3339_opts(SecondsFormat::AutoSi,
/// true)`, the form chrono's serde support writes for a `DateTime<Utc>`.
#[verifier::external_body]
fn format_rfc3339(secs: i64, nanos: u32) -> (r: Option<String>)
    ensures
        r is Some ==> rfc3339_of(secs as int, nanos as int) == Some(r->0@),
        r is None ==> rfc3339_of(secs as int, nanos as int) is None,
        nanos >= 2_000_000_000 ==> r is None,
{
    match chrono::DateTime::from_timestamp(secs, nanos) {
        Some(d) => Some(d.to_rfc3339_opts(chrono::SecondsFormat::AutoSi, true)),
        None => None,
    }
}

impl Timestamp {
    pub fn from_unix(secs: i64, nanos: u32) -> (r: Self)
        ensures
            r.secs == secs,
            r.nanos == nanos,
    {
        Timestamp { secs, nanos }
    }

    /// The RFC 3339 text of this instant, if it can be represented.
    pub fn to_rfc3339(&self) -> (r: Option<String>)
        ensures
            r is Some <==> timestamp_text(*self) is Some,
            r is Some ==> timestamp_text(*self) == Some(r->0@),
    {
        format_rfc3339(self.secs, self.nanos)
    }
}

/// A probability update and the energy invested in it, stamped with time.
#[derive(Debug, Clone, PartialEq, Eq)]
pub struct EntropyProof {
    /// Probability of the event before the update (scaled integer)
    pub p_before: u64,
    /// Probability of the event after the update (scaled integer)
    pub q_after: u64,
    /// Scaled energy investment
    pub energy_investment: i64,
    /// Timestamp of the proof generation
    pub timestamp: Timestamp,
}

/// `v` is the generic form of proof `p`, its timestamp written as `ts`:
/// the four fields in declaration order, integers as numbers.
pub open spec fn is_entropy_value(v: CanonicalValue, p: EntropyProof, ts: Seq<char>) -> bool {
    &&& v->Mapping_0@.len() == 4
    &&& has_key(v, 0, "p_before"@)
    &&& entry_value(v, 0) == CanonicalValue::Number(p.p_before as i128)
    &&& has_key(v, 1, "q_after"@)
    &&& entry_value(v, 1) == CanonicalValue::Number(p.q_after as i128)
    &&& has_key(v, 2, "energy_investment"@)
    &&& entry_value(v, 2) == CanonicalValue::Number(p.energy_investment as i128)
    &&& has_key(v, 3, "timestamp"@)
    &&& entry_value(v, 3) is Text
    &&& entry_value(v, 3)->Text_0@ == ts
}

impl EntropyProof {
    /// The generic form of this proof, its timestamp written as
    /// `timestamp_text`.
    pub fn to_canonical_value_with(&self, timestamp_text: String) -> (r: CanonicalValue)
        ensures
            is_entropy_value(r, *self, timestamp_text@),
    {
        let mut es: Vec<(String, CanonicalValue)> = Vec::new();
        es.push(("p_before".to_owned(), CanonicalValue::Number(self.p_before as i128)));
        es.push(("q_after".to_owned(), CanonicalValue::Number(self.q_after as i128)));
        es.push(
            ("energy_investment".to_owned(), CanonicalValue::Number(self.energy_investment as i128)),
        );
        es.push(("timestamp".to_owned(), CanonicalValue::Text(timestamp_text)));
        CanonicalValue::Mapping(es)
    }

    /// The generic form of this proof; fails exactly when its timestamp
    /// cannot be written.
    pub fn to_canonical_value(&self) -> (r: Result<CanonicalValue, SerializationError>)
        ensures
            r is Ok <==> timestamp_text(self.timestamp) is Some,
            r is Ok ==> is_entropy_value(r->Ok_0, *self, timestamp_text(self.timestamp)->0),
            r is Err ==> r->Err_0 == SerializationError::Unrepresentable,
    {
        let ts = match self.timestamp.to_rfc3339() {
            Some(t) => t,
            None => return Err(SerializationError::Unrepresentable),
        };
        Ok(self.to_canonical_value_with(ts))
    }
}

} // verus!
