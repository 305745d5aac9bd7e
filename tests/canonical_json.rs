use nocturne_core::aletheia::{AletheiaHeader, AletheiaWitness};
use nocturne_core::bls::{BlsPublicKey, BlsSignature};
use nocturne_core::canonical::{bytes_value, to_canonical_json, CanonicalValue};
use nocturne_core::entropy::{EntropyProof, Timestamp};
use nocturne_core::error::SerializationError;
use nocturne_core::proofs::AletheiaProof;

fn byte_array_text(b: u8, n: usize) -> String {
    let items: Vec<String> = (0..n).map(|_| b.to_string()).collect();
    format!("[{}]", items.join(","))
}

fn witness() -> AletheiaWitness {
    AletheiaWitness {
        public_key: BlsPublicKey([1u8; 48]),
        signature: BlsSignature([2u8; 96]),
    }
}

fn valid_entropy_proof() -> EntropyProof {
    EntropyProof {
        p_before: 500_000,
        q_after: 250_000,
        energy_investment: 1_000,
        timestamp: Timestamp::from_unix(1_698_400_800, 0),
    }
}

fn witness_text() -> String {
    format!(
        "{{\"public_key\":{},\"signature\":{}}}",
        byte_array_text(1, 48),
        byte_array_text(2, 96)
    )
}

const ENTROPY_TEXT: &str =
    "{\"energy_investment\":1000,\"p_before\":500000,\"q_after\":250000,\"timestamp\":\"2023-10-27T10:00:00Z\"}";

fn entry(k: &str, v: CanonicalValue) -> (String, CanonicalValue) {
    (k.to_string(), v)
}

#[test]
fn witness_fixture_text() {
    let text = to_canonical_json(&witness().to_canonical_value());
    assert_eq!(text, witness_text());
}

#[test]
fn header_fixture_text() {
    let header = AletheiaHeader { witness: witness(), root_hash: [3u8; 32] };
    let text = to_canonical_json(&header.to_canonical_value());
    let expected = format!("{{\"root_hash\":{},\"witness\":{}}}", byte_array_text(3, 32), witness_text());
    assert_eq!(text, expected);
}

#[test]
fn entropy_proof_fixture_text() {
    let v = valid_entropy_proof().to_canonical_value().unwrap();
    assert_eq!(to_canonical_json(&v), ENTROPY_TEXT);
}

#[test]
fn negative_energy_is_written_signed() {
    let mut p = valid_entropy_proof();
    p.energy_investment = -1000;
    let v = p.to_canonical_value().unwrap();
    assert_eq!(
        to_canonical_json(&v),
        "{\"energy_investment\":-1000,\"p_before\":500000,\"q_after\":250000,\"timestamp\":\"2023-10-27T10:00:00Z\"}"
    );
}

#[test]
fn proof_keeps_two_identical_entries() {
    let proof = AletheiaProof {
        header: AletheiaHeader { witness: witness(), root_hash: [3u8; 32] },
        entropy_proofs: vec![valid_entropy_proof(), valid_entropy_proof()],
    };
    let text = to_canonical_json(&proof.to_canonical_value().unwrap());
    let expected = format!(
        "{{\"entropy_proofs\":[{},{}],\"header\":{{\"root_hash\":{},\"witness\":{}}}}}",
        ENTROPY_TEXT,
        ENTROPY_TEXT,
        byte_array_text(3, 32),
        witness_text()
    );
    assert_eq!(text, expected);
}

#[test]
fn timestamp_with_fraction() {
    let t = Timestamp::from_unix(1_698_400_800, 500_000_000);
    assert_eq!(t.to_rfc3339().unwrap(), "2023-10-27T10:00:00.500Z");
}

#[test]
fn unrepresentable_timestamp_is_refused() {
    let mut p = valid_entropy_proof();
    p.timestamp = Timestamp::from_unix(i64::MAX, 0);
    assert_eq!(p.to_canonical_value().unwrap_err(), SerializationError::Unrepresentable);
    let proof = AletheiaProof {
        header: AletheiaHeader { witness: witness(), root_hash: [3u8; 32] },
        entropy_proofs: vec![valid_entropy_proof(), p],
    };
    assert!(matches!(proof.to_canonical_value(), Err(SerializationError::Unrepresentable)));
}

#[test]
fn keys_sorted_at_every_depth() {
    let inner = CanonicalValue::Mapping(vec![
        entry("b", CanonicalValue::Number(2)),
        entry("a", CanonicalValue::Number(1)),
        entry("c", CanonicalValue::Number(3)),
    ]);
    let outer = CanonicalValue::Mapping(vec![
        entry("b", inner),
        entry("a", CanonicalValue::Null),
        entry("c", CanonicalValue::Sequence(vec![CanonicalValue::Mapping(vec![
            entry("y", CanonicalValue::Bool(true)),
            entry("x", CanonicalValue::Bool(false)),
        ])])),
    ]);
    assert_eq!(
        to_canonical_json(&outer),
        "{\"a\":null,\"b\":{\"a\":1,\"b\":2,\"c\":3},\"c\":[{\"x\":false,\"y\":true}]}"
    );
}

#[test]
fn sequence_order_kept() {
    let v = CanonicalValue::Sequence(vec![
        CanonicalValue::Text("z".to_string()),
        CanonicalValue::Text("x".to_string()),
        CanonicalValue::Text("y".to_string()),
    ]);
    assert_eq!(to_canonical_json(&v), "[\"z\",\"x\",\"y\"]");
}

#[test]
fn same_text_for_any_insertion_order() {
    let build = |order: &[usize]| {
        let all = [("p", 1i128), ("q", 2), ("energy", -3)];
        let es = order.iter().map(|&i| entry(all[i].0, CanonicalValue::Number(all[i].1))).collect();
        CanonicalValue::Mapping(es)
    };
    let a = to_canonical_json(&build(&[0, 1, 2]));
    let b = to_canonical_json(&build(&[2, 0, 1]));
    let c = to_canonical_json(&build(&[1, 2, 0]));
    assert_eq!(a, "{\"energy\":-3,\"p\":1,\"q\":2}");
    assert_eq!(a, b);
    assert_eq!(a, c);
    assert_eq!(to_canonical_json(&build(&[0, 1, 2])), a);
}

#[test]
fn prefix_and_code_point_order() {
    let v = CanonicalValue::Mapping(vec![
        entry("\u{e9}", CanonicalValue::Number(1)),
        entry("ab", CanonicalValue::Number(2)),
        entry("a", CanonicalValue::Number(3)),
        entry("Z", CanonicalValue::Number(4)),
    ]);
    assert_eq!(to_canonical_json(&v), "{\"Z\":4,\"a\":3,\"ab\":2,\"\u{e9}\":1}");
}

#[test]
fn equal_keys_keep_insertion_order() {
    let v = CanonicalValue::Mapping(vec![
        entry("k", CanonicalValue::Number(1)),
        entry("a", CanonicalValue::Number(0)),
        entry("k", CanonicalValue::Number(2)),
    ]);
    assert_eq!(to_canonical_json(&v), "{\"a\":0,\"k\":1,\"k\":2}");
}

#[test]
fn empty_containers() {
    assert_eq!(to_canonical_json(&CanonicalValue::Mapping(vec![])), "{}");
    assert_eq!(to_canonical_json(&CanonicalValue::Sequence(vec![])), "[]");
    assert_eq!(to_canonical_json(&bytes_value(&[])), "[]");
}

#[test]
fn scalars() {
    assert_eq!(to_canonical_json(&CanonicalValue::Null), "null");
    assert_eq!(to_canonical_json(&CanonicalValue::Bool(true)), "true");
    assert_eq!(to_canonical_json(&CanonicalValue::Bool(false)), "false");
    assert_eq!(to_canonical_json(&CanonicalValue::Number(0)), "0");
    assert_eq!(to_canonical_json(&CanonicalValue::Number(-7)), "-7");
    assert_eq!(to_canonical_json(&CanonicalValue::Number(u64::MAX as i128)), "18446744073709551615");
    assert_eq!(to_canonical_json(&CanonicalValue::Number(i64::MIN as i128)), "-9223372036854775808");
    assert_eq!(
        to_canonical_json(&CanonicalValue::Number(i128::MIN)),
        "-170141183460469231731687303715884105728"
    );
}

#[test]
fn strings_are_escaped() {
    let v = CanonicalValue::Text("a\"b\\c\nd\te\u{1}f\u{1f}\u{7f}\u{e9}/".to_string());
    assert_eq!(to_canonical_json(&v), "\"a\\\"b\\\\c\\nd\\te\\u0001f\\u001f\u{7f}\u{e9}/\"");
    let k = CanonicalValue::Mapping(vec![entry("q\"", CanonicalValue::Null)]);
    assert_eq!(to_canonical_json(&k), "{\"q\\\"\":null}");
}

#[test]
fn entropy_value_with_given_timestamp_text() {
    let v = valid_entropy_proof().to_canonical_value_with("then".to_string());
    assert_eq!(
        to_canonical_json(&v),
        "{\"energy_investment\":1000,\"p_before\":500000,\"q_after\":250000,\"timestamp\":\"then\"}"
    );
}

#[test]
fn nested_insertion_order_irrelevant() {
    let make = |flip: bool| {
        let mut inner = vec![
            entry("beta", CanonicalValue::Sequence(vec![CanonicalValue::Number(2), CanonicalValue::Number(1)])),
            entry("alpha", CanonicalValue::Text("x".to_string())),
        ];
        let mut outer = vec![
            entry("zeta", CanonicalValue::Mapping(vec![])),
            entry("eta", CanonicalValue::Bool(true)),
        ];
        if flip {
            inner.reverse();
            outer.reverse();
        }
        outer.push(entry("mid", CanonicalValue::Mapping(inner)));
        if flip {
            outer.rotate_left(1);
        }
        CanonicalValue::Mapping(outer)
    };
    let a = to_canonical_json(&make(false));
    let b = to_canonical_json(&make(true));
    assert_eq!(a, "{\"eta\":true,\"mid\":{\"alpha\":\"x\",\"beta\":[2,1]},\"zeta\":{}}");
    assert_eq!(a, b);
}
