use nocturne_core::bls::{BlsPublicKey, BlsSignature};
use nocturne_core::encoding::{
    decode_bytes, decode_signature, encode_bytes, encode_public_key, encode_signature,
};
use nocturne_core::error::DeserializationError;

#[test]
fn signature_bytes_round_trip() {
    let sig = BlsSignature::from_bytes(&[9u8; 96]);
    assert_eq!(sig.to_bytes(), [9u8; 96]);
    let pk = BlsPublicKey([4u8; 48]);
    assert_eq!(pk.to_bytes(), [4u8; 48]);
}

#[test]
fn public_key_text() {
    let text = encode_public_key(&BlsPublicKey([1u8; 48]));
    assert_eq!(text, "AQEB".repeat(16));
    assert_eq!(text.len(), 64);
}

#[test]
fn signature_text() {
    let text = encode_signature(&BlsSignature([2u8; 96]));
    assert_eq!(text, "AgIC".repeat(32));
    assert_eq!(text.len(), 128);
}

#[test]
fn url_safe_alphabet_without_padding() {
    assert_eq!(encode_bytes(&[0xfb, 0xff]), "-_8");
    assert_eq!(encode_bytes(&[]), "");
}

#[test]
fn round_trip_supported_sizes() {
    let b32: [u8; 32] = core::array::from_fn(|i| (i * 7) as u8);
    let b48: [u8; 48] = core::array::from_fn(|i| (255 - i * 5) as u8);
    let b96: [u8; 96] = core::array::from_fn(|i| (i * 13 + 1) as u8);
    assert_eq!(decode_bytes::<32>(&encode_bytes(&b32)).unwrap(), b32);
    assert_eq!(decode_bytes::<48>(&encode_bytes(&b48)).unwrap(), b48);
    assert_eq!(decode_bytes::<96>(&encode_bytes(&b96)).unwrap(), b96);
    let sig = BlsSignature(b96);
    assert_eq!(decode_signature(&encode_signature(&sig)).unwrap(), sig);
}

#[test]
fn public_key_text_is_not_a_signature() {
    let text = encode_public_key(&BlsPublicKey([1u8; 48]));
    assert_eq!(text.len(), 64);
    assert_eq!(decode_signature(&text).unwrap_err(), DeserializationError::Length);
    assert_eq!(decode_bytes::<32>(&text).unwrap_err(), DeserializationError::Length);
}

#[test]
fn plus_sign_is_refused() {
    let mut text = encode_public_key(&BlsPublicKey([1u8; 48]));
    text.replace_range(0..1, "+");
    assert_eq!(decode_bytes::<48>(&text).unwrap_err(), DeserializationError::Alphabet);
    assert_eq!(decode_signature("ab/c").unwrap_err(), DeserializationError::Alphabet);
}

#[test]
fn padding_is_refused() {
    assert_eq!(decode_bytes::<1>("AQ==").unwrap_err(), DeserializationError::Alphabet);
    assert_eq!(decode_bytes::<1>("AQ").unwrap(), [1u8]);
}

#[test]
fn impossible_length_is_refused() {
    assert_eq!(decode_bytes::<1>("AQE").unwrap_err(), DeserializationError::Length);
    assert_eq!(decode_bytes::<0>("A").unwrap_err(), DeserializationError::Length);
    assert_eq!(decode_bytes::<0>("").unwrap(), [0u8; 0]);
}
