use pngme::xor_decode;
use pngme::xor_encode;
use pngme::CipherError;

#[test]
fn test_cipher_round_trip() {
    let message = "This is where your secret message will be!";
    let encoded = xor_encode(message.as_bytes(), "secret");
    assert_ne!(encoded, message.as_bytes());
    let decoded = xor_decode(&encoded, "secret").unwrap();
    assert_eq!(decoded, message);
}

#[test]
fn test_cipher_round_trip_single_byte_key() {
    let message = "hidden";
    let encoded = xor_encode(message.as_bytes(), "k");
    let decoded = xor_decode(&encoded, "k").unwrap();
    assert_eq!(decoded, message);
}

#[test]
fn test_cipher_known_transform() {
    // 'a' is 0x61; XOR with key byte 'a' zeroes every byte
    let encoded = xor_encode("aaaa".as_bytes(), "a");
    assert_eq!(encoded, vec![0, 0, 0, 0]);
    // key repeats cyclically over the data
    let encoded = xor_encode(&[1, 2, 3, 4], "ab");
    assert_eq!(encoded, vec![1 ^ 0x61, 2 ^ 0x62, 3 ^ 0x61, 4 ^ 0x62]);
}

#[test]
fn test_cipher_empty_data() {
    let encoded = xor_encode(&[], "key");
    assert_eq!(encoded, Vec::<u8>::new());
    assert_eq!(xor_decode(&[], "key").unwrap(), "");
}

#[test]
fn test_cipher_decode_invalid_utf8() {
    // 0xff XOR 0x00-free key: pick data so the transform yields 0xff
    let key = "k";
    let data = [0xffu8 ^ 0x6b];
    let r = xor_decode(&data, key);
    assert_eq!(r, Err(CipherError::InvalidUtf8));
}

#[test]
fn test_wrong_key_does_not_round_trip() {
    let message = "attack at dawn";
    let encoded = xor_encode(message.as_bytes(), "right");
    match xor_decode(&encoded, "wrong") {
        Ok(s) => assert_ne!(s, message),
        Err(CipherError::InvalidUtf8) => {}
    }
}
