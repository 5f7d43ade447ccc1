//! Content addressing: determinism, key shape, distinctness.

use oracle_bridge::codec::Req;
use oracle_bridge::digest::hex_key;

fn sample_req() -> Req {
    Req {
        client_id: b"front_end".to_vec(),
        oracle_script_id: 1,
        calldata: vec![0, 0, 0, 3, 66, 84, 67, 0, 0, 0, 0, 59, 154, 202, 0],
        ans_count: 4,
        min_count: 2,
    }
}

#[test]
fn digest_is_deterministic() {
    // Two independent hashing runs of the same request: identical 64-char
    // lowercase hex keys.
    let key1 = hex_key(&sample_req());
    let key2 = hex_key(&sample_req());
    assert_eq!(key1, key2);
    assert_eq!(key1.len(), 64);
    assert!(key1.chars().all(|c| c.is_ascii_hexdigit() && !c.is_ascii_uppercase()));
}

#[test]
fn get_hash_is_deterministic() {
    let h1 = sample_req().get_hash();
    let h2 = sample_req().get_hash();
    assert_eq!(h1, h2);
    assert_eq!(h1.len(), 32);
}

#[test]
fn key_is_hex_of_hash() {
    // The key renders exactly the digest bytes, two lowercase hex digits per
    // byte, high nibble first.
    let req = sample_req();
    let hash = req.get_hash();
    let mut manual = String::new();
    for byte in hash.iter() {
        manual.push(char::from_digit((byte >> 4) as u32, 16).unwrap());
        manual.push(char::from_digit((byte & 0x0f) as u32, 16).unwrap());
    }
    assert_eq!(hex_key(&req), manual);
}

#[test]
fn digest_is_not_the_input() {
    // The digest of the request is unrelated to its canonical bytes.
    let req = sample_req();
    let hash = req.get_hash();
    assert_ne!(&req.encode()[..32], &hash[..]);
}

#[test]
fn requests_differing_in_any_field_have_distinct_keys() {
    let base_key = hex_key(&sample_req());

    let mut r = sample_req();
    r.client_id = b"back_end".to_vec();
    let k1 = hex_key(&r);

    let mut r = sample_req();
    r.oracle_script_id = 2;
    let k2 = hex_key(&r);

    let mut r = sample_req();
    r.calldata = vec![1];
    let k3 = hex_key(&r);

    let mut r = sample_req();
    r.ans_count = 5;
    let k4 = hex_key(&r);

    let mut r = sample_req();
    r.min_count = 3;
    let k5 = hex_key(&r);

    let keys = vec![base_key, k1, k2, k3, k4, k5];
    for i in 0..keys.len() {
        for j in 0..keys.len() {
            if i != j {
                assert_ne!(keys[i], keys[j]);
            }
        }
    }
}
