//! Storage gate: initialization, idempotent storage, overwrite, failure.

use oracle_bridge::codec::{MyPacket, Req, Res};
use oracle_bridge::digest::hex_key;
use oracle_bridge::error::Error;
use oracle_bridge::gate::{handle_invocation, relay_and_verify, StoreState};
use oracle_bridge::store::Store;

fn sample_packet() -> MyPacket {
    MyPacket {
        req: Req {
            client_id: b"front_end".to_vec(),
            oracle_script_id: 1,
            calldata: vec![0, 0, 0, 3, 66, 84, 67, 0, 0, 0, 0, 59, 154, 202, 0],
            ans_count: 4,
            min_count: 2,
        },
        res: Res {
            client_id: b"front_end".to_vec(),
            request_id: 13565,
            ans_count: 4,
            request_time: 1592549507,
            resolve_time: 1592549511,
            resolve_status: 1,
            result: vec![0, 0, 0, 0, 0, 0, 0, 0],
        },
    }
}

#[test]
fn first_call_initializes_without_touching_the_store() {
    let mut state = StoreState { initialized: false };
    let mut store = Store::new();
    let proof_bytes = sample_packet().encode();

    let r = handle_invocation(&mut state, &mut store, &proof_bytes);
    assert!(r.is_ok());
    assert!(state.initialized);
    assert_eq!(store.len(), 0);

    let r = handle_invocation(&mut state, &mut store, &proof_bytes);
    assert!(r.is_ok());
    assert!(state.initialized);
    assert_eq!(store.len(), 1);
    let key = hex_key(&sample_packet().req);
    assert_eq!(store.get(&key).unwrap(), &proof_bytes);
}

#[test]
fn storing_twice_keeps_one_entry() {
    let mut store = Store::new();
    let proof_bytes = sample_packet().encode();

    relay_and_verify(&mut store, &proof_bytes).unwrap();
    relay_and_verify(&mut store, &proof_bytes).unwrap();

    assert_eq!(store.len(), 1);
    let key = hex_key(&sample_packet().req);
    assert_eq!(store.get(&key).unwrap(), &proof_bytes);
}

#[test]
fn same_request_different_response_overwrites() {
    let mut store = Store::new();
    let first = sample_packet();
    let mut second = sample_packet();
    second.res.resolve_time = 1592549999;
    second.res.result = vec![7, 7];

    let first_bytes = first.encode();
    let second_bytes = second.encode();
    relay_and_verify(&mut store, &first_bytes).unwrap();
    relay_and_verify(&mut store, &second_bytes).unwrap();

    // Both packets share one request, so one key: last write wins.
    assert_eq!(store.len(), 1);
    let key = hex_key(&first.req);
    assert_eq!(store.get(&key).unwrap(), &second_bytes);
}

#[test]
fn distinct_requests_get_distinct_entries() {
    let mut store = Store::new();
    let first = sample_packet();
    let mut second = sample_packet();
    second.req.oracle_script_id = 2;

    let first_bytes = first.encode();
    let second_bytes = second.encode();
    relay_and_verify(&mut store, &first_bytes).unwrap();
    relay_and_verify(&mut store, &second_bytes).unwrap();

    assert_eq!(store.len(), 2);
    assert_eq!(store.get(&hex_key(&first.req)).unwrap(), &first_bytes);
    assert_eq!(store.get(&hex_key(&second.req)).unwrap(), &second_bytes);
}

#[test]
fn decode_failure_leaves_store_untouched() {
    let mut store = Store::new();
    let good = sample_packet().encode();
    relay_and_verify(&mut store, &good).unwrap();
    assert_eq!(store.len(), 1);

    // A proof truncated mid-field is rejected and nothing is written.
    let truncated: Vec<u8> = good[..good.len() - 3].to_vec();
    let r = relay_and_verify(&mut store, &truncated);
    assert_eq!(r.unwrap_err(), Error::FailToDecodeProof);
    assert_eq!(store.len(), 1);
    let key = hex_key(&sample_packet().req);
    assert_eq!(store.get(&key).unwrap(), &good);
}

#[test]
fn store_get_put_semantics() {
    let mut store = Store::new();
    assert_eq!(store.len(), 0);
    assert!(store.get(&String::from("missing")).is_none());

    store.put(String::from("k1"), vec![1, 2, 3]);
    store.put(String::from("k2"), vec![4]);
    assert_eq!(store.len(), 2);
    assert_eq!(store.get(&String::from("k1")).unwrap(), &vec![1, 2, 3]);
    assert_eq!(store.get(&String::from("k2")).unwrap(), &vec![4]);

    store.put(String::from("k1"), vec![9]);
    assert_eq!(store.len(), 2);
    assert_eq!(store.get(&String::from("k1")).unwrap(), &vec![9]);
}
