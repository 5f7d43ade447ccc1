//! Error kinds, their stable codes, and call dispatch.

use oracle_bridge::api::Api;
use oracle_bridge::error::Error;

#[test]
fn missing_argument_maps_each_index() {
    assert_eq!(Error::missing_argument(0), Error::MissingArgument0);
    assert_eq!(Error::missing_argument(1), Error::MissingArgument1);
    assert_eq!(Error::missing_argument(2), Error::MissingArgument2);
    assert_eq!(Error::missing_argument(3), Error::MissingArgument3);
    assert_eq!(Error::missing_argument(4), Error::MissingArgument4);
    assert_eq!(Error::missing_argument(5), Error::MissingArgument5);
    assert_eq!(Error::missing_argument(6), Error::UnsupportedNumberOfArguments);
    assert_eq!(Error::missing_argument(1000), Error::UnsupportedNumberOfArguments);
}

#[test]
fn invalid_argument_maps_each_index() {
    assert_eq!(Error::invalid_argument(0), Error::InvalidArgument0);
    assert_eq!(Error::invalid_argument(1), Error::InvalidArgument1);
    assert_eq!(Error::invalid_argument(2), Error::InvalidArgument2);
    assert_eq!(Error::invalid_argument(3), Error::InvalidArgument3);
    assert_eq!(Error::invalid_argument(4), Error::InvalidArgument4);
    assert_eq!(Error::invalid_argument(5), Error::InvalidArgument5);
    assert_eq!(Error::invalid_argument(6), Error::UnsupportedNumberOfArguments);
    assert_eq!(Error::invalid_argument(7), Error::UnsupportedNumberOfArguments);
}

#[test]
fn codes_are_stable() {
    assert_eq!(Error::UnknownBridgeCallCommand.code(), 1);
    assert_eq!(Error::UnknownApiCommand.code(), 2);
    assert_eq!(Error::FailToDecodeProof.code(), 3);
    assert_eq!(Error::MissingArgument0.code(), 16);
    assert_eq!(Error::MissingArgument5.code(), 21);
    assert_eq!(Error::InvalidArgument0.code(), 22);
    assert_eq!(Error::InvalidArgument5.code(), 27);
    assert_eq!(Error::UnsupportedNumberOfArguments.code(), 28);
    assert_eq!(Error::TestError.code(), 999);
}

#[test]
fn codes_are_distinct() {
    let all = vec![
        Error::UnknownBridgeCallCommand,
        Error::UnknownApiCommand,
        Error::FailToDecodeProof,
        Error::MissingArgument0,
        Error::MissingArgument1,
        Error::MissingArgument2,
        Error::MissingArgument3,
        Error::MissingArgument4,
        Error::MissingArgument5,
        Error::InvalidArgument0,
        Error::InvalidArgument1,
        Error::InvalidArgument2,
        Error::InvalidArgument3,
        Error::InvalidArgument4,
        Error::InvalidArgument5,
        Error::UnsupportedNumberOfArguments,
        Error::TestError,
    ];
    for i in 0..all.len() {
        for j in 0..all.len() {
            if i != j {
                assert_ne!(all[i].code(), all[j].code());
            }
        }
    }
}

#[test]
fn dispatch_accepts_the_relay_selector() {
    let proof_bytes = vec![1, 2, 3];
    let api = Api::from_args(&String::from("relay_and_verify"), proof_bytes.clone()).unwrap();
    assert!(matches!(api, Api::RELAY_AND_VERIFY(p) if p == proof_bytes));
}

#[test]
fn dispatch_rejects_unknown_selectors() {
    let r = Api::from_args(&String::from("no_such_method"), vec![]);
    assert_eq!(r.unwrap_err(), Error::UnknownApiCommand);

    let r = Api::from_args(&String::from(""), vec![]);
    assert_eq!(r.unwrap_err(), Error::UnknownApiCommand);
}
