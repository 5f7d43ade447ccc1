//! Call dispatch: mapping an operation selector to an operation.
//!
//! The host adapter fetches the raw call arguments (selector at position 0,
//! proof buffer at position 1) and hands them here; argument fetching itself
//! is host work and stays outside the library.

use vstd::prelude::*;

use crate::error::Error;

verus! {

/// The operations of the bridge's call interface.
#[allow(non_camel_case_types)]
#[derive(Debug)]
pub enum Api {
    RELAY_AND_VERIFY(Vec<u8>),
}

impl Api {
    /// Selects the operation named by `method_name`, carrying the proof
    /// buffer with it; an unrecognized selector is rejected with
    /// `UnknownApiCommand` before any decode attempt.
    pub fn from_args(method_name: &String, proof_bytes: Vec<u8>) -> (r: Result<Api, Error>)
        ensures
            method_name@ == "relay_and_verify"@ ==> (r matches Ok(a) && a matches
                Api::RELAY_AND_VERIFY(p) && p@ == proof_bytes@),
            method_name@ != "relay_and_verify"@ ==> r == Err::<Api, Error>(
                Error::UnknownApiCommand,
            ),
    {
        let target: String = "relay_and_verify".to_owned();
        if method_name.eq(&target) {
            Ok(Api::RELAY_AND_VERIFY(proof_bytes))
        } else {
            Err(Error::UnknownApiCommand)
        }
    }
}

} // verus!
