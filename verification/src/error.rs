//! Error kinds surfaced to the host platform.
//!
//! Every failure of the bridge aborts the whole call and is reported as one
//! of these kinds; each kind carries a distinct, stable numeric code.

use vstd::prelude::*;

verus! {

/// The error kinds of the bridge.
///
/// Dispatch errors (`UnknownApiCommand`, the per-index argument errors) are
/// detected before any decode attempt; `FailToDecodeProof` is the one
/// recoverable-by-caller error of the store pipeline.
#[derive(Clone, Copy, Debug, PartialEq, Eq, Structural)]
pub enum Error {
    UnknownBridgeCallCommand,
    UnknownApiCommand,
    FailToDecodeProof,
    MissingArgument0,
    MissingArgument1,
    MissingArgument2,
    MissingArgument3,
    MissingArgument4,
    MissingArgument5,
    InvalidArgument0,
    InvalidArgument1,
    InvalidArgument2,
    InvalidArgument3,
    InvalidArgument4,
    InvalidArgument5,
    UnsupportedNumberOfArguments,
    TestError,
}

impl Error {
    /// The stable numeric code of this error kind.
    pub open spec fn spec_code(self) -> u16 {
        match self {
            Error::UnknownBridgeCallCommand => 1,
            Error::UnknownApiCommand => 2,
            Error::FailToDecodeProof => 3,
            Error::MissingArgument0 => 16,
            Error::MissingArgument1 => 17,
            Error::MissingArgument2 => 18,
            Error::MissingArgument3 => 19,
            Error::MissingArgument4 => 20,
            Error::MissingArgument5 => 21,
            Error::InvalidArgument0 => 22,
            Error::InvalidArgument1 => 23,
            Error::InvalidArgument2 => 24,
            Error::InvalidArgument3 => 25,
            Error::InvalidArgument4 => 26,
            Error::InvalidArgument5 => 27,
            Error::UnsupportedNumberOfArguments => 28,
            Error::TestError => 999,
        }
    }

    /// Numeric code of the error, as handed to the host platform.
    pub fn code(&self) -> (r: u16)
        ensures
            r == self.spec_code(),
    {
        match self {
            Error::UnknownBridgeCallCommand => 1,
            Error::UnknownApiCommand => 2,
            Error::FailToDecodeProof => 3,
            Error::MissingArgument0 => 16,
            Error::MissingArgument1 => 17,
            Error::MissingArgument2 => 18,
            Error::MissingArgument3 => 19,
            Error::MissingArgument4 => 20,
            Error::MissingArgument5 => 21,
            Error::InvalidArgument0 => 22,
            Error::InvalidArgument1 => 23,
            Error::InvalidArgument2 => 24,
            Error::InvalidArgument3 => 25,
            Error::InvalidArgument4 => 26,
            Error::InvalidArgument5 => 27,
            Error::UnsupportedNumberOfArguments => 28,
            Error::TestError => 999,
        }
    }

    /// The error reported when the call argument at position `i` is missing.
    pub open spec fn spec_missing_argument(i: u32) -> Error {
        if i == 0 {
            Error::MissingArgument0
        } else if i == 1 {
            Error::MissingArgument1
        } else if i == 2 {
            Error::MissingArgument2
        } else if i == 3 {
            Error::MissingArgument3
        } else if i == 4 {
            Error::MissingArgument4
        } else if i == 5 {
            Error::MissingArgument5
        } else {
            Error::UnsupportedNumberOfArguments
        }
    }

    /// The error reported when the call argument at position `i` has the
    /// wrong shape.
    pub open spec fn spec_invalid_argument(i: u32) -> Error {
        if i == 0 {
            Error::InvalidArgument0
        } else if i == 1 {
            Error::InvalidArgument1
        } else if i == 2 {
            Error::InvalidArgument2
        } else if i == 3 {
            Error::InvalidArgument3
        } else if i == 4 {
            Error::InvalidArgument4
        } else if i == 5 {
            Error::InvalidArgument5
        } else {
            Error::UnsupportedNumberOfArguments
        }
    }

    pub fn missing_argument(i: u32) -> (r: Error)
        ensures
            r == Error::spec_missing_argument(i),
    {
        match i {
            0 => Error::MissingArgument0,
            1 => Error::MissingArgument1,
            2 => Error::MissingArgument2,
            3 => Error::MissingArgument3,
            4 => Error::MissingArgument4,
            5 => Error::MissingArgument5,
            _ => Error::UnsupportedNumberOfArguments,
        }
    }

    pub fn invalid_argument(i: u32) -> (r: Error)
        ensures
            r == Error::spec_invalid_argument(i),
    {
        match i {
            0 => Error::InvalidArgument0,
            1 => Error::InvalidArgument1,
            2 => Error::InvalidArgument2,
            3 => Error::InvalidArgument3,
            4 => Error::InvalidArgument4,
            5 => Error::InvalidArgument5,
            _ => Error::UnsupportedNumberOfArguments,
        }
    }
}

/// No two error kinds share a numeric code: the code alone identifies the
/// failure to the caller.
pub proof fn lemma_error_codes_distinct(a: Error, b: Error)
    ensures
        a.spec_code() == b.spec_code() ==> a == b,
{
}

} // verus!
