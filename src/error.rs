//! The ways a decode or a validation can fail.
use vstd::prelude::*;

use crate::service::Service;

verus! {

#[derive(Debug, Clone, PartialEq, Eq)]
pub enum Iso14229Error {
    /// A field of acceptable length holds a value that is not allowed.
    InvalidParam(String),
    /// The payload is shorter or longer than the layout asks.
    InvalidDataLength { expect: usize, actual: usize },
    /// The service needs a sub-function and none was given.
    SubFunctionError(Service),
    /// The request belongs to another service, or lacks its sub-function.
    ServiceError(Service),
}

/// Why a payload is refused, as the contracts state it.
pub enum Failure {
    Length { expect: nat, actual: nat },
    Param,
    ParamMessage { message: Seq<char> },
}

/// `e` is the error that reports failure `f`.
pub open spec fn reports(e: Iso14229Error, f: Failure) -> bool {
    match f {
        Failure::Length { expect, actual } => e == (Iso14229Error::InvalidDataLength {
            expect: expect as usize,
            actual: actual as usize,
        }),
        Failure::Param => e is InvalidParam,
        Failure::ParamMessage { message } => e matches Iso14229Error::InvalidParam(m) && m@ == message,
    }
}

} // verus!
