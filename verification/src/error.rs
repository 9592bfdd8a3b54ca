//! The errors of the library. Errors that come from the operating system,
//! the network or an encoder carry their message as text.
use vstd::prelude::*;

verus! {

/// Why an operation of the library failed.
#[derive(Clone, Debug, PartialEq, Eq)]
pub enum Error {
    NetworkError(String),
    IOError(String),
    Utf8Error(String),
    JsonError(String),
    CacheError(CacheError),
    ExecError(ExecError),
    /// A target, line or record that does not have the expected form.
    InvalidTarget,
    RouteOpError(RouteOpError),
}

/// Why the file cache failed.
#[derive(Clone, Debug, PartialEq, Eq)]
pub enum CacheError {
    IOError(String),
}

/// Why running an external command failed.
#[derive(Clone, Debug, PartialEq, Eq)]
pub enum ExecError {
    ExecError(String),
}

/// Why a route table operation failed.
#[derive(Clone, Debug, PartialEq, Eq)]
pub enum RouteOpError {
    OpError(String),
    NoGatewayError,
    HandleInitError,
    FutureError(String),
    GetInterfaceError(String),
    RouteAlreadyExistsError,
    RouteNotFoundError,
}

} // verus!
