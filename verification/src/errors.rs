//! Error kinds shared by the whole framework, and their mapping to HTTP
//! status codes.

use vstd::prelude::*;

verus! {

/// Every failure a route registration, a hook, or a handler can report.
///
/// `NotFound` carries the path (as bytes) that no route matched;
/// `ShouldRedirect` carries the redirect target; `Break`, `Fatal` and
/// `Custom` carry a reason chosen by the module that raised them.
#[derive(Debug, PartialEq)]
pub enum Error {
    NotFound(Vec<u8>),
    InvalidConfig,
    InvalidRouterConfig,
    FileNotExist,
    ShouldRedirect(Vec<u8>),
    Break(Vec<u8>),
    Fatal(Vec<u8>),
    Custom(Vec<u8>),
}

/// The status code each error kind maps to when it surfaces as a response:
/// missing things are 404, redirects 302, a voluntary `Break` 200, and
/// everything else a server error 500.
pub open spec fn spec_status_of(e: Error) -> u16 {
    match e {
        Error::NotFound(_) => 404,
        Error::InvalidConfig => 500,
        Error::InvalidRouterConfig => 500,
        Error::FileNotExist => 404,
        Error::ShouldRedirect(_) => 302,
        Error::Break(_) => 200,
        Error::Fatal(_) => 500,
        Error::Custom(_) => 500,
    }
}

/// Status code of an error, as `spec_status_of` states.
pub fn status_of(e: &Error) -> (r: u16)
    ensures
        r == spec_status_of(*e),
{
    match e {
        Error::NotFound(_) => 404,
        Error::InvalidConfig => 500,
        Error::InvalidRouterConfig => 500,
        Error::FileNotExist => 404,
        Error::ShouldRedirect(_) => 302,
        Error::Break(_) => 200,
        Error::Fatal(_) => 500,
        Error::Custom(_) => 500,
    }
}

} // verus!
