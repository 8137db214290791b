//! HTTP status handling: exhaustive matching over response categories.

use vstd::prelude::*;

verus! {

/// The response categories the client distinguishes.
#[derive(Debug, Clone, Copy, PartialEq, Eq, Structural)]
pub enum HttpStatus {
    Okay,
    NotFound,
    Unauthorized,
    InternalServerError,
    BadRequest,
}

/// The numeric code of each status.
pub fn status_code(status: HttpStatus) -> (r: u16)
    ensures
        status is Okay ==> r == 200,
        status is NotFound ==> r == 404,
        status is Unauthorized ==> r == 401,
        status is InternalServerError ==> r == 500,
        status is BadRequest ==> r == 400,
{
    match status {
        HttpStatus::Okay => 200,
        HttpStatus::NotFound => 404,
        HttpStatus::Unauthorized => 401,
        HttpStatus::InternalServerError => 500,
        HttpStatus::BadRequest => 400,
    }
}

/// Only a server error warrants a retry.
pub fn should_retry(status: HttpStatus) -> (r: bool)
    ensures
        r == (status is InternalServerError),
{
    match status {
        HttpStatus::InternalServerError => true,
        _ => false,
    }
}

} // verus!
