//! Dispatch of an inbound long-poll fetch request.
//!
//! The HTTP layer reads the body and hands over plain values: whether the
//! body could be read, whether the method was POST, the request path, and
//! the parameters it managed to parse. This module decides, in the same
//! order as the serving loop, whether the request is rejected (and with
//! which code) or which queue serves it.

use vstd::prelude::*;

use crate::longpull::GetUpdatesParams;
use crate::registry::LongpollRegistry;

verus! {

/// Why a fetch request is rejected.
pub enum FetchError {
    /// The request body could not be read, or a JSON body did not parse.
    BadRequest,
    /// The request used a method other than POST.
    MethodNotAllowed,
    /// No long-poll queue is registered for the request path.
    NotFound,
}

impl FetchError {
    /// The numeric code of this rejection.
    pub open spec fn code_spec(self) -> u16 {
        match self {
            FetchError::BadRequest => 400,
            FetchError::MethodNotAllowed => 405,
            FetchError::NotFound => 404,
        }
    }

    /// The numeric code carried in the `{ok: false, error_code, ...}` reply.
    pub fn error_code(&self) -> (r: u16)
        ensures
            r == self.code_spec(),
    {
        match self {
            FetchError::BadRequest => 400,
            FetchError::MethodNotAllowed => 405,
            FetchError::NotFound => 404,
        }
    }
}

/// Decide how one inbound fetch request is served: an unreadable body is
/// rejected first (400), then a non-POST method (405), then an unparsable
/// JSON body (400), then a path no queue serves (404); otherwise the request
/// polls the registered queue.
pub fn dynamic_handler(
    registry: &LongpollRegistry,
    body_ok: bool,
    is_post: bool,
    path: &String,
    params: Option<GetUpdatesParams>,
) -> (r: Result<usize, FetchError>)
    requires
        registry.wf(),
    ensures
        !body_ok ==> r == Err::<usize, FetchError>(FetchError::BadRequest),
        body_ok && !is_post ==> r == Err::<usize, FetchError>(FetchError::MethodNotAllowed),
        body_ok && is_post && params is None ==> r == Err::<usize, FetchError>(
            FetchError::BadRequest,
        ),
        body_ok && is_post && params is Some && !registry@.contains_key(path@) ==> r == Err::<
            usize,
            FetchError,
        >(FetchError::NotFound),
        body_ok && is_post && params is Some && registry@.contains_key(path@) ==> r == Ok::<
            usize,
            FetchError,
        >(registry@[path@]),
{
    if !body_ok {
        return Err(FetchError::BadRequest);
    }
    if !is_post {
        return Err(FetchError::MethodNotAllowed);
    }
    if params.is_none() {
        return Err(FetchError::BadRequest);
    }
    match registry.lookup(path) {
        Some(id) => Ok(id),
        None => Err(FetchError::NotFound),
    }
}

} // verus!
