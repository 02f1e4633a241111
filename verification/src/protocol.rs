//! Standard request and response envelopes applications may exchange as
//! payloads.

use vstd::prelude::*;

verus! {

/// A request envelope: a correlation id and the request body.
#[derive(Debug, Clone)]
pub struct Request<T> {
    /// Caller-chosen correlation id.
    pub id: String,
    /// The request body.
    pub data: T,
}

/// A response envelope: the request's id, whether it succeeded, and either a
/// body or an error message.
#[derive(Debug, Clone)]
pub struct Response<T> {
    /// The id of the request answered.
    pub id: String,
    /// Whether the request succeeded.
    pub success: bool,
    /// The body, present exactly on success.
    pub data: Option<T>,
    /// The error message, present exactly on failure.
    pub error: Option<String>,
}

impl<T> Response<T> {
    /// A successful response carrying `data`.
    pub fn success(id: String, data: T) -> (r: Response<T>)
        ensures
            r.id@ == id@,
            r.success,
            r.data matches Some(d) && d == data,
            r.error is None,
    {
        Response { id, success: true, data: Some(data), error: None }
    }

    /// A failed response carrying `error`.
    pub fn error(id: String, error: String) -> (r: Response<T>)
        ensures
            r.id@ == id@,
            !r.success,
            r.data is None,
            r.error matches Some(e) && e@ == error@,
    {
        Response { id, success: false, data: None, error: Some(error) }
    }
}

} // verus!
