//! Plain shared data shapes: a generic message record and a generic
//! success-or-error response wrapper.

use vstd::prelude::*;

verus! {

/// A plain message record.
#[derive(Debug, Clone, PartialEq)]
pub struct Message {
    pub id: String,
    pub content: String,
    pub timestamp: i64,
}

impl Message {
    /// A record holding exactly the given fields.
    pub fn new(id: String, content: String, timestamp: i64) -> (m: Message)
        ensures
            m.id@ == id@,
            m.content@ == content@,
            m.timestamp == timestamp,
    {
        Message { id, content, timestamp }
    }
}

/// A generic response: either data or an error text, never both.
#[derive(Debug, Clone, PartialEq)]
pub struct Response<T> {
    pub success: bool,
    pub data: Option<T>,
    pub error: Option<String>,
}

impl<T> Response<T> {
    /// A successful response carrying its data.
    pub fn success(data: T) -> (r: Response<T>)
        ensures
            r.success,
            r.data == Some(data),
            r.error is None,
    {
        Response { success: true, data: Some(data), error: None }
    }

    /// A failed response carrying its error text.
    pub fn error(error: String) -> (r: Response<T>)
        ensures
            !r.success,
            r.data is None,
            r.error matches Some(e) && e@ == error@,
    {
        Response { success: false, data: None, error: Some(error) }
    }
}

} // verus!
