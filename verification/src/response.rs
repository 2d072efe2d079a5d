//! What the front end answers with: the text of an error, the body of a
//! DELETE's answer, and the location of a bucket.

use vstd::prelude::*;
use vstd::string::*;
use crate::data::{Uuid, hex_of};
use crate::error::{Error, ErrorView};

verus! {

/// The text that describes an error.
pub open spec fn error_text(e: ErrorView) -> Seq<char> {
    match e {
        ErrorView::BadRequest(m) => "Bad request: "@ + m,
        ErrorView::Forbidden(m) => "Forbidden: "@ + m,
        ErrorView::NotFound => "Not found"@,
        ErrorView::BlockUnavailable => "Block unavailable"@,
        ErrorView::QuorumUnavailable => "Quorum unavailable"@,
        ErrorView::Transport(m) => "Transport error: "@ + m,
        ErrorView::Internal(m) => "Internal error: "@ + m,
    }
}

/// The text that describes an error.
pub fn error_message(e: &Error) -> (text: String)
    ensures
        text@ == error_text(e@),
{
    match e {
        Error::BadRequest(m) => "Bad request: ".to_string().concat(m.as_str()),
        Error::Forbidden(m) => "Forbidden: ".to_string().concat(m.as_str()),
        Error::NotFound => "Not found".to_string(),
        Error::BlockUnavailable => "Block unavailable".to_string(),
        Error::QuorumUnavailable => "Quorum unavailable".to_string(),
        Error::Transport(m) => "Transport error: ".to_string().concat(m.as_str()),
        Error::Internal(m) => "Internal error: ".to_string().concat(m.as_str()),
    }
}

/// The answer to a request that failed: the status code of the error, and
/// its text followed by a line feed as the body.
pub fn error_response(e: &Error) -> (r: (u16, String))
    ensures
        r.0 == e.status(),
        r.1@ == error_text(e@) + "\n"@,
{
    (e.http_status_code(), error_message(e).concat("\n"))
}

/// The body of the answer to a DELETE: the uuid in hexadecimal, followed
/// by a line feed.
pub fn delete_response_body(version_uuid: &Uuid) -> (body: String)
    ensures
        body@ == hex_of(version_uuid@) + "\n"@,
{
    version_uuid.to_hex().concat("\n")
}

/// The `Location` that the answer to a PUT or HEAD on a bucket carries: a
/// slash and the bucket's name.
pub fn bucket_location(bucket: &str) -> (location: String)
    ensures
        location@ == "/"@ + bucket@,
{
    "/".to_string().concat(bucket)
}

} // verus!
