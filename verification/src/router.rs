//! The request router's decisions: which operation a request asks for, and
//! whether the caller may perform it.

use vstd::prelude::*;
use vstd::string::*;
use crate::error::{Error, ErrorView};
use crate::path::{bucket_of, key_of, parse_bucket_key};
use crate::query::{
    NumberError, decimal_value, find_param, pairs, param, parse_query, parse_usize, query_params,
};

verus! {

/// The HTTP method of a request.
#[derive(Debug, Clone, Copy, PartialEq, Eq, Structural)]
pub enum Method {
    Head,
    Get,
    Put,
    Delete,
    Post,
    /// Any other method.
    Other,
}

/// What a request's `x-amz-copy-source` header holds.
#[derive(Debug, Clone, PartialEq, Eq)]
pub enum CopySource {
    /// The request has no such header.
    Absent,
    /// The header's value is not text.
    Unreadable,
    /// The header's value.
    Value(String),
}

/// The mathematical value of a `CopySource`.
pub enum CopySourceView {
    Absent,
    Unreadable,
    Value(Seq<char>),
}

impl View for CopySource {
    type V = CopySourceView;

    open spec fn view(&self) -> CopySourceView {
        match self {
            CopySource::Absent => CopySourceView::Absent,
            CopySource::Unreadable => CopySourceView::Unreadable,
            CopySource::Value(s) => CopySourceView::Value(s@),
        }
    }
}

/// The operation that a request asks for.
#[derive(Debug, Clone, PartialEq, Eq)]
pub enum Operation {
    HeadObject,
    GetObject,
    UploadPart { part_number: String, upload_id: String },
    /// Copy from the object that the header names; the caller's right to
    /// read the source bucket is still to be checked with `authorize_copy`.
    CopyObject { source_bucket: String, source_key: Option<String> },
    PutObject,
    AbortMultipartUpload { upload_id: String },
    DeleteObject,
    CreateMultipartUpload,
    CompleteMultipartUpload { upload_id: String },
    /// A PUT or HEAD on a bucket: the bucket exists, answer with its
    /// location.
    BucketExists,
    ListObjects {
        delimiter: String,
        max_keys: usize,
        prefix: String,
        marker: Option<String>,
        urlencode_resp: bool,
    },
}

/// The mathematical value of an `Operation`.
pub enum OperationView {
    HeadObject,
    GetObject,
    UploadPart { part_number: Seq<char>, upload_id: Seq<char> },
    CopyObject { source_bucket: Seq<char>, source_key: Option<Seq<char>> },
    PutObject,
    AbortMultipartUpload { upload_id: Seq<char> },
    DeleteObject,
    CreateMultipartUpload,
    CompleteMultipartUpload { upload_id: Seq<char> },
    BucketExists,
    ListObjects {
        delimiter: Seq<char>,
        max_keys: usize,
        prefix: Seq<char>,
        marker: Option<Seq<char>>,
        urlencode_resp: bool,
    },
}

/// The mathematical value of an optional string.
pub open spec fn text_of(s: Option<String>) -> Option<Seq<char>> {
    match s {
        Some(s) => Some(s@),
        None => None,
    }
}

impl View for Operation {
    type V = OperationView;

    open spec fn view(&self) -> OperationView {
        match self {
            Operation::HeadObject => OperationView::HeadObject,
            Operation::GetObject => OperationView::GetObject,
            Operation::UploadPart { part_number, upload_id } => OperationView::UploadPart {
                part_number: part_number@,
                upload_id: upload_id@,
            },
            Operation::CopyObject { source_bucket, source_key } => OperationView::CopyObject {
                source_bucket: source_bucket@,
                source_key: text_of(*source_key),
            },
            Operation::PutObject => OperationView::PutObject,
            Operation::AbortMultipartUpload { upload_id } => OperationView::AbortMultipartUpload {
                upload_id: upload_id@,
            },
            Operation::DeleteObject => OperationView::DeleteObject,
            Operation::CreateMultipartUpload => OperationView::CreateMultipartUpload,
            Operation::CompleteMultipartUpload {
                upload_id,
            } => OperationView::CompleteMultipartUpload { upload_id: upload_id@ },
            Operation::BucketExists => OperationView::BucketExists,
            Operation::ListObjects {
                delimiter,
                max_keys,
                prefix,
                marker,
                urlencode_resp,
            } => OperationView::ListObjects {
                delimiter: delimiter@,
                max_keys: *max_keys,
                prefix: prefix@,
                marker: text_of(*marker),
                urlencode_resp: *urlencode_resp,
            },
        }
    }
}

/// Whether a method only reads.
pub open spec fn is_read(method: Method) -> bool {
    method == Method::Head || method == Method::Get
}

/// Whether the caller may perform a request of this method: reads need the
/// right to read the bucket, everything else the right to write it.
pub open spec fn allowed(method: Method, can_read: bool, can_write: bool) -> bool {
    if is_read(method) {
        can_read
    } else {
        can_write
    }
}

/// What goes wrong when a text is read as a number, in words.
pub open spec fn number_error_text(e: NumberError) -> Seq<char> {
    match e {
        NumberError::Empty => "cannot parse integer from empty string"@,
        NumberError::InvalidDigit => "invalid digit found in string"@,
        NumberError::TooLarge => "number too large to fit in target type"@,
    }
}

/// The most keys that a listing returns: what `max-keys` asks for, 1000
/// where it is not given, and a refusal where it is not a number.
pub open spec fn max_keys_of(params: Seq<(Seq<char>, Seq<char>)>) -> Result<usize, ErrorView> {
    match param(params, "max-keys"@) {
        None => Ok(1000),
        Some(text) => match decimal_value(vstd::utf8::encode_utf8(text), usize::MAX as nat) {
            Ok(n) => Ok(n as usize),
            Err(e) => Err(
                ErrorView::BadRequest("Invalid value for max-keys: "@ + number_error_text(e)),
            ),
        },
    }
}

/// The operation that a request on an object asks for.
pub open spec fn object_operation(
    method: Method,
    params: Seq<(Seq<char>, Seq<char>)>,
    copy_source: CopySourceView,
) -> Result<OperationView, ErrorView> {
    match method {
        Method::Head => Ok(OperationView::HeadObject),
        Method::Get => Ok(OperationView::GetObject),
        Method::Put => {
            if param(params, "partnumber"@) is Some && param(params, "uploadid"@) is Some {
                Ok(
                    OperationView::UploadPart {
                        part_number: param(params, "partnumber"@)->0,
                        upload_id: param(params, "uploadid"@)->0,
                    },
                )
            } else {
                match copy_source {
                    CopySourceView::Absent => Ok(OperationView::PutObject),
                    CopySourceView::Unreadable => Err(
                        ErrorView::BadRequest("Invalid HTTP header value"@),
                    ),
                    CopySourceView::Value(source) => Ok(
                        OperationView::CopyObject {
                            source_bucket: bucket_of(source),
                            source_key: key_of(source),
                        },
                    ),
                }
            }
        },
        Method::Delete => {
            match param(params, "uploadid"@) {
                Some(upload_id) => Ok(OperationView::AbortMultipartUpload { upload_id }),
                None => Ok(OperationView::DeleteObject),
            }
        },
        Method::Post => {
            if param(params, "uploads"@) is Some {
                Ok(OperationView::CreateMultipartUpload)
            } else {
                match param(params, "uploadid"@) {
                    Some(upload_id) => Ok(OperationView::CompleteMultipartUpload { upload_id }),
                    None => Err(
                        ErrorView::BadRequest("Not a CreateMultipartUpload call, what is it?"@),
                    ),
                }
            }
        },
        Method::Other => Err(ErrorView::BadRequest("Invalid method"@)),
    }
}

/// The operation that a request on a bucket asks for.
pub open spec fn bucket_operation(
    method: Method,
    params: Seq<(Seq<char>, Seq<char>)>,
) -> Result<OperationView, ErrorView> {
    match method {
        Method::Put | Method::Head => Ok(OperationView::BucketExists),
        Method::Delete => Err(
            ErrorView::Forbidden(
                "Cannot delete buckets using S3 api, please talk to Garage directly"@,
            ),
        ),
        Method::Get => {
            match param(params, "prefix"@) {
                None => Err(ErrorView::BadRequest("Not a list call, so what is it?"@)),
                Some(prefix) => match max_keys_of(params) {
                    Err(e) => Err(e),
                    Ok(max_keys) => Ok(
                        OperationView::ListObjects {
                            delimiter: match param(params, "delimiter"@) {
                                Some(d) => d,
                                None => Seq::empty(),
                            },
                            max_keys,
                            prefix,
                            marker: param(params, "marker"@),
                            urlencode_resp: param(params, "encoding-type"@) == Some("url"@),
                        },
                    ),
                },
            }
        },
        _ => Err(ErrorView::BadRequest("Invalid method"@)),
    }
}

/// What a request asks for, once its bucket is known and the caller's
/// rights on that bucket are: a refusal if the caller may not perform it,
/// else the operation that the method, the key, the query string and the
/// copy-source header name.
pub open spec fn routed(
    method: Method,
    has_key: bool,
    query: Option<Seq<char>>,
    copy_source: CopySourceView,
    can_read: bool,
    can_write: bool,
) -> Result<OperationView, ErrorView> {
    if !allowed(method, can_read, can_write) {
        Err(ErrorView::Forbidden("Operation is not allowed for this key."@))
    } else if has_key {
        object_operation(method, query_params(query), copy_source)
    } else {
        bucket_operation(method, query_params(query))
    }
}

/// The mathematical value of a routing decision.
pub open spec fn decision(r: Result<Operation, Error>) -> Result<OperationView, ErrorView> {
    match r {
        Ok(op) => Ok(op@),
        Err(e) => Err(e@),
    }
}

/// The bucket and the key that a request path names. A path that names no
/// bucket is refused: operations on the set of buckets are not served.
pub fn resolve_target(path: &str) -> (r: Result<(String, Option<String>), Error>)
    ensures
        match r {
            Ok((bucket, key)) => bucket_of(path@).len() > 0 && bucket@ == bucket_of(path@)
                && text_of(key) == key_of(path@),
            Err(e) => bucket_of(path@).len() == 0 && e@ == ErrorView::Forbidden(
                "Operations on buckets not allowed"@,
            ),
        },
{
    match parse_bucket_key(path) {
        Ok((bucket, key)) => {
            if bucket.unicode_len() == 0 {
                return Err(Error::Forbidden("Operations on buckets not allowed".to_string()));
            }
            let key = match key {
                Some(k) => Some(k.to_string()),
                None => None,
            };
            Ok((bucket.to_string(), key))
        },
        Err(e) => Err(e),
    }
}

/// Reads `max-keys`.
fn max_keys(params: &Vec<(String, String)>) -> (r: Result<usize, Error>)
    ensures
        match r {
            Ok(n) => max_keys_of(pairs(params@)) == Ok::<usize, ErrorView>(n),
            Err(e) => max_keys_of(pairs(params@)) == Err::<usize, ErrorView>(e@),
        },
{
    match find_param(params, "max-keys") {
        None => Ok(1000),
        Some(text) => match parse_usize(text.as_str()) {
            Ok(n) => Ok(n),
            Err(e) => {
                let mut message = "Invalid value for max-keys: ".to_string();
                let reason = match e {
                    NumberError::Empty => "cannot parse integer from empty string",
                    NumberError::InvalidDigit => "invalid digit found in string",
                    NumberError::TooLarge => "number too large to fit in target type",
                };
                message.append(reason);
                Err(Error::BadRequest(message))
            },
        },
    }
}

/// A copy of an optional string.
fn copy_text(s: Option<&String>) -> (r: Option<String>)
    ensures
        text_of(r) == match s {
            Some(s) => Some(s@),
            None => None,
        },
{
    match s {
        Some(s) => Some(s.clone()),
        None => None,
    }
}

/// Chooses the operation for a request on an object.
fn route_object(method: Method, params: &Vec<(String, String)>, copy_source: &CopySource) -> (r:
    Result<Operation, Error>)
    ensures
        decision(r) == object_operation(method, pairs(params@), copy_source@),
{
    match method {
        Method::Head => Ok(Operation::HeadObject),
        Method::Get => Ok(Operation::GetObject),
        Method::Put => {
            let part_number = find_param(params, "partnumber");
            let upload_id = find_param(params, "uploadid");
            match (part_number, upload_id) {
                (Some(part_number), Some(upload_id)) => Ok(
                    Operation::UploadPart {
                        part_number: part_number.clone(),
                        upload_id: upload_id.clone(),
                    },
                ),
                _ => match copy_source {
                    CopySource::Absent => Ok(Operation::PutObject),
                    CopySource::Unreadable => Err(
                        Error::BadRequest("Invalid HTTP header value".to_string()),
                    ),
                    CopySource::Value(source) => match parse_bucket_key(source.as_str()) {
                        Ok((source_bucket, source_key)) => {
                            let source_key = match source_key {
                                Some(k) => Some(k.to_string()),
                                None => None,
                            };
                            Ok(
                                Operation::CopyObject {
                                    source_bucket: source_bucket.to_string(),
                                    source_key,
                                },
                            )
                        },
                        Err(e) => Err(e),
                    },
                },
            }
        },
        Method::Delete => match find_param(params, "uploadid") {
            Some(upload_id) => Ok(Operation::AbortMultipartUpload { upload_id: upload_id.clone() }),
            None => Ok(Operation::DeleteObject),
        },
        Method::Post => {
            if find_param(params, "uploads").is_some() {
                Ok(Operation::CreateMultipartUpload)
            } else {
                match find_param(params, "uploadid") {
                    Some(upload_id) => Ok(
                        Operation::CompleteMultipartUpload { upload_id: upload_id.clone() },
                    ),
                    None => Err(
                        Error::BadRequest(
                            "Not a CreateMultipartUpload call, what is it?".to_string(),
                        ),
                    ),
                }
            }
        },
        Method::Other => Err(Error::BadRequest("Invalid method".to_string())),
    }
}

/// Chooses the operation for a request on a bucket.
fn route_bucket(method: Method, params: &Vec<(String, String)>) -> (r: Result<Operation, Error>)
    ensures
        decision(r) == bucket_operation(method, pairs(params@)),
{
    match method {
        Method::Put | Method::Head => Ok(Operation::BucketExists),
        Method::Delete => Err(
            Error::Forbidden(
                "Cannot delete buckets using S3 api, please talk to Garage directly".to_string(),
            ),
        ),
        Method::Get => {
            let prefix = match find_param(params, "prefix") {
                Some(p) => p.clone(),
                None => {
                    return Err(Error::BadRequest("Not a list call, so what is it?".to_string()));
                },
            };
            let delimiter = match find_param(params, "delimiter") {
                Some(d) => d.clone(),
                None => String::new(),
            };
            let max_keys = match max_keys(params) {
                Ok(n) => n,
                Err(e) => {
                    return Err(e);
                },
            };
            let urlencode_resp = match find_param(params, "encoding-type") {
                Some(v) => {
                    let url = "url".to_string();
                    *v == url
                },
                None => false,
            };
            let marker = copy_text(find_param(params, "marker"));
            Ok(Operation::ListObjects { delimiter, max_keys, prefix, marker, urlencode_resp })
        },
        _ => Err(Error::BadRequest("Invalid method".to_string())),
    }
}

/// Routes a request whose bucket is known.
///
/// `has_key` says whether the path names a key besides the bucket;
/// `can_read` and `can_write` are the caller's rights on the bucket. The
/// request is refused if the caller lacks the right that its method needs;
/// else the operation is chosen from the method, the query string and the
/// copy-source header.
pub fn route(
    method: Method,
    has_key: bool,
    query: Option<&str>,
    copy_source: &CopySource,
    can_read: bool,
    can_write: bool,
) -> (r: Result<Operation, Error>)
    ensures
        decision(r) == routed(
            method,
            has_key,
            match query {
                Some(q) => Some(q@),
                None => None,
            },
            copy_source@,
            can_read,
            can_write,
        ),
{
    let allowed = match method {
        Method::Head | Method::Get => can_read,
        _ => can_write,
    };
    if !allowed {
        return Err(Error::Forbidden("Operation is not allowed for this key.".to_string()));
    }
    let params = parse_query(query);
    if has_key {
        route_object(method, &params, copy_source)
    } else {
        route_bucket(method, &params)
    }
}

/// What a copy reads from, once the caller's right to read the source
/// bucket is known: the source key; a refusal if the caller may not read
/// the bucket; and a bad request if the header names a bucket only.
pub open spec fn copy_source_key(
    source_bucket: Seq<char>,
    source_key: Option<Seq<char>>,
    can_read_source: bool,
) -> Result<Seq<char>, ErrorView> {
    if !can_read_source {
        Err(
            ErrorView::Forbidden(
                "Reading from bucket "@ + source_bucket + " not allowed for this key"@,
            ),
        )
    } else {
        match source_key {
            None => Err(ErrorView::BadRequest("No source key specified"@)),
            Some(k) => Ok(k),
        }
    }
}

/// Checks a copy against the caller's right to read the source bucket, and
/// gives the key to copy from.
pub fn authorize_copy(source_bucket: &str, source_key: Option<String>, can_read_source: bool) -> (r:
    Result<String, Error>)
    ensures
        match r {
            Ok(k) => copy_source_key(source_bucket@, text_of(source_key), can_read_source) == Ok::<
                Seq<char>,
                ErrorView,
            >(k@),
            Err(e) => copy_source_key(source_bucket@, text_of(source_key), can_read_source)
                == Err::<Seq<char>, ErrorView>(e@),
        },
{
    if !can_read_source {
        let mut message = "Reading from bucket ".to_string();
        message.append(source_bucket);
        message.append(" not allowed for this key");
        return Err(Error::Forbidden(message));
    }
    match source_key {
        None => Err(Error::BadRequest("No source key specified".to_string())),
        Some(k) => Ok(k),
    }
}

} // verus!
