use objstore::data::Uuid;
use objstore::error::Error;
use objstore::path::parse_bucket_key;
use objstore::query::{find_param, parse_query, parse_usize, NumberError};
use objstore::response::{bucket_location, delete_response_body, error_message, error_response};
use objstore::router::{authorize_copy, resolve_target, route, CopySource, Method, Operation};

fn s(t: &str) -> String {
    t.to_string()
}

fn bad_request(r: Result<Operation, Error>) -> String {
    match r {
        Err(Error::BadRequest(m)) => m,
        other => panic!("unexpected: {:?}", other),
    }
}

fn forbidden(r: Result<Operation, Error>) -> String {
    match r {
        Err(Error::Forbidden(m)) => m,
        other => panic!("unexpected: {:?}", other),
    }
}

#[test]
fn path_with_bucket_and_key() {
    let (bucket, key) = parse_bucket_key("/b/k/x").unwrap();
    assert_eq!(bucket, "b");
    assert_eq!(key, Some("k/x"));
}

#[test]
fn path_with_bucket_only() {
    assert_eq!(parse_bucket_key("/bucket").unwrap(), ("bucket", None));
    assert_eq!(parse_bucket_key("bucket").unwrap(), ("bucket", None));
}

#[test]
fn path_with_trailing_slash_has_an_empty_key() {
    assert_eq!(parse_bucket_key("/bucket/").unwrap(), ("bucket", Some("")));
}

#[test]
fn path_loses_all_leading_slashes() {
    assert_eq!(parse_bucket_key("///b//k").unwrap(), ("b", Some("/k")));
    assert_eq!(parse_bucket_key("").unwrap(), ("", None));
    assert_eq!(parse_bucket_key("///").unwrap(), ("", None));
}

#[test]
fn path_may_hold_any_text() {
    assert_eq!(parse_bucket_key("/bücket/schlüssel/ä").unwrap(), ("bücket", Some("schlüssel/ä")));
}

#[test]
fn a_path_without_a_bucket_is_forbidden() {
    for path in ["", "/", "///"] {
        match resolve_target(path) {
            Err(Error::Forbidden(m)) => assert_eq!(m, "Operations on buckets not allowed"),
            other => panic!("unexpected: {:?}", other),
        }
    }
    assert_eq!(resolve_target("/b/k").unwrap(), (s("b"), Some(s("k"))));
    assert_eq!(resolve_target("/b").unwrap(), (s("b"), None));
}

#[test]
fn query_pairs_are_decoded_and_names_lower_cased() {
    let params = parse_query(Some("UploadId=A%20b&x=1+2&MAX-KEYS=7&empty"));
    assert_eq!(
        params,
        vec![(s("uploadid"), s("A b")), (s("x"), s("1 2")), (s("max-keys"), s("7")), (s("empty"), s(""))]
    );
    assert!(parse_query(None).is_empty());
    assert!(parse_query(Some("")).is_empty());
}

#[test]
fn the_last_value_of_a_parameter_counts() {
    let params = parse_query(Some("a=1&b=2&A=3"));
    assert_eq!(find_param(&params, "a"), Some(&s("3")));
    assert_eq!(find_param(&params, "b"), Some(&s("2")));
    assert_eq!(find_param(&params, "c"), None);
}

#[test]
fn decimal_numbers() {
    assert_eq!(parse_usize("0"), Ok(0));
    assert_eq!(parse_usize("1000"), Ok(1000));
    assert_eq!(parse_usize("+42"), Ok(42));
    assert_eq!(parse_usize("007"), Ok(7));
    assert_eq!(parse_usize(&usize::MAX.to_string()), Ok(usize::MAX));
    assert_eq!(parse_usize(""), Err(NumberError::Empty));
    assert_eq!(parse_usize("+"), Err(NumberError::InvalidDigit));
    assert_eq!(parse_usize("-"), Err(NumberError::InvalidDigit));
    assert_eq!(parse_usize("-1"), Err(NumberError::InvalidDigit));
    assert_eq!(parse_usize("12a"), Err(NumberError::InvalidDigit));
    assert_eq!(parse_usize(" 1"), Err(NumberError::InvalidDigit));
    assert_eq!(parse_usize("١"), Err(NumberError::InvalidDigit));
    assert_eq!(parse_usize("99999999999999999999999"), Err(NumberError::TooLarge));
    assert_eq!(parse_usize("99999999999999999999999x"), Err(NumberError::TooLarge));
    let above = format!("{}0", usize::MAX);
    assert_eq!(parse_usize(&above), Err(NumberError::TooLarge));
}

#[test]
fn decimal_numbers_agree_with_the_standard_parser() {
    for text in ["", "+", "-", "0", "+0", "18446744073709551615", "18446744073709551616", "1x", "x1", "++1", "9".repeat(30).as_str()] {
        let std = text.parse::<usize>();
        let ours = parse_usize(text);
        match (std, ours) {
            (Ok(a), Ok(b)) => assert_eq!(a, b),
            (Err(e), Err(k)) => {
                let want = match k {
                    NumberError::Empty => "cannot parse integer from empty string",
                    NumberError::InvalidDigit => "invalid digit found in string",
                    NumberError::TooLarge => "number too large to fit in target type",
                };
                assert_eq!(e.to_string(), want);
            }
            (a, b) => panic!("{:?} against {:?} on {:?}", a, b, text),
        }
    }
}

#[test]
fn reads_need_the_right_to_read_and_writes_the_right_to_write() {
    let none = CopySource::Absent;
    for m in [Method::Head, Method::Get] {
        assert!(route(m, true, None, &none, true, false).is_ok());
        assert_eq!(
            forbidden(route(m, true, None, &none, false, true)),
            "Operation is not allowed for this key."
        );
    }
    for m in [Method::Put, Method::Delete, Method::Post, Method::Other] {
        assert_eq!(
            forbidden(route(m, true, None, &none, true, false)),
            "Operation is not allowed for this key."
        );
    }
    assert!(route(Method::Put, true, None, &none, false, true).is_ok());
}

#[test]
fn object_requests() {
    let none = CopySource::Absent;
    let go = |m: Method, q: Option<&str>| route(m, true, q, &none, true, true);
    assert_eq!(go(Method::Head, None), Ok(Operation::HeadObject));
    assert_eq!(go(Method::Get, Some("prefix=x")), Ok(Operation::GetObject));
    assert_eq!(go(Method::Put, None), Ok(Operation::PutObject));
    assert_eq!(go(Method::Put, Some("partNumber=3")), Ok(Operation::PutObject));
    assert_eq!(
        go(Method::Put, Some("partNumber=3&uploadId=u")),
        Ok(Operation::UploadPart { part_number: s("3"), upload_id: s("u") })
    );
    assert_eq!(go(Method::Delete, None), Ok(Operation::DeleteObject));
    assert_eq!(
        go(Method::Delete, Some("uploadId=u")),
        Ok(Operation::AbortMultipartUpload { upload_id: s("u") })
    );
    assert_eq!(go(Method::Post, Some("uploads")), Ok(Operation::CreateMultipartUpload));
    assert_eq!(go(Method::Post, Some("uploads&uploadId=u")), Ok(Operation::CreateMultipartUpload));
    assert_eq!(
        go(Method::Post, Some("uploadId=u")),
        Ok(Operation::CompleteMultipartUpload { upload_id: s("u") })
    );
    assert_eq!(bad_request(go(Method::Post, None)), "Not a CreateMultipartUpload call, what is it?");
    assert_eq!(bad_request(go(Method::Other, None)), "Invalid method");
}

#[test]
fn copy_requests() {
    let source = CopySource::Value(s("/src/some/key"));
    assert_eq!(
        route(Method::Put, true, None, &source, false, true),
        Ok(Operation::CopyObject { source_bucket: s("src"), source_key: Some(s("some/key")) })
    );
    assert_eq!(
        route(Method::Put, true, Some("partNumber=1&uploadId=u"), &source, false, true),
        Ok(Operation::UploadPart { part_number: s("1"), upload_id: s("u") })
    );
    assert_eq!(
        route(Method::Put, true, None, &CopySource::Value(s("src")), false, true),
        Ok(Operation::CopyObject { source_bucket: s("src"), source_key: None })
    );
    assert_eq!(
        bad_request(route(Method::Put, true, None, &CopySource::Unreadable, false, true)),
        "Invalid HTTP header value"
    );
    assert_eq!(route(Method::Get, true, None, &CopySource::Unreadable, true, false), Ok(Operation::GetObject));
    assert_eq!(authorize_copy("src", Some(s("some/key")), true).unwrap(), "some/key");
    match authorize_copy("src", Some(s("some/key")), false) {
        Err(Error::Forbidden(m)) => assert_eq!(m, "Reading from bucket src not allowed for this key"),
        other => panic!("unexpected: {:?}", other),
    }
    match authorize_copy("src", None, false) {
        Err(Error::Forbidden(m)) => assert_eq!(m, "Reading from bucket src not allowed for this key"),
        other => panic!("unexpected: {:?}", other),
    }
    match authorize_copy("src", None, true) {
        Err(Error::BadRequest(m)) => assert_eq!(m, "No source key specified"),
        other => panic!("unexpected: {:?}", other),
    }
}

#[test]
fn bucket_requests() {
    let none = CopySource::Absent;
    let go = |m: Method, q: Option<&str>| route(m, false, q, &none, true, true);
    assert_eq!(go(Method::Put, None), Ok(Operation::BucketExists));
    assert_eq!(go(Method::Head, None), Ok(Operation::BucketExists));
    assert_eq!(
        forbidden(go(Method::Delete, None)),
        "Cannot delete buckets using S3 api, please talk to Garage directly"
    );
    assert_eq!(bad_request(go(Method::Get, None)), "Not a list call, so what is it?");
    assert_eq!(bad_request(go(Method::Post, None)), "Invalid method");
    assert_eq!(bad_request(go(Method::Other, None)), "Invalid method");
    assert_eq!(
        go(Method::Get, Some("prefix=")),
        Ok(Operation::ListObjects {
            delimiter: s(""),
            max_keys: 1000,
            prefix: s(""),
            marker: None,
            urlencode_resp: false,
        })
    );
    assert_eq!(
        go(Method::Get, Some("prefix=a%2Fb&delimiter=%2F&max-keys=12&marker=m&encoding-type=url")),
        Ok(Operation::ListObjects {
            delimiter: s("/"),
            max_keys: 12,
            prefix: s("a/b"),
            marker: Some(s("m")),
            urlencode_resp: true,
        })
    );
    assert_eq!(
        go(Method::Get, Some("prefix=a&encoding-type=URL")),
        Ok(Operation::ListObjects {
            delimiter: s(""),
            max_keys: 1000,
            prefix: s("a"),
            marker: None,
            urlencode_resp: false,
        })
    );
    assert_eq!(
        bad_request(go(Method::Get, Some("prefix=a&max-keys=many"))),
        "Invalid value for max-keys: invalid digit found in string"
    );
    assert_eq!(
        bad_request(go(Method::Get, Some("prefix=a&max-keys="))),
        "Invalid value for max-keys: cannot parse integer from empty string"
    );
    assert_eq!(
        bad_request(go(Method::Get, Some("prefix=a&max-keys=99999999999999999999999"))),
        "Invalid value for max-keys: number too large to fit in target type"
    );
    assert_eq!(bad_request(go(Method::Get, Some("max-keys=many"))), "Not a list call, so what is it?");
}

#[test]
fn every_error_has_its_status_and_text() {
    let cases = [
        (Error::BadRequest(s("Empty body")), 400, "Bad request: Empty body"),
        (Error::Forbidden(s("no")), 403, "Forbidden: no"),
        (Error::NotFound, 404, "Not found"),
        (Error::BlockUnavailable, 503, "Block unavailable"),
        (Error::QuorumUnavailable, 503, "Quorum unavailable"),
        (Error::Transport(s("reset")), 500, "Transport error: reset"),
        (Error::Internal(s("broken")), 500, "Internal error: broken"),
    ];
    for (e, status, text) in cases {
        assert_eq!(e.http_status_code(), status);
        assert_eq!(error_message(&e), text);
        assert_eq!(error_response(&e), (status, format!("{}\n", text)));
    }
}

#[test]
fn delete_answers_the_uuid_in_hex_and_a_line_feed() {
    let mut bytes = [0u8; 16];
    bytes[0] = 0xde;
    bytes[15] = 0x0a;
    assert_eq!(delete_response_body(&Uuid { bytes }), "de00000000000000000000000000000a\n");
}

#[test]
fn bucket_location_is_a_slash_and_the_name() {
    assert_eq!(bucket_location("photos"), "/photos");
    assert_eq!(bucket_location(""), "/");
}
