use agis::error::{RequestError, ServerError};
use agis::request::{parse_header, split_target, Request};
use agis::response::Response;

fn ip() -> String {
    String::from("192.0.2.7")
}

#[test]
fn parses_header_body_and_query() {
    let r = Request::parse(b"example.com /docs/a.gmi?x=1 3\r\nabc", ip()).unwrap();
    assert_eq!(r.host, "example.com");
    assert_eq!(r.path, "/docs/a.gmi");
    assert_eq!(r.query.as_deref(), Some("x=1"));
    assert_eq!(r.client_ip, "192.0.2.7");
    assert_eq!(r.length, 3);
    assert_eq!(r.content.as_deref(), Some(&b"abc"[..]));
}

#[test]
fn zero_length_has_no_content() {
    let r = Request::parse(b"example.com / 0\r\n", ip()).unwrap();
    assert_eq!(r.path, "/");
    assert_eq!(r.query, None);
    assert_eq!(r.length, 0);
    assert!(r.content.is_none());
}

#[test]
fn content_takes_exactly_the_given_length() {
    let r = Request::parse(b"h /up 2\r\nxyz", ip()).unwrap();
    assert_eq!(r.content.as_deref(), Some(&b"xy"[..]));
}

#[test]
fn empty_path_reads_as_root() {
    let r = Request::parse(b"h ?q=2 0\r\n", ip()).unwrap();
    assert_eq!(r.path, "/");
    assert_eq!(r.query.as_deref(), Some("q=2"));
}

#[test]
fn plus_signed_length_is_accepted() {
    let r = Request::parse(b"h /p +1\r\nz", ip()).unwrap();
    assert_eq!(r.length, 1);
}

#[test]
fn one_field_misses_separator() {
    assert!(matches!(Request::parse(b"example.com\r\n", ip()), Err(RequestError::MissingSeparator)));
}

#[test]
fn two_fields_miss_a_field() {
    assert!(matches!(Request::parse(b"example.com /\r\n", ip()), Err(RequestError::MissingField)));
}

#[test]
fn four_fields_are_extra() {
    assert!(matches!(Request::parse(b"example.com / 0 x\r\n", ip()), Err(RequestError::ExtraField)));
    assert!(matches!(Request::parse(b"a b c d e\r\n", ip()), Err(RequestError::ExtraField)));
}

#[test]
fn empty_header_is_extra_field() {
    assert!(matches!(Request::parse(b"\r\n", ip()), Err(RequestError::ExtraField)));
}

#[test]
fn non_numeric_length_is_invalid() {
    assert!(matches!(Request::parse(b"h / abc\r\n", ip()), Err(RequestError::InvalidContentLength)));
    assert!(matches!(Request::parse(b"h / -1\r\n", ip()), Err(RequestError::InvalidContentLength)));
    assert!(matches!(
        Request::parse(b"h / 99999999999999999999999\r\n", ip()),
        Err(RequestError::InvalidContentLength)
    ));
}

#[test]
fn short_content_is_a_read_error() {
    match Request::parse(b"h / 5\r\nab", ip()) {
        Err(RequestError::ReadError(m)) => assert_eq!(m, "failed to fill whole buffer"),
        _ => panic!("expected a read error"),
    }
}

#[test]
fn invalid_utf8_header_is_a_read_error() {
    match Request::parse(b"h /\xff 0\r\n", ip()) {
        Err(RequestError::ReadError(m)) => assert_eq!(m, "stream did not contain valid UTF-8"),
        _ => panic!("expected a read error"),
    }
}

#[test]
fn unicode_white_space_separates_fields() {
    let h = parse_header("h\u{3000}/a\u{a0}0\n".as_bytes()).unwrap();
    assert_eq!(h.host, "h");
    assert_eq!(h.path, "/a");
    assert_eq!(h.length, 0);
}

#[test]
fn target_splits_at_first_question_mark() {
    let (p, q) = split_target("/a?b?c");
    assert_eq!(p, "/a");
    assert_eq!(q.as_deref(), Some("b?c"));
    let (p, q) = split_target("/plain");
    assert_eq!(p, "/plain");
    assert_eq!(q, None);
}

#[test]
fn from_header_checks_the_content_length() {
    let h = parse_header(b"h /x 3\r\n").unwrap();
    assert!(Request::from_header(h.clone(), ip(), b"abc").is_ok());
    assert!(matches!(Request::from_header(h, ip(), b"ab"), Err(RequestError::ReadError(_))));
}

#[test]
fn request_log_line() {
    let r = Request::parse(b"example.com /a 0\r\n", ip()).unwrap();
    assert_eq!(
        r.log_line(),
        "Request: { host: example.com; path: /a; query: none; client_ip: 192.0.2.7; length: 0; }"
    );
    let r = Request::parse(b"example.com /a?k 12\r\n0123456789ab", ip()).unwrap();
    assert_eq!(
        r.log_line(),
        "Request: { host: example.com; path: /a; query: k; client_ip: 192.0.2.7; length: 12; }"
    );
}

#[test]
fn encodes_success_with_body() {
    let r = Response::Success { mimetype: String::from("text/gemini"), body: b"hi".to_vec() };
    assert_eq!(r.encode(), b"2 text/gemini\r\nhi".to_vec());
}

#[test]
fn encodes_redirect_and_errors() {
    assert_eq!(Response::Redirect(String::from("/a/")).encode(), b"3 /a/\r\n".to_vec());
    assert_eq!(
        Response::ClientError(RequestError::MissingField).encode(),
        b"4 Missing field\r\n".to_vec()
    );
    assert_eq!(
        Response::ServerError(ServerError::NotFound).encode(),
        b"5 Resource not found\r\n".to_vec()
    );
    assert_eq!(
        Response::ServerError(ServerError::IoError(String::from("disk"))).encode(),
        b"5 Io error: disk\r\n".to_vec()
    );
}

#[test]
fn error_messages() {
    assert_eq!(RequestError::MissingSeparator.message(), "Missing separator");
    assert_eq!(RequestError::ExtraField.message(), "Extra field");
    assert_eq!(RequestError::InvalidContentLength.message(), "Invalid content length");
    assert_eq!(RequestError::InvalidUtf8.message(), "Utf8 error");
    assert_eq!(RequestError::ReadError(String::from("eof")).message(), "Read error: eof");
    assert_eq!(ServerError::CgiError.message(), "Script failed");
    assert_eq!(ServerError::Unauthorized.message(), "Not authorized");
}

#[test]
fn response_log_lines() {
    let r = Response::Success { mimetype: String::from("text/plain"), body: vec![1, 2] };
    assert_eq!(r.log_line(), "Response::Success(text/plain)");
    assert!(!r.is_error());
    assert_eq!(Response::Redirect(String::from("/x")).log_line(), "Response::Redirect(/x)");
    let e = Response::ServerError(ServerError::Unauthorized);
    assert_eq!(e.log_line(), "Response::ServerError(Not authorized)");
    assert!(e.is_error());
    let c = Response::from(RequestError::MissingField);
    assert_eq!(c.log_line(), "Response::ClientError(Missing field)");
    assert!(c.is_error());
    assert!(matches!(Response::from(ServerError::NotFound), Response::ServerError(ServerError::NotFound)));
}
