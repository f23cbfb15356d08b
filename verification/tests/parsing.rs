use sfs::http::Method;
use sfs::request::Request;

fn padded(line: &[u8]) -> Vec<u8> {
    let mut buf = vec![0u8; 1024];
    buf[..line.len()].copy_from_slice(line);
    buf
}

#[test]
fn get_request_parses() {
    let buf = padded(b"GET / HTTP/1.1\r\n\r\n");
    let req = Request::from_bytes(&buf).unwrap();
    assert!(matches!(req.method(), &Method::Get));
    assert_eq!(req.resource(), "/");
}

#[test]
fn head_request_parses() {
    let req = Request::from_bytes(b"HEAD /a.txt HTTP/1.1").unwrap();
    assert!(matches!(req.method(), &Method::Head));
    assert_eq!(req.resource(), "/a.txt");
}

#[test]
fn all_methods_parse() {
    for (token, want) in [
        (&b"OPTIONS"[..], Method::Options),
        (b"HEAD", Method::Head),
        (b"GET", Method::Get),
        (b"POST", Method::Post),
        (b"PATCH", Method::Patch),
        (b"PUT", Method::Put),
        (b"DELETE", Method::Delete),
    ] {
        let mut line = token.to_vec();
        line.extend_from_slice(b" /x HTTP/1.1");
        let req = Request::from_bytes(&line).unwrap();
        assert_eq!(format!("{:?}", req.method()), format!("{:?}", want));
        assert_eq!(req.resource(), "/x");
    }
}

#[test]
fn unknown_method_is_no_request() {
    assert!(Request::from_bytes(b"FOO / HTTP/1.1").is_none());
}

#[test]
fn lower_case_method_is_no_request() {
    assert!(Request::from_bytes(b"get / HTTP/1.1").is_none());
}

#[test]
fn single_token_is_no_request() {
    assert!(Request::from_bytes(b"GET").is_none());
    assert!(Request::from_bytes(b"").is_none());
}

#[test]
fn resource_is_second_token_only() {
    let req = Request::from_bytes(b"GET /a/b.css HTTP/1.1\r\nHost: h\r\n").unwrap();
    assert_eq!(req.resource(), "/a/b.css");
}

#[test]
fn padded_buffer_keeps_padding_out_of_early_tokens() {
    let buf = padded(b"GET /x.html HTTP/1.1\n");
    let req = Request::from_bytes(&buf).unwrap();
    assert_eq!(req.resource(), "/x.html");
}

#[test]
fn resource_without_trailing_space_runs_to_buffer_end() {
    let req = Request::from_bytes(b"GET /plain").unwrap();
    assert_eq!(req.resource(), "/plain");
}

#[test]
fn non_utf8_resource_is_no_request() {
    assert!(Request::from_bytes(b"GET /\xff\xfe HTTP/1.1").is_none());
}

#[test]
fn utf8_resource_is_kept_verbatim() {
    let req = Request::from_bytes("GET /caf\u{e9} HTTP/1.1".as_bytes()).unwrap();
    assert_eq!(req.resource(), "/caf\u{e9}");
}

#[test]
fn empty_second_token_is_empty_resource() {
    let req = Request::from_bytes(b"GET  HTTP/1.1").unwrap();
    assert_eq!(req.resource(), "");
}

#[test]
fn method_token_parses_exactly() {
    assert!(Method::parse_token(b"GET").is_some());
    assert!(Method::parse_token(b"GETX").is_none());
    assert!(Method::parse_token(b"GE").is_none());
    assert!(Method::parse_token(b"").is_none());
}
