use rserver::request::Request;

#[test]
fn test_test_request_parse_valid() {
    let buf = b"GET / HTTP/1.1\r\n\r\n";
    let request = Request::parse(buf).expect("Should parse valid request");
    assert_eq!(request.method, "GET");
    assert_eq!(request.path, "/");
}

#[test]
fn test_test_request_parse_invalid() {
    let buf = b"GET / HTTP/1.1\r\n";
    let request = Request::parse(buf);
    assert!(request.is_none());
}

#[test]
fn test_request_mime_type() {
    let buf = b"POST / HTTP/1.1\r\nContent-Type: image/png\r\n\r\n";
    let request = Request::parse(buf).expect("Should parse valid request");
    assert_eq!(request.mime_type().as_deref(), Some("image/png"));
}

#[test]
fn test_test_request_mime_type_none() {
    let buf = b"GET / HTTP/1.1\r\n\r\n";
    let request = Request::parse(buf).expect("Should parse valid request");
    assert_eq!(request.mime_type(), None);
}

#[test]
fn test_test_request_empty_path() {
    let buf = b"GET / HTTP/1.1\r\n\r\n";
    let request = Request::parse(buf).expect("Should parse valid request");
    assert_eq!(request.path, "/");
}

#[test]
fn test_test_request_malformed_request_line() {
    // Missing method
    let buf = b" / HTTP/1.1\r\n\r\n";
    let request = Request::parse(buf);
    assert!(request.is_none());

    // Missing path
    let buf2 = b"GET \r\n\r\n";
    let request2 = Request::parse(buf2);
    assert!(request2.is_none());

    // Missing second space
    let buf4 = b"GET / \r\n\r\n";
    let request4 = Request::parse(buf4);
    assert!(request4.is_none());
}

#[test]
fn tests_test_request_parse_valid() {
    let buf = b"GET / HTTP/1.1\r\n\r\n";
    let request = Request::parse(buf).expect("Should parse valid request");
    assert_eq!(request.method, "GET");
    assert_eq!(request.path, "/");
    assert_eq!(request.version, "HTTP/1.1");
}

#[test]
fn tests_test_request_parse_headers() {
    let buf =
        b"POST / HTTP/1.1\r\nContent-Type: application/json\r\nX-Custom-Header: value\r\n\r\n";
    let request = Request::parse(buf).expect("Should parse valid request");
    assert_eq!(request.method, "POST");
    assert_eq!(request.path, "/");
    assert_eq!(request.header("Content-Type"), Some("application/json"));
    assert_eq!(request.header("X-Custom-Header"), Some("value"));
}

#[test]
fn tests_test_request_parse_invalid() {
    let buf = b"GET / HTTP/1.1\r\n";
    let request = Request::parse(buf);
    assert!(request.is_none());
}

#[test]
fn tests_test_request_mime_type_case_insensitive() {
    let buf = b"POST / HTTP/1.1\r\ncontent-type: image/png\r\n\r\n";
    let request = Request::parse(buf).expect("Should parse valid request");
    assert_eq!(request.mime_type(), Some("image/png".to_string()));

    let buf2 = b"POST / HTTP/1.1\r\nContent-Type: image/png\r\n\r\n";
    let request2 = Request::parse(buf2).expect("Should parse valid request");
    assert_eq!(request2.mime_type(), Some("image/png".to_string()));
}

#[test]
fn tests_test_request_mime_type_none() {
    let buf = b"GET / HTTP/1.1\r\n\r\n";
    let request = Request::parse(buf).expect("Should parse valid request");
    assert_eq!(request.mime_type(), None);
}

#[test]
fn tests_test_request_header_trimming() {
    let buf = b"GET / HTTP/1.1\r\nHeader-Key:   value  \r\n\r\n";
    let request = Request::parse(buf).expect("Should parse valid request");
    assert_eq!(request.header("Header-Key"), Some("value"));
}

#[test]
fn tests_test_request_empty_path() {
    let buf = b"GET / HTTP/1.1\r\n\r\n";
    let request = Request::parse(buf).expect("Should parse valid request");
    assert_eq!(request.path, "/");
}

#[test]
fn tests_test_request_malformed_request_line() {
    // Missing method
    let buf = b" / HTTP/1.1\r\n\r\n";
    let request = Request::parse(buf);
    assert!(request.is_none());

    // Missing path
    let buf2 = b"GET \r\n\r\n";
    let request2 = Request::parse(buf2);
    assert!(request2.is_none());

    // Missing second space
    let buf4 = b"GET / \r\n\r\n";
    let request4 = Request::parse(buf4);
    assert!(request4.is_none());
}

#[test]
fn tests_test_request_parse_query_params() {
    let buf = b"GET /path?name=value&age=30 HTTP/1.1\r\n\r\n";
    let request = Request::parse(buf).expect("Should parse valid request");
    assert_eq!(request.path, "/path");
    assert_eq!(request.query("name"), Some("value"));
    assert_eq!(request.query("age"), Some("30"));
}

#[test]
fn tests_test_request_parse_malformed_headers() {
    // Header without colon is skipped
    let buf = b"GET / HTTP/1.1\r\nInvalidHeaderLine\r\nX-Valid: value\r\n\r\n";
    let request = Request::parse(buf).expect("Should parse valid request");
    assert_eq!(request.headers.len(), 1);
    assert_eq!(request.header("X-Valid"), Some("value"));
}

/// Deterministic pseudo-random bytes (xorshift64*).
fn pseudo_random_bytes(seed: u64, len: usize) -> Vec<u8> {
    let mut state = seed;
    (0..len)
        .map(|_| {
            state ^= state << 13;
            state ^= state >> 7;
            state ^= state << 17;
            (state >> 32) as u8
        })
        .collect()
}

/// Builds a browser-style multipart upload HTTP request.
/// Returns (raw request bytes, raw multipart body bytes).
fn build_binary_upload_request(file_data: &[u8]) -> (Vec<u8>, Vec<u8>) {
    let boundary = "----WebKitFormBoundaryABC123";

    let mut body = Vec::new();
    body.extend_from_slice(format!("--{}\r\n", boundary).as_bytes());
    body.extend_from_slice(
        b"Content-Disposition: form-data; name=\"file\"; filename=\"img.png\"\r\n",
    );
    body.extend_from_slice(b"Content-Type: image/png\r\n\r\n");
    body.extend_from_slice(file_data);
    body.extend_from_slice(format!("\r\n--{}--\r\n", boundary).as_bytes());

    let mut http = Vec::new();
    http.extend_from_slice(b"POST /upload HTTP/1.1\r\n");
    http.extend_from_slice(
        format!(
            "Content-Type: multipart/form-data; boundary={}\r\n",
            boundary
        )
        .as_bytes(),
    );
    http.extend_from_slice(format!("Content-Length: {}\r\n\r\n", body.len()).as_bytes());
    http.extend_from_slice(&body);
    (http, body)
}

#[test]
fn test_request_incomplete_body_returns_none() {
    let file_data = pseudo_random_bytes(7, 4096);
    let (http, mp_body) = build_binary_upload_request(&file_data);
    let total_body = mp_body.len();
    let headers_len = http.len() - total_body;

    for arrived in [0usize, 10, total_body / 4, total_body / 2, total_body - 1] {
        let cut = headers_len + arrived;
        let parsed = Request::parse(&http[..cut]);
        assert!(
            parsed.is_none(),
            "dispatched early with {arrived}/{total_body} body bytes"
        );
    }

    let parsed = Request::parse(&http).expect("complete request should parse");
    assert_eq!(parsed.body, mp_body);
}

#[test]
fn test_request_content_length_truncates_extra_bytes() {
    let (mut http, mp_body) = build_binary_upload_request(b"\x00\x01\x02\r\n\x03");

    http.extend_from_slice(b"EXTRA");

    let request = Request::parse(&http).expect("Should parse request");
    assert_eq!(request.body, mp_body);
}

#[test]
fn test_request_without_content_length_keeps_legacy_behavior() {
    let buf = b"POST / HTTP/1.1\r\nContent-Type: text/plain\r\n\r\nraw bytes";
    let request = Request::parse(buf).expect("Should parse valid request");
    assert_eq!(request.body, b"raw bytes");
}

#[test]
fn test_request_zero_content_length() {
    let buf = b"POST / HTTP/1.1\r\nContent-Length: 0\r\n\r\n";
    let request = Request::parse(buf).expect("Should parse valid request");
    assert!(request.body.is_empty());
}

#[test]
fn test_request_case_insensitive_content_length() {
    let buf = b"POST / HTTP/1.1\r\ncontent-LENGTH: 5\r\n\r\nhello";
    let request = Request::parse(buf).expect("Should parse valid request");
    assert_eq!(request.body, b"hello");
}

#[test]
fn binary_upload_fields_roundtrip() {
    let mut file_data = Vec::new();
    file_data.extend_from_slice(&[0x89, b'P', b'N', b'G', 0x0D, 0x0A, 0x1A, 0x0A]);
    file_data.extend_from_slice(&pseudo_random_bytes(0xC0FFEE, 16 * 1024));

    let (http, mp_body) = build_binary_upload_request(&file_data);
    let request = Request::parse(&http).expect("Should parse upload request");

    assert_eq!(request.method, "POST");
    assert_eq!(request.path, "/upload");
    assert_eq!(request.body, mp_body);

    let fields = request.get_multipart_fields().expect("form parse");
    assert_eq!(fields.len(), 1);
    assert_eq!(fields[0].name, "file");
    assert_eq!(fields[0].filename.as_deref(), Some("img.png"));
    assert_eq!(fields[0].content_type.as_deref(), Some("image/png"));
    assert_eq!(fields[0].data, file_data, "uploaded binary corrupted");
}

#[test]
fn multipart_fields_errors() {
    let no_ct = Request::parse(b"POST / HTTP/1.1\r\n\r\nx").unwrap();
    assert_eq!(no_ct.get_multipart_fields(), Err("content-type not found".to_string()));

    let json = Request::parse(b"POST / HTTP/1.1\r\nContent-Type: application/json\r\n\r\n{}").unwrap();
    assert_eq!(json.get_multipart_fields(), Err("boundary not found".to_string()));
}

#[test]
fn parse_rejects_other_versions_and_non_utf8_heads() {
    assert!(Request::parse(b"GET / HTTP/1.0\r\n\r\n").is_none());
    assert!(Request::parse(b"GET /\xff HTTP/1.1\r\n\r\n").is_none());
}

#[test]
fn parse_invalid_content_length_takes_rest_of_buffer() {
    let request = Request::parse(b"POST / HTTP/1.1\r\nContent-Length: abc\r\n\r\nxyz").unwrap();
    assert_eq!(request.body, b"xyz");
    let padded = Request::parse(b"POST / HTTP/1.1\r\nContent-Length: \t2 \r\n\r\nxyz").unwrap();
    assert_eq!(padded.body, b"xy");
}

#[test]
fn query_segments_without_equals_are_skipped() {
    let request = Request::parse(b"GET /p?flag&k=v&=e&x= HTTP/1.1\r\n\r\n").unwrap();
    assert_eq!(request.query_params, vec![("k", "v"), ("", "e"), ("x", "")]);
    assert_eq!(request.query("flag"), None);
    assert_eq!(request.path, "/p");
}

#[test]
fn header_lookup_is_first_match_and_case_insensitive() {
    let request = Request::parse(b"GET / HTTP/1.1\r\nX-A: 1\r\nx-a: 2\r\n\r\n").unwrap();
    assert_eq!(request.header("X-A"), Some("1"));
    assert_eq!(request.header("x-A"), Some("1"));
    assert_eq!(request.content_type(), None);
    assert_eq!(request.param("x"), None);
}

#[test]
fn mime_type_strips_parameters_and_lowercases() {
    let request = Request::parse(b"POST / HTTP/1.1\r\nContent-Type:  Text/HTML ; charset=utf-8\r\n\r\n").unwrap();
    assert_eq!(request.mime_type(), Some("text/html".to_string()));
    let blank = Request::parse(b"POST / HTTP/1.1\r\nContent-Type: ;x\r\n\r\n").unwrap();
    assert_eq!(blank.mime_type(), None);
}

#[test]
fn test_test_request_parse_headers() {
    let buf =
        b"POST / HTTP/1.1\r\nContent-Type: application/json\r\nX-Custom-Header: value\r\n\r\n";
    let request = Request::parse(buf).expect("Should parse valid request");
    assert_eq!(request.method, "POST");
    assert_eq!(request.path, "/");
    assert_eq!(request.header("Content-Type").unwrap(), "application/json");
    assert_eq!(request.header("X-Custom-Header").unwrap(), "value");
}

#[test]
fn test_test_request_header_trimming() {
    let buf = b"GET / HTTP/1.1\r\nHeader-Key:   value  \r\n\r\n";
    let request = Request::parse(buf).expect("Should parse valid request");
    assert_eq!(request.header("Header-Key").unwrap(), "value");
}

#[test]
fn test_test_request_parse_query_params() {
    let buf = b"GET /path?name=value&age=30 HTTP/1.1\r\n\r\n";
    let request = Request::parse(buf).expect("Should parse valid request");
    assert_eq!(request.path, "/path");
    assert_eq!(request.query("name").unwrap(), "value");
    assert_eq!(request.query("age").unwrap(), "30");
}

#[test]
fn test_test_request_parse_malformed_headers() {
    let buf = b"GET / HTTP/1.1\r\nInvalidHeaderLine\r\nX-Valid: value\r\n\r\n";
    let request = Request::parse(buf).expect("Should parse valid request");
    assert_eq!(request.headers.len(), 1);
    assert_eq!(request.header("X-Valid").unwrap(), "value");
}
