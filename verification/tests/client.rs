use rserver::client::{decode_chunked, Client};

#[test]
fn new_detects_https_and_defaults_to_443() {
    let client = Client::new("https://example.com");

    assert_eq!(client.host, "example.com");
    assert!(client.is_secure);
    assert_eq!(client.port, 443);
}

#[test]
fn new_detects_http_and_defaults_to_80() {
    let client = Client::new("http://example.com");

    assert_eq!(client.host, "example.com");
    assert!(!client.is_secure);
    assert_eq!(client.port, 80);
}

#[test]
fn new_accepts_host_without_scheme() {
    let client = Client::new("example.com");

    assert_eq!(client.host, "example.com");
    assert!(!client.is_secure);
    assert_eq!(client.port, 80);
}

#[test]
fn new_accepts_string_input() {
    let client = Client::new(String::from("https://example.com"));

    assert_eq!(client.host, "example.com");
    assert!(client.is_secure);
    assert_eq!(client.port, 443);
}

#[test]
fn new_parses_explicit_http_port() {
    let client = Client::new("http://localhost:9090");

    assert_eq!(client.host, "localhost");
    assert!(!client.is_secure);
    assert_eq!(client.port, 9090);
}

#[test]
fn new_parses_explicit_https_port() {
    let client = Client::new("https://example.com:8443");

    assert_eq!(client.host, "example.com");
    assert!(client.is_secure);
    assert_eq!(client.port, 8443);
}

#[test]
fn new_strips_path_component() {
    let client = Client::new("http://localhost:9090/realms/rserver");

    assert_eq!(client.host, "localhost");
    assert_eq!(client.port, 9090);
}

#[test]
fn new_parses_ipv6_with_port() {
    let client = Client::new("http://[::1]:9090");

    assert_eq!(client.host, "[::1]");
    assert!(!client.is_secure);
    assert_eq!(client.port, 9090);
}

#[test]
fn new_parses_ipv6_without_port() {
    let client = Client::new("https://[::1]");

    assert_eq!(client.host, "[::1]");
    assert!(client.is_secure);
    assert_eq!(client.port, 443);
}

#[test]
fn decode_chunked_decodes_single_chunk() {
    let body = b"5\r\nhello\r\n0\r\n\r\n";

    let result = decode_chunked(body).unwrap();

    assert_eq!(result, b"hello");
}

#[test]
fn decode_chunked_decodes_multiple_chunks() {
    let body = b"5\r\nhello\r\n6\r\n world\r\n0\r\n\r\n";

    let result = decode_chunked(body).unwrap();

    assert_eq!(result, b"hello world");
}

#[test]
fn decode_chunked_handles_empty_body() {
    let body = b"0\r\n\r\n";

    let result = decode_chunked(body).unwrap();

    assert!(result.is_empty());
}

#[test]
fn decode_chunked_handles_binary_data() {
    let body = b"4\r\n\x00\x01\x02\xff\r\n0\r\n\r\n";

    let result = decode_chunked(body).unwrap();

    assert_eq!(result, vec![0, 1, 2, 255]);
}

#[test]
fn decode_chunked_rejects_missing_size_line_terminator() {
    let body = b"5";

    let result = decode_chunked(body);

    assert!(result.is_err());
    assert_eq!(result.unwrap_err().to_string(), "Invalid chunked encoding");
}

#[test]
fn decode_chunked_rejects_invalid_hex_size() {
    let body = b"zz\r\nhello\r\n0\r\n\r\n";

    let result = decode_chunked(body);

    assert!(result.is_err());
}

#[test]
fn decode_chunked_rejects_incomplete_chunk() {
    let body = b"5\r\nhel";

    let result = decode_chunked(body);

    assert!(result.is_err());
    assert_eq!(result.unwrap_err().to_string(), "Incomplete chunk");
}

#[test]
fn decode_chunked_rejects_invalid_chunk_terminator() {
    let body = b"5\r\nhelloXX0\r\n\r\n";

    let result = decode_chunked(body);

    assert!(result.is_err());
    assert_eq!(result.unwrap_err().to_string(), "Invalid chunk terminator");
}

#[test]
fn decode_chunked_supports_uppercase_hex() {
    let body = b"A\r\n0123456789\r\n0\r\n\r\n";

    let result = decode_chunked(body).unwrap();

    assert_eq!(result, b"0123456789");
}

#[test]
fn decode_chunked_supports_chunk_extensions() {
    // Chunk extensions such as ";foo=bar" are not supported.
    let body = b"5;foo=bar\r\nhello\r\n0\r\n\r\n";

    assert!(decode_chunked(body).is_err());
}

#[test]
fn decode_chunked_reports_invalid_digit_message() {
    let result = decode_chunked(b"zz\r\nhello\r\n0\r\n\r\n");

    assert_eq!(result.unwrap_err().to_string(), "invalid digit found in string");
}

#[test]
fn decode_chunked_reports_empty_size_message() {
    let result = decode_chunked(b"\r\n");

    assert_eq!(result.unwrap_err().to_string(), "cannot parse integer from empty string");
}

#[test]
fn decode_chunked_reports_size_overflow() {
    let result = decode_chunked(b"1ffffffffffffffff\r\nx\r\n0\r\n\r\n");

    assert_eq!(result.unwrap_err().to_string(), "number too large to fit in target type");
}

#[test]
fn decode_chunked_trims_whitespace_around_size() {
    let result = decode_chunked(b" 3 \r\nabc\r\n0\r\n\r\n").unwrap();

    assert_eq!(result, b"abc");
}

#[test]
fn decode_chunked_rejects_non_utf8_size_line() {
    let result = decode_chunked(b"\xff\r\nabc\r\n0\r\n\r\n");

    assert!(result.is_err());
    assert!(result.unwrap_err().to_string().contains("utf-8"));
}

#[test]
fn new_keeps_host_with_non_numeric_port() {
    let client = Client::new("http://example.com:abc");

    assert_eq!(client.host, "example.com:abc");
    assert_eq!(client.port, 80);
}

#[test]
fn new_keeps_default_port_for_ipv6_with_bad_port() {
    let client = Client::new("http://[::1]:99999");

    assert_eq!(client.host, "[::1]");
    assert_eq!(client.port, 80);
}

#[test]
fn build_request_includes_port_and_body() {
    let client = Client::new("http://localhost:9090");
    let bytes = client.build_request("POST", "/items", Some("{}"), &[("X-A", "1")]);

    assert_eq!(
        String::from_utf8(bytes).unwrap(),
        "POST /items HTTP/1.1\r\nHost: localhost:9090\r\nUser-Agent: r-server\r\nAccept: application/json\r\nConnection: close\r\nX-A: 1\r\nContent-Length: 2\r\n\r\n{}"
    );
}

#[test]
fn build_request_omits_default_port() {
    let client = Client::new("https://example.com");
    let bytes = client.build_request("GET", "/", None, &[]);

    assert_eq!(
        String::from_utf8(bytes).unwrap(),
        "GET / HTTP/1.1\r\nHost: example.com\r\nUser-Agent: r-server\r\nAccept: application/json\r\nConnection: close\r\n\r\n"
    );
}

#[test]
fn read_response_plain_body() {
    let raw = b"HTTP/1.1 200 OK\r\nContent-Length: 5\r\n\r\nhello";

    assert_eq!(Client::read_response(raw), Ok("hello".to_string()));
}

#[test]
fn read_response_chunked_body_any_case() {
    let raw = b"HTTP/1.1 200 OK\r\nTransfer-Encoding: Chunked\r\n\r\n5\r\nhello\r\n0\r\n\r\n";

    assert_eq!(Client::read_response(raw), Ok("hello".to_string()));
}

#[test]
fn read_response_without_head_end() {
    let raw = b"HTTP/1.1 200 OK\r\n";

    assert_eq!(
        Client::read_response(raw),
        Err("Invalid HTTP response: headers not found".to_string())
    );
}

#[test]
fn read_response_reports_chunk_errors() {
    let raw = b"HTTP/1.1 200 OK\r\ntransfer-encoding: chunked\r\n\r\n5\r\nhel";

    assert_eq!(Client::read_response(raw), Err("Incomplete chunk".to_string()));
}

#[test]
fn read_response_reports_where_the_body_stops_being_utf8() {
    let raw = b"HTTP/1.1 200 OK\r\nContent-Length: 3\r\n\r\nab\xff";
    assert_eq!(
        Client::read_response(raw),
        Err(std::str::from_utf8(b"ab\xff").unwrap_err().to_string())
    );
    assert_eq!(
        Client::read_response(raw),
        Err("invalid utf-8 sequence of 1 bytes from index 2".to_string())
    );
}

#[test]
fn decode_chunked_reads_sizes_in_either_case_with_leading_zeros() {
    let body = b"00A\r\n0123456789\r\n1b\r\nabcdefghijklmnopqrstuvwxyz.\r\n0\r\n\r\n";
    assert_eq!(
        decode_chunked(body).unwrap(),
        b"0123456789abcdefghijklmnopqrstuvwxyz.".to_vec()
    );
}

#[test]
fn read_response_reports_a_size_line_that_is_not_utf8() {
    let raw = b"HTTP/1.1 200 OK\r\nTransfer-Encoding: chunked\r\n\r\n2\r\nab\r\n\xff\r\nab\r\n0\r\n\r\n";
    assert_eq!(
        Client::read_response(raw),
        Err("invalid utf-8 sequence of 1 bytes from index 0".to_string())
    );
}
