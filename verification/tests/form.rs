use rserver::request::form::{extract_multipart_boundary, parse_multipart};

/// Sets `key` to `value`, replacing an earlier entry with the same key.
fn insert(headers: &mut Vec<(String, String)>, key: &str, value: &str) {
    match headers.iter_mut().find(|(k, _)| k == key) {
        Some(entry) => entry.1 = value.to_string(),
        None => headers.push((key.to_string(), value.to_string())),
    }
}

#[test]
fn test_extract_multipart_boundary() {
    let mut headers: Vec<(String, String)> = Vec::new();
    insert(
        &mut headers,
        "content-type",
        "multipart/form-data; boundary=---------------------------974767299852498929531610575",
    );

    let boundary = extract_multipart_boundary(&headers);
    assert_eq!(
        boundary,
        Some("---------------------------974767299852498929531610575".to_string())
    );

    insert(&mut headers, "content-type", "application/json");
    assert_eq!(extract_multipart_boundary(&headers), None);
}

#[test]
fn mod_test_parse_simple_multipart() {
    let boundary = "XYZ123";
    let body = format!(
        "--{}\r\n\
         Content-Disposition: form-data; name=\"field1\"\r\n\r\n\
         hello world\r\n\
         --{}\r\n\
         Content-Disposition: form-data; name=\"file\"; filename=\"a.txt\"\r\n\
         Content-Type: text/plain\r\n\r\n\
         file contents\r\n\
         --{}--\r\n",
        boundary, boundary, boundary
    );

    let fields = parse_multipart(body.as_bytes(), boundary).unwrap();
    assert_eq!(fields.len(), 2);

    assert_eq!(fields[0].name, "field1");
    assert_eq!(fields[0].data, b"hello world");
    assert_eq!(fields[0].filename, None);

    assert_eq!(fields[1].name, "file");
    assert_eq!(fields[1].filename.as_deref(), Some("a.txt"));
    assert_eq!(fields[1].content_type.as_deref(), Some("text/plain"));
    assert_eq!(fields[1].data, b"file contents");
}

#[test]
fn mod_test_empty_body() {
    let boundary = "B";
    let body = format!(
        "--{}\r\n\
         Content-Disposition: form-data; name=\"empty\"\r\n\r\n\
         --{}--\r\n",
        boundary, boundary
    );

    let fields = parse_multipart(body.as_bytes(), boundary).unwrap();
    assert_eq!(fields.len(), 1);
    assert_eq!(fields[0].name, "empty");
    assert_eq!(fields[0].data, b"");
}

#[test]
fn mod_test_completely_empty_stream() {
    let boundary = "EMPTY_STREAM";
    let result = parse_multipart(&b""[..], boundary);

    assert!(result.is_err());
    assert_eq!(
        result.unwrap_err(),
        "Unexpected EOF searching for initial boundary"
    );
}

#[test]
fn mod_test_empty_multipart_payload() {
    let boundary = "NO_PARTS";
    let body = format!("--{}--\r\n", boundary);

    let fields = parse_multipart(body.as_bytes(), boundary);

    assert!(fields.is_ok());
    assert_eq!(fields.unwrap().len(), 0);
}

#[test]
fn mod_test_binary_data_with_boundary_like_content() {
    let boundary = "abc";
    let body = format!(
        "--{}\r\n\
         Content-Disposition: form-data; name=\"bin\"\r\n\r\n\
         \r\n--abXdata\r\n--{}--\r\n",
        boundary, boundary
    );

    let fields = parse_multipart(body.as_bytes(), boundary).unwrap();
    assert_eq!(fields.len(), 1);
    assert_eq!(fields[0].data, b"\r\n--abXdata");
}

#[test]
fn mod_test_multiple_fields() {
    let boundary = "MULTI";
    let body = format!(
        "--{}\r\n\
         Content-Disposition: form-data; name=\"a\"\r\n\r\n\
         1\r\n\
         --{}\r\n\
         Content-Disposition: form-data; name=\"b\"\r\n\r\n\
         2\r\n\
         --{}\r\n\
         Content-Disposition: form-data; name=\"c\"\r\n\r\n\
         3\r\n\
         --{}--\r\n",
        boundary, boundary, boundary, boundary
    );

    let fields = parse_multipart(body.as_bytes(), boundary).unwrap();
    assert_eq!(fields.len(), 3);

    assert_eq!(fields[0].name, "a");
    assert_eq!(fields[0].data, b"1");

    assert_eq!(fields[1].name, "b");
    assert_eq!(fields[1].data, b"2");

    assert_eq!(fields[2].name, "c");
    assert_eq!(fields[2].data, b"3");
}

#[test]
fn mod_test_field_without_content_type() {
    let boundary = "NOCT";
    let body = format!(
        "--{}\r\n\
         Content-Disposition: form-data; name=\"noct\"\r\n\r\n\
         data\r\n\
         --{}--\r\n",
        boundary, boundary
    );

    let fields = parse_multipart(body.as_bytes(), boundary).unwrap();
    assert_eq!(fields.len(), 1);
    assert_eq!(fields[0].content_type, None);
    assert_eq!(fields[0].data, b"data");
}

#[test]
fn mod_test_crlf_in_body() {
    let boundary = "CRLF";
    let body = format!(
        "--{}\r\n\
         Content-Disposition: form-data; name=\"text\"\r\n\r\n\
         line1\r\nline2\r\nline3\r\n\
         --{}--\r\n",
        boundary, boundary
    );

    let fields = parse_multipart(body.as_bytes(), boundary).unwrap();
    assert_eq!(fields.len(), 1);
    assert_eq!(fields[0].data, b"line1\r\nline2\r\nline3");
}

#[test]
fn mod_test_missing_content_disposition() {
    let boundary = "MISSING";
    let body = format!(
        "--{}\r\n\
         Content-Type: text/plain\r\n\r\n\
         data\r\n\
         --{}--\r\n",
        boundary, boundary
    );

    let result = parse_multipart(body.as_bytes(), boundary);
    assert!(result.is_err());
}

#[test]
fn mod_test_missing_name() {
    let boundary = "NONAME";
    let body = format!(
        "--{}\r\n\
         Content-Disposition: form-data\r\n\r\n\
         data\r\n\
         --{}--\r\n",
        boundary, boundary
    );

    let result = parse_multipart(body.as_bytes(), boundary);
    assert!(result.is_err());
}

#[test]
fn mod_test_unexpected_eof() {
    let boundary = "EOF";
    let body = format!(
        "--{}\r\n\
         Content-Disposition: form-data; name=\"x\"\r\n\r\n\
         data",
        boundary
    );

    let result = parse_multipart(body.as_bytes(), boundary);
    assert!(result.is_err());
}

#[test]
fn mod_test_filename_without_name() {
    let boundary = "FNAME";
    let body = format!(
        "--{}\r\n\
         Content-Disposition: form-data; filename=\"test.txt\"\r\n\r\n\
         content\r\n\
         --{}--\r\n",
        boundary, boundary
    );

    let result = parse_multipart(body.as_bytes(), boundary);
    assert!(result.is_err());
}

#[test]
fn mod_test_whitespace_in_headers() {
    let boundary = "WS";
    let body = format!(
        "--{}\r\n\
         Content-Disposition:  form-data;  name=\"wsfield\"  ;  filename=\"ws.txt\"  \r\n\
         Content-Type:  text/plain  \r\n\r\n\
         data\r\n\
         --{}--\r\n",
        boundary, boundary
    );

    let fields = parse_multipart(body.as_bytes(), boundary).unwrap();
    assert_eq!(fields.len(), 1);
    assert_eq!(fields[0].name, "wsfield");
    assert_eq!(fields[0].filename.as_deref(), Some("ws.txt"));
    assert_eq!(fields[0].content_type.as_deref(), Some("text/plain"));
    assert_eq!(fields[0].data, b"data");
}

#[test]
fn mod_test_large_body() {
    let boundary = "LARGE";
    let data = "x".repeat(1000);
    let body = format!(
        "--{}\r\n\
         Content-Disposition: form-data; name=\"big\"\r\n\r\n\
         {}\r\n\
         --{}--\r\n",
        boundary, data, boundary
    );

    let fields = parse_multipart(body.as_bytes(), boundary).unwrap();
    assert_eq!(fields.len(), 1);
    assert_eq!(fields[0].data.len(), 1000);
    assert_eq!(&fields[0].data, data.as_bytes());
}

#[test]
fn boundary_needs_exact_header_key_and_form_type() {
    let headers = vec![(
        "Content-Type".to_string(),
        "multipart/form-data; boundary=abc".to_string(),
    )];
    assert_eq!(extract_multipart_boundary(&headers), None);

    let headers = vec![(
        "content-type".to_string(),
        "MULTIPART/Form-Data; BOUNDARY=\"q\"".to_string(),
    )];
    assert_eq!(extract_multipart_boundary(&headers), Some("q".to_string()));

    let headers = vec![(
        "content-type".to_string(),
        "multipart/form-data; charset=utf-8".to_string(),
    )];
    assert_eq!(extract_multipart_boundary(&headers), None);

    let headers = vec![(
        "content-type".to_string(),
        "multipart/form-data; boundary=".to_string(),
    )];
    assert_eq!(extract_multipart_boundary(&headers), Some(String::new()));
}

#[test]
fn parameter_names_are_case_sensitive_and_values_untrimmed() {
    let body = "--B\r\nContent-Disposition: form-data; NAME=\"x\"\r\n\r\nv\r\n--B--\r\n";
    assert_eq!(
        parse_multipart(body.as_bytes(), "B").unwrap_err(),
        "Missing 'name' in Content-Disposition"
    );

    let body = "--B\r\nContent-Disposition: form-data; name= \"x\" \r\n\r\nv\r\n--B--\r\n";
    let fields = parse_multipart(body.as_bytes(), "B").unwrap();
    assert_eq!(fields[0].name, " \"x");
}

#[test]
fn later_header_line_replaces_earlier() {
    let body = "--B\r\nContent-Disposition: form-data; name=\"a\"\r\ncontent-disposition: form-data; name=\"b\"\r\n\r\nv\r\n--B--\r\n";
    let fields = parse_multipart(body.as_bytes(), "B").unwrap();
    assert_eq!(fields[0].name, "b");
}

#[test]
fn bare_boundary_gives_empty_body_and_closing_marker() {
    let body = "--B\r\nContent-Disposition: form-data; name=\"a\"\r\n\r\n--B--\r\n";
    let fields = parse_multipart(body.as_bytes(), "B").unwrap();
    assert_eq!(fields.len(), 1);
    assert!(fields[0].data.is_empty());

    let body = "--B\r\nContent-Disposition: form-data; name=\"a\"\r\n\r\n--Bxyz\r\nContent-Disposition: form-data; name=\"b\"\r\n\r\n2\r\n--B--\r\n";
    let fields = parse_multipart(body.as_bytes(), "B").unwrap();
    assert_eq!(fields.len(), 2);
    assert_eq!(fields[1].data, b"2");
}

#[test]
fn missing_messages() {
    let body = "--B\r\nContent-Type: text/plain\r\n\r\nv\r\n--B--\r\n";
    assert_eq!(
        parse_multipart(body.as_bytes(), "B").unwrap_err(),
        "Missing Content-Disposition header"
    );
    let body = "--B\r\nContent-Disposition: form-data; name=\"a\"\r\n\r\nno end";
    assert_eq!(
        parse_multipart(body.as_bytes(), "B").unwrap_err(),
        "Unexpected EOF reading part body"
    );
    let body = "--B\r\nContent-Disposition: form-data; name=\"a\"\r\n";
    assert_eq!(
        parse_multipart(body.as_bytes(), "B").unwrap_err(),
        "Unexpected EOF reading part headers"
    );
}
