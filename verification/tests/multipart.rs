use rserver::request::multipart::{extract_boundary_from_content_type, parse_multipart};
use std::io::Read;

/// Everything a reader yields.
fn read_all<R: Read>(mut reader: R) -> Vec<u8> {
    let mut out = Vec::new();
    let mut buf = [0u8; 8192];
    loop {
        let n = reader.read(&mut buf).unwrap();
        if n == 0 {
            return out;
        }
        out.extend_from_slice(&buf[..n]);
    }
}

#[test]
fn test_extract_boundary_from_content_type() {
    let boundary = extract_boundary_from_content_type(
        "multipart/form-data; boundary=---------------------------974767299852498929531610575",
    );
    assert_eq!(
        boundary,
        Some("---------------------------974767299852498929531610575".to_string())
    );

    assert_eq!(extract_boundary_from_content_type("application/json"), None);
}

#[test]
fn multipart_test_parse_simple_multipart() {
    let boundary = "XYZ123";
    let body = format!(
        "--{}\r\n\
         Content-Disposition: form-data; name=\"field1\"\r\n\r\n\
         hello world\r\n\
         --{}\r\n\
         Content-Disposition: form-data; name=\"file\"; filename=\"a.txt\"\r\n\
         Content-Type: text/plain\r\n\r\n\
         file contents\r\n\
         --{}--\r\n",
        boundary, boundary, boundary
    );

    let fields = parse_multipart(body.as_bytes(), boundary).unwrap();
    assert_eq!(fields.len(), 2);

    assert_eq!(fields[0].name, "field1");
    assert_eq!(fields[0].data, b"hello world");
    assert_eq!(fields[0].filename, None);

    assert_eq!(fields[1].name, "file");
    assert_eq!(fields[1].filename.as_deref(), Some("a.txt"));
    assert_eq!(fields[1].content_type.as_deref(), Some("text/plain"));
    assert_eq!(fields[1].data, b"file contents");
}

#[test]
fn multipart_test_empty_body() {
    let boundary = "B";
    let body = format!(
        "--{}\r\n\
         Content-Disposition: form-data; name=\"empty\"\r\n\r\n\
         --{}--\r\n",
        boundary, boundary
    );

    let fields = parse_multipart(body.as_bytes(), boundary).unwrap();
    assert_eq!(fields.len(), 1);
    assert_eq!(fields[0].name, "empty");
    assert_eq!(fields[0].data, b"");
}

#[test]
fn multipart_test_completely_empty_stream() {
    let boundary = "EMPTY_STREAM";
    let result = parse_multipart(&b""[..], boundary);

    assert!(result.is_err());
    assert_eq!(
        result.unwrap_err(),
        "Unexpected EOF searching for initial boundary"
    );
}

#[test]
fn multipart_test_empty_multipart_payload() {
    let boundary = "NO_PARTS";
    let body = format!("--{}--\r\n", boundary);

    let fields = parse_multipart(body.as_bytes(), boundary);

    assert!(fields.is_ok());
    assert_eq!(fields.unwrap().len(), 0);
}

#[test]
fn multipart_test_binary_data_with_boundary_like_content() {
    let boundary = "abc";
    let body = format!(
        "--{}\r\n\
         Content-Disposition: form-data; name=\"bin\"\r\n\r\n\
         \r\n--abXdata\r\n--{}--\r\n",
        boundary, boundary
    );

    let fields = parse_multipart(body.as_bytes(), boundary).unwrap();
    assert_eq!(fields.len(), 1);
    assert_eq!(fields[0].data, b"\r\n--abXdata");
}

#[test]
fn test_binary_data_with_newline_bytes() {
    let boundary = "BIN";
    let body = format!(
        "--{}\r\n\
         Content-Disposition: form-data; name=\"pdf\"; filename=\"test.pdf\"\r\n\
         Content-Type: application/pdf\r\n\r\n\
         %PDF-1.4\n<binary>\n0x0A\nmore\x00\x01\x02\r\n--{}--\r\n",
        boundary, boundary
    );

    let fields = parse_multipart(body.as_bytes(), boundary).unwrap();
    assert_eq!(fields.len(), 1);
    assert_eq!(fields[0].name, "pdf");
    assert_eq!(fields[0].filename.as_deref(), Some("test.pdf"));
    assert_eq!(fields[0].content_type.as_deref(), Some("application/pdf"));
    assert!(fields[0].data.contains(&0x0A));
    assert!(fields[0].data.contains(&b'%'));
}

#[test]
fn multipart_test_multiple_fields() {
    let boundary = "MULTI";
    let body = format!(
        "--{}\r\n\
         Content-Disposition: form-data; name=\"a\"\r\n\r\n\
         1\r\n\
         --{}\r\n\
         Content-Disposition: form-data; name=\"b\"\r\n\r\n\
         2\r\n\
         --{}\r\n\
         Content-Disposition: form-data; name=\"c\"\r\n\r\n\
         3\r\n\
         --{}--\r\n",
        boundary, boundary, boundary, boundary
    );

    let fields = parse_multipart(body.as_bytes(), boundary).unwrap();
    assert_eq!(fields.len(), 3);

    assert_eq!(fields[0].name, "a");
    assert_eq!(fields[0].data, b"1");

    assert_eq!(fields[1].name, "b");
    assert_eq!(fields[1].data, b"2");

    assert_eq!(fields[2].name, "c");
    assert_eq!(fields[2].data, b"3");
}

#[test]
fn multipart_test_field_without_content_type() {
    let boundary = "NOCT";
    let body = format!(
        "--{}\r\n\
         Content-Disposition: form-data; name=\"noct\"\r\n\r\n\
         data\r\n\
         --{}--\r\n",
        boundary, boundary
    );

    let fields = parse_multipart(body.as_bytes(), boundary).unwrap();
    assert_eq!(fields.len(), 1);
    assert_eq!(fields[0].content_type, None);
    assert_eq!(fields[0].data, b"data");
}

#[test]
fn multipart_test_crlf_in_body() {
    let boundary = "CRLF";
    let body = format!(
        "--{}\r\n\
         Content-Disposition: form-data; name=\"text\"\r\n\r\n\
         line1\r\nline2\r\nline3\r\n\
         --{}--\r\n",
        boundary, boundary
    );

    let fields = parse_multipart(body.as_bytes(), boundary).unwrap();
    assert_eq!(fields.len(), 1);
    assert_eq!(fields[0].data, b"line1\r\nline2\r\nline3");
}

#[test]
fn multipart_test_missing_content_disposition() {
    let boundary = "MISSING";
    let body = format!(
        "--{}\r\n\
         Content-Type: text/plain\r\n\r\n\
         data\r\n\
         --{}--\r\n",
        boundary, boundary
    );

    let result = parse_multipart(body.as_bytes(), boundary);
    assert!(result.is_err());
}

#[test]
fn multipart_test_missing_name() {
    let boundary = "NONAME";
    let body = format!(
        "--{}\r\n\
         Content-Disposition: form-data\r\n\r\n\
         data\r\n\
         --{}--\r\n",
        boundary, boundary
    );

    let result = parse_multipart(body.as_bytes(), boundary);
    assert!(result.is_err());
}

#[test]
fn multipart_test_unexpected_eof() {
    let boundary = "EOF";
    let body = format!(
        "--{}\r\n\
         Content-Disposition: form-data; name=\"x\"\r\n\r\n\
         data",
        boundary
    );

    let result = parse_multipart(body.as_bytes(), boundary);
    assert!(result.is_err());
}

#[test]
fn multipart_test_filename_without_name() {
    let boundary = "FNAME";
    let body = format!(
        "--{}\r\n\
         Content-Disposition: form-data; filename=\"test.txt\"\r\n\r\n\
         content\r\n\
         --{}--\r\n",
        boundary, boundary
    );

    let result = parse_multipart(body.as_bytes(), boundary);
    assert!(result.is_err());
}

#[test]
fn multipart_test_whitespace_in_headers() {
    let boundary = "WS";
    let body = format!(
        "--{}\r\n\
         Content-Disposition:  form-data;  name=\"wsfield\"  ;  filename=\"ws.txt\"  \r\n\
         Content-Type:  text/plain  \r\n\r\n\
         data\r\n\
         --{}--\r\n",
        boundary, boundary
    );

    let fields = parse_multipart(body.as_bytes(), boundary).unwrap();
    assert_eq!(fields.len(), 1);
    assert_eq!(fields[0].name, "wsfield");
    assert_eq!(fields[0].filename.as_deref(), Some("ws.txt"));
    assert_eq!(fields[0].content_type.as_deref(), Some("text/plain"));
    assert_eq!(fields[0].data, b"data");
}

/// Deterministic pseudo-random byte generator (xorshift64*), so tests
/// exercise realistic binary payloads without external dependencies.
fn pseudo_random_bytes(seed: u64, len: usize) -> Vec<u8> {
    let mut state = seed;
    (0..len)
        .map(|_| {
            state ^= state << 13;
            state ^= state >> 7;
            state ^= state << 17;
            (state >> 32) as u8
        })
        .collect()
}

/// Wraps a payload in a standard browser-style multipart body with a
/// single file field.
fn build_file_upload(
    boundary: &str,
    filename: &str,
    content_type: &str,
    data: &[u8],
) -> Vec<u8> {
    let mut body = Vec::new();
    body.extend_from_slice(format!("--{}\r\n", boundary).as_bytes());
    body.extend_from_slice(
        format!(
            "Content-Disposition: form-data; name=\"file\"; filename=\"{}\"\r\n",
            filename
        )
        .as_bytes(),
    );
    body.extend_from_slice(format!("Content-Type: {}\r\n\r\n", content_type).as_bytes());
    body.extend_from_slice(data);
    body.extend_from_slice(format!("\r\n--{}--\r\n", boundary).as_bytes());
    body
}

struct ChunkedReader {
    data: Vec<u8>,
    pos: usize,
    chunk: usize,
}

impl Read for ChunkedReader {
    fn read(&mut self, buf: &mut [u8]) -> std::io::Result<usize> {
        if self.pos >= self.data.len() {
            return Ok(0);
        }
        let end = (self.pos + self.chunk).min(self.data.len());
        let n = end - self.pos;
        buf[..n].copy_from_slice(&self.data[self.pos..end]);
        self.pos = end;
        Ok(n)
    }
}

#[test]
fn test_binary_png_like_file_roundtrip() {
    // PNG magic number followed by binary chunks including \r, \n and \0
    let mut png = Vec::new();
    png.extend_from_slice(&[0x89, 0x50, 0x4E, 0x47, 0x0D, 0x0A, 0x1A, 0x0A]);
    png.extend_from_slice(&[0x00, 0x00, 0x00, 0x0D]);
    png.extend_from_slice(b"IHDR");
    png.extend_from_slice(&pseudo_random_bytes(42, 512));

    let boundary = "----WebKitFormBoundaryABC123";
    let body = build_file_upload(boundary, "image.png", "image/png", &png);

    let fields = parse_multipart(body.as_slice(), boundary).unwrap();
    assert_eq!(fields.len(), 1);
    assert_eq!(fields[0].name, "file");
    assert_eq!(fields[0].filename.as_deref(), Some("image.png"));
    assert_eq!(fields[0].content_type.as_deref(), Some("image/png"));
    assert_eq!(fields[0].data, png);
}

#[test]
fn test_binary_file_ending_with_cr() {
    // Payload ending in '\r' directly before the terminating \r\n boundary
    let mut data = pseudo_random_bytes(7, 300);
    data.push(b'\r');

    let boundary = "BOUND";
    let body = build_file_upload(boundary, "blob.bin", "application/octet-stream", &data);

    let fields = parse_multipart(body.as_slice(), boundary).unwrap();
    assert_eq!(fields[0].data, data);
}

#[test]
fn test_binary_containing_boundary_prefix_sequences() {
    // Payload full of near-boundary sequences that must NOT terminate it
    let boundary = "----WebKitFormBoundaryXYZ";
    let delimiter = format!("\r\n{}", boundary);

    let delimiter_bytes = delimiter.as_bytes();

    let mut data = Vec::new();
    data.extend_from_slice(b"start\r\n--");
    data.extend_from_slice(&delimiter_bytes[..delimiter_bytes.len() - 1]); // missing last char
    data.extend_from_slice(b"\r\n\r\n--");
    data.push(b'-'); // one extra dash
    data.extend_from_slice(delimiter_bytes);
    data.pop(); // drop final char so it is only a prefix
    data.extend_from_slice(b"\r\nend");

    let body = build_file_upload(boundary, "tricky.bin", "application/octet-stream", &data);

    for chunk in [1usize, 2, 3, 5, 8, 64] {
        let reader = ChunkedReader {
            data: body.clone(),
            pos: 0,
            chunk,
        };
        let fields = parse_multipart(&read_all(reader), boundary)
            .unwrap_or_else(|e| panic!("chunk {} failed: {}", chunk, e));
        assert_eq!(fields.len(), 1, "chunk {}", chunk);
        assert_eq!(
            fields[0].data, data,
            "payload corrupted with chunk size {}",
            chunk
        );
    }
}

#[test]
fn test_chunked_delivery_all_sizes_roundtrip() {
    // Deliver the same upload with every chunk size from 1 to 70 bytes to
    // force the delimiter to be split across buffer boundaries everywhere.
    let boundary = "----WebKitFormBoundaryChunked";
    let file_data = pseudo_random_bytes(0xDEAD_BEEF, 4000);
    let body = build_file_upload(boundary, "blob.bin", "application/octet-stream", &file_data);

    for chunk in 1..=70usize {
        let reader = ChunkedReader {
            data: body.clone(),
            pos: 0,
            chunk,
        };
        let fields = parse_multipart(&read_all(reader), boundary)
            .unwrap_or_else(|e| panic!("chunk size {} failed: {}", chunk, e));
        assert_eq!(fields.len(), 1, "chunk size {}", chunk);
        assert_eq!(
            fields[0].data, file_data,
            "binary corruption with chunk size {}",
            chunk
        );
    }
}

#[test]
fn test_large_binary_crossing_bufreader_capacity() {
    // Larger than BufReader's default 8 KiB capacity
    let file_data = pseudo_random_bytes(99, 40 * 1024 + 137);
    let boundary = "----WebKitFormBoundaryLarge";

    let fields = parse_multipart(
        build_file_upload(boundary, "big.bin", "application/zip", &file_data).as_slice(),
        boundary,
    )
    .unwrap();
    assert_eq!(fields.len(), 1);
    assert_eq!(fields[0].data, file_data);
}

#[test]
fn test_mixed_text_and_multiple_binary_files() {
    let img = pseudo_random_bytes(1, 1000);
    let zip = pseudo_random_bytes(2, 2000);
    let boundary = "MIXED123";

    let mut body = Vec::new();

    body.extend_from_slice(format!("--{}\r\n", boundary).as_bytes());
    body.extend_from_slice(b"Content-Disposition: form-data; name=\"title\"\r\n\r\n");
    body.extend_from_slice(b"My Vacation\r\n");

    body.extend_from_slice(format!("--{}\r\n", boundary).as_bytes());
    body.extend_from_slice(
        b"Content-Disposition: form-data; name=\"photo\"; filename=\"a.png\"\r\n",
    );
    body.extend_from_slice(b"Content-Type: image/png\r\n\r\n");
    body.extend_from_slice(&img);
    body.extend_from_slice(b"\r\n");

    body.extend_from_slice(format!("--{}\r\n", boundary).as_bytes());
    body.extend_from_slice(
        b"Content-Disposition: form-data; name=\"archive\"; filename=\"b.zip\"\r\n",
    );
    body.extend_from_slice(b"Content-Type: application/zip\r\n\r\n");
    body.extend_from_slice(&zip);
    body.extend_from_slice(b"\r\n");

    body.extend_from_slice(format!("--{}--\r\n", boundary).as_bytes());

    let fields = parse_multipart(body.as_slice(), boundary).unwrap();
    assert_eq!(fields.len(), 3);

    assert_eq!(fields[0].name, "title");
    assert_eq!(fields[0].filename, None);
    assert_eq!(fields[0].data, b"My Vacation");

    assert_eq!(fields[1].name, "photo");
    assert_eq!(fields[1].filename.as_deref(), Some("a.png"));
    assert_eq!(fields[1].content_type.as_deref(), Some("image/png"));
    assert_eq!(fields[1].data, img);

    assert_eq!(fields[2].name, "archive");
    assert_eq!(fields[2].filename.as_deref(), Some("b.zip"));
    assert_eq!(fields[2].data, zip);
}

#[test]
fn test_all_byte_values_roundtrip() {
    // Every possible byte value repeated, including all CRLF variants
    let mut data = Vec::with_capacity(256 * 4);
    for b in 0..=255u8 {
        data.extend_from_slice(&[b, b'\r', b'\n', b]);
    }

    let boundary = "ALLBYTES";
    let body = build_file_upload(boundary, "all.bin", "application/octet-stream", &data);

    let fields = parse_multipart(body.as_slice(), boundary).unwrap();
    assert_eq!(fields[0].data, data);
}

#[test]
fn multipart_test_large_body() {
    let boundary = "LARGE";
    let data = "x".repeat(1000);
    let body = format!(
        "--{}\r\n\
         Content-Disposition: form-data; name=\"big\"\r\n\r\n\
         {}\r\n\
         --{}--\r\n",
        boundary, data, boundary
    );

    let fields = parse_multipart(body.as_bytes(), boundary).unwrap();
    assert_eq!(fields.len(), 1);
    assert_eq!(fields[0].data.len(), 1000);
    assert_eq!(&fields[0].data, data.as_bytes());
}

#[test]
fn extract_boundary_variants() {
    assert_eq!(
        extract_boundary_from_content_type("Multipart/Form-Data; charset=x; BOUNDARY=\"abc\""),
        Some("abc".to_string())
    );
    assert_eq!(
        extract_boundary_from_content_type("multipart/form-data; boundary=\"\"; boundary=b2"),
        Some("b2".to_string())
    );
    assert_eq!(extract_boundary_from_content_type("multipart/form-data"), None);
    assert_eq!(extract_boundary_from_content_type("multipart/mixed; boundary=x"), None);
}

#[test]
fn form_field_text_is_lossy() {
    let body = b"--B\r\nContent-Disposition: form-data; name=\"t\"\r\n\r\nok\xff\r\n--B--\r\n";
    let fields = parse_multipart(body, "B").unwrap();
    assert_eq!(fields[0].text(), "ok\u{fffd}");
}

#[test]
fn preamble_and_unknown_lines_are_skipped() {
    let body = b"junk\r\n\r\n--B\r\ncontent-disposition: form-data; NAME=\"a\"\r\nX: 1\r\n\r\nv\r\n--B--";
    let fields = parse_multipart(body, "B").unwrap();
    assert_eq!(fields.len(), 1);
    assert_eq!(fields[0].name, "a");
    assert_eq!(fields[0].data, b"v");
}

#[test]
fn missing_name_and_disposition_messages() {
    let no_cd = b"--B\r\nContent-Type: text/plain\r\n\r\nx\r\n--B--\r\n";
    assert_eq!(parse_multipart(no_cd, "B"), Err("Missing Content-Disposition header".to_string()));
    let no_name = b"--B\r\nContent-Disposition: form-data\r\n\r\nx\r\n--B--\r\n";
    assert_eq!(parse_multipart(no_name, "B"), Err("Missing 'name' in Content-Disposition".to_string()));
    let eof = b"--B\r\nContent-Disposition: form-data; name=\"x\"\r\n\r\ndata";
    assert_eq!(parse_multipart(eof, "B"), Err("Unexpected EOF reading part body".to_string()));
    let eof_headers = b"--B\r\nContent-Disposition: form-data; name=\"x\"\r\n";
    assert_eq!(parse_multipart(eof_headers, "B"), Err("Unexpected EOF reading part headers".to_string()));
}

#[test]
fn body_ends_at_first_delimiter() {
    let body = "--B\r\nContent-Disposition: form-data; name=\"a\"\r\n\r\nfirst\r\n--B\r\nContent-Disposition: form-data; name=\"b\"\r\n\r\nsecond\r\n--B--\r\n";
    let fields = parse_multipart(body.as_bytes(), "B").unwrap();
    assert_eq!(fields.len(), 2);
    assert_eq!(fields[0].data, b"first");
    assert_eq!(fields[1].data, b"second");
}
