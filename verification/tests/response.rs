use rserver::response::response::Response as PlainResponse;
use rserver::response::response::{asset_relative_path, fill_static, StaticFile};
use rserver::response::stream::StreamWriter;
use rserver::response::{sse_message, ContentType, Response, Status};
use rserver::transport::connection::{ConnectionMetadata, ConnectionStreamClone};
use rserver::transport::metadata::Metadata;
use std::io;
use std::sync::{Arc, Mutex};
use std::path::Path;

#[derive(Debug, Clone, Default)]
struct TestStream {
    data: Arc<Mutex<Vec<u8>>>,
}

impl StreamWriter for TestStream {
    fn write(&self, data: &[u8]) -> io::Result<()> {
        self.data
            .lock()
            .map_err(|_| io::Error::other("test stream mutex poisoned"))?
            .extend_from_slice(data);

        Ok(())
    }
}

impl std::io::Write for &TestStream {
    fn write(&mut self, buf: &[u8]) -> std::io::Result<usize> {
        self.data.lock().unwrap().extend_from_slice(buf);
        Ok(buf.len())
    }

    fn flush(&mut self) -> std::io::Result<()> {
        Ok(())
    }
}

impl ConnectionStreamClone for TestStream {
    fn clone_stream(&self) -> io::Result<Self> {
        Ok(self.clone())
    }
}

fn metadata() -> Arc<dyn Metadata> {
    Arc::new(ConnectionMetadata {
        stream: Arc::new(TestStream::default()),
    })
}

#[test]
fn test_test_response_new() {
    let response = PlainResponse::new(Status::OK, "Hello World", ContentType::TEXT);
    assert_eq!(response.status, Status::OK);
    assert_eq!(response.body, b"Hello World".to_vec());
    assert_eq!(response.content_type, ContentType::TEXT);
}

#[test]
fn test_test_response_to_bytes() {
    let response = PlainResponse::new(Status::OK, "OK", ContentType::TEXT);
    let bytes = response.to_bytes();
    let bytes_str = String::from_utf8(bytes).unwrap();
    assert!(bytes_str.contains("HTTP/1.1 200 OK"));
    assert!(bytes_str.contains("Content-Length: 2"));
    assert!(bytes_str.ends_with("OK"));
    assert_eq!(response.content_type, ContentType::TEXT);
}

#[test]
fn test_test_content_type_as_str() {
    assert_eq!(ContentType::HTML.as_str(), "text/html");
    assert_eq!(ContentType::JSON.as_str(), "application/json");
    assert_eq!(ContentType::UNKNOWN.as_str(), "application/octet-stream");
}

#[test]
fn test_test_response_add_header() {
    let mut response = PlainResponse::new(Status::OK, "OK", ContentType::TEXT);
    response.set_header("X-Test".to_string(), "Value".to_string());
    assert_eq!(response.headers.get("X-Test").unwrap(), "Value");

    // Ensure duplicate headers are not added (as per implementation)
    response.set_header("X-Test".to_string(), "New Value".to_string());
    assert_eq!(response.headers.get("X-Test").unwrap(), "Value");
}

#[test]
fn test_test_status_helpers() {
    assert_eq!(Status::OK.as_u16(), 200);
    assert_eq!(Status::NotFound.as_u16(), 404);
    assert_eq!(Status::InternalServerError.as_u16(), 500);

    assert_eq!(Status::OK.reason_phrase(), "OK");
    assert_eq!(Status::NotFound.reason_phrase(), "Not Found");
    assert_eq!(
        Status::InternalServerError.reason_phrase(),
        "Internal Server Error"
    );
}

#[test]
fn test_test_response_404() {
    let response = PlainResponse::new(Status::NotFound, "Not Found", ContentType::TEXT);
    let bytes = response.to_bytes();
    let bytes_str = String::from_utf8(bytes).unwrap();
    assert!(bytes_str.contains("HTTP/1.1 404 Not Found"));
    assert_eq!(response.content_type, ContentType::TEXT);
}

#[test]
fn test_test_response_to_bytes_with_headers() {
    let mut response = PlainResponse::new(Status::OK, "OK", ContentType::TEXT);
    response.set_header("Custom-Header".to_string(), "Custom-Value".to_string());
    let bytes = response.to_bytes();
    let bytes_str = String::from_utf8(bytes).unwrap();
    assert!(bytes_str.contains("Custom-Header: Custom-Value\r\n"));
}

#[test]
fn tests_test_response_new() {
    let metadata = metadata();

    let response = Response::new(metadata, Status::OK, b"Hello World", ContentType::TEXT);

    assert_eq!(response.status, Status::OK);
    assert_eq!(response.body, b"Hello World".to_vec());
    assert_eq!(response.content_type, ContentType::TEXT);
}

#[test]
fn tests_test_response_to_bytes() {
    let metadata = metadata();

    let response = Response::new(metadata, Status::OK, "OK", ContentType::TEXT);

    let bytes = response.build();
    let bytes_str = String::from_utf8(bytes).unwrap();

    assert!(bytes_str.contains("HTTP/1.1 200 OK"));
    assert!(bytes_str.contains("Content-Length: 2"));
    assert!(bytes_str.ends_with("OK"));
}

#[test]
fn tests_test_content_type_as_str() {
    assert_eq!(ContentType::HTML.as_str(), "text/html");
    assert_eq!(ContentType::JSON.as_str(), "application/json");
    assert_eq!(ContentType::UNKNOWN.as_str(), "application/octet-stream");
}

#[test]
fn tests_test_response_add_header() {
    let metadata = metadata();

    let mut response = Response::new(metadata, Status::OK, "OK", ContentType::TEXT);

    response.header("X-Test".to_string(), "Value".to_string());

    assert_eq!(response.headers.get("X-Test").unwrap(), "Value");

    // Ensure duplicate headers are not added.
    response.header("X-Test".to_string(), "New Value".to_string());

    assert_eq!(response.headers.get("X-Test").unwrap(), "Value");
}

#[test]
fn tests_test_status_helpers() {
    assert_eq!(Status::OK.as_u16(), 200);
    assert_eq!(Status::NotFound.as_u16(), 404);
    assert_eq!(Status::InternalServerError.as_u16(), 500);

    assert_eq!(Status::OK.reason_phrase(), "OK");
    assert_eq!(Status::NotFound.reason_phrase(), "Not Found");
    assert_eq!(
        Status::InternalServerError.reason_phrase(),
        "Internal Server Error"
    );
}

#[test]
fn tests_test_response_404() {
    let metadata = metadata();

    let response = Response::new(metadata, Status::NotFound, "Not Found", ContentType::TEXT);

    let bytes = response.build();
    let bytes_str = String::from_utf8(bytes).unwrap();

    assert!(bytes_str.contains("HTTP/1.1 404 Not Found"));
}

#[test]
fn tests_test_response_to_bytes_with_headers() {
    let metadata = metadata();

    let mut response = Response::new(metadata, Status::OK, "OK", ContentType::TEXT);

    response.header("Custom-Header".to_string(), "Custom-Value".to_string());

    let bytes = response.build();
    let bytes_str = String::from_utf8(bytes).unwrap();

    assert!(bytes_str.contains("Custom-Header: Custom-Value\r\n"));
}

#[test]
fn test_response_stream() {
    let stream = Arc::new(TestStream::default());
    let metadata = Arc::new(ConnectionMetadata {
        stream: stream.clone(),
    });

    let response = Response::new(metadata, Status::OK, b"", ContentType::SSE);

    response.stream("Hello").unwrap();

    let written = stream.data.lock().unwrap().clone();
    let written = String::from_utf8(written).unwrap();

    assert!(written.contains("HTTP/1.1 200 OK"));
    assert!(written.contains("Content-Type: text/event-stream"));
    assert!(written.contains("data: Hello"));
}

#[test]
fn test_response_flush() {
    let stream = Arc::new(TestStream::default());
    let meta = Arc::new(ConnectionMetadata {
        stream: stream.clone(),
    });

    let mut response = Response::new(meta, Status::OK, b"Hello", ContentType::TEXT);

    response.header("X-Test", "Value");
    response.flush().unwrap();

    let written = stream.data.lock().unwrap().clone();
    let written = String::from_utf8(written).unwrap();

    assert!(written.contains("HTTP/1.1 200 OK"));
    assert!(written.contains("Content-Length: 5"));
    assert!(written.contains("X-Test: Value"));
    assert!(written.ends_with("Hello"));
}

#[test]
fn to_bytes_exact_layout_with_headers_in_insertion_order() {
    let mut response = PlainResponse::new(Status::Created, "{}", ContentType::JSON);
    response.set_header("B".to_string(), "2".to_string());
    response.set_header("A".to_string(), "1".to_string());
    response.set_header("B".to_string(), "3".to_string());
    let text = String::from_utf8(response.to_bytes()).unwrap();
    assert_eq!(
        text,
        "HTTP/1.1 201 Created\r\nContent-Type: application/json\r\nContent-Length: 2\r\nB: 2\r\nA: 1\r\n\r\n{}"
    );
    assert_eq!(response.headers.len(), 2);
}

#[test]
fn setters_replace_fields() {
    let mut response = PlainResponse::new(Status::OK, "a", ContentType::TEXT);
    response.status(Status::NotFound).body(vec![1u8, 2, 3]).content_type(ContentType::PNG);
    assert_eq!(response.status, Status::NotFound);
    assert_eq!(response.body, vec![1u8, 2, 3]);
    assert_eq!(response.content_type, ContentType::PNG);
}

#[test]
fn sse_message_layout() {
    let bytes = sse_message("tick");
    assert_eq!(
        String::from_utf8(bytes).unwrap(),
        "HTTP/1.1 200 OK\r\nContent-Type: text/event-stream\r\nCache-Control: no-cache\r\nConnection: keep-alive\r\n\r\ndata: tick\n\n\n\n"
    );
}

#[test]
fn status_codes_and_phrases_sample() {
    assert_eq!(Status::ImATeapot.as_u16(), 418);
    assert_eq!(Status::ImATeapot.reason_phrase(), "Im A Teapot");
    assert_eq!(Status::NetworkAuthenticationRequired.as_u16(), 511);
    assert_eq!(Status::MovedTemporarily.reason_phrase(), "Moved Temporarily");
}

#[test]
fn content_type_for_extensions() {
    assert_eq!(ContentType::get_content_type(Path::new("a/b/index.html")), ContentType::HTML);
    assert_eq!(ContentType::get_content_type(Path::new("photo.jpeg")), ContentType::JPEG);
    assert_eq!(ContentType::get_content_type(Path::new("photo.jpg")), ContentType::JPEG);
    assert_eq!(ContentType::get_content_type(Path::new("font.woff2")), ContentType::WOFF2);
    assert_eq!(ContentType::get_content_type(Path::new("README")), ContentType::UNKNOWN);
    assert_eq!(ContentType::get_content_type(Path::new("x.HTML")), ContentType::UNKNOWN);
    assert_eq!(ContentType::for_extension(Some("css")), ContentType::CSS);
    assert_eq!(ContentType::for_extension(None), ContentType::UNKNOWN);
}

#[test]
fn response_clone_keeps_fields_and_connection() {
    let meta = metadata();
    let mut response = Response::new(meta.clone(), Status::NotFound, "gone", ContentType::HTML);
    response.header("X-A", "1");
    let copy = response.clone();
    assert_eq!(copy.status, Status::NotFound);
    assert_eq!(copy.body, b"gone".to_vec());
    assert_eq!(copy.content_type, ContentType::HTML);
    assert!(Arc::ptr_eq(&copy.metadata, &response.metadata));
    assert_eq!(copy.build(), response.build());
}

#[test]
fn handler_response_streams_and_flushes_to_its_connection() {
    let stream = Arc::new(TestStream::default());
    let mut response = PlainResponse::new(Status::OK, "Hi", ContentType::TEXT);
    response.metadata = Some(Arc::new(ConnectionMetadata { stream: stream.clone() }));

    response.stream("tick").unwrap();
    let streamed = stream.data.lock().unwrap().clone();
    assert_eq!(streamed, sse_message("tick"));

    stream.data.lock().unwrap().clear();
    response.flush().unwrap();
    let flushed = stream.data.lock().unwrap().clone();
    assert_eq!(
        String::from_utf8(flushed).unwrap(),
        "HTTP/1.1 200 OK\r\nContent-Type: text/plain\r\nContent-Length: 2\r\n\r\nHi"
    );
}

#[test]
fn fill_static_serves_the_file_or_not_found() {
    let mut res = PlainResponse::new(Status::OK, Vec::<u8>::new(), ContentType::TEXT);
    fill_static(
        &mut res,
        Some(StaticFile {
            content: b"<p>hi</p>".to_vec(),
            content_type: ContentType::HTML,
            etag: "\"abc\"".to_string(),
            last_modified: String::new(),
        }),
    );
    assert_eq!(res.body, b"<p>hi</p>");
    assert_eq!(res.content_type, ContentType::HTML);
    assert_eq!(res.status, Status::OK);
    assert_eq!(
        res.to_bytes(),
        b"HTTP/1.1 200 OK\r\nContent-Type: text/html\r\nContent-Length: 9\r\nCache-control: public, max-age=3600\r\nETag: \"abc\"\r\n\r\n<p>hi</p>".to_vec()
    );

    let mut res = PlainResponse::new(Status::OK, Vec::<u8>::new(), ContentType::TEXT);
    fill_static(&mut res, None);
    assert_eq!(res.body, b"Not Found");
    assert_eq!(res.status, Status::NotFound);
}

#[test]
fn an_unbound_response_cannot_stream_or_flush() {
    let response = PlainResponse::new(Status::OK, "Hi", ContentType::TEXT);
    assert_eq!(response.stream("tick").unwrap_err().kind(), io::ErrorKind::NotConnected);
    assert_eq!(response.flush().unwrap_err().kind(), io::ErrorKind::NotConnected);
}

#[test]
fn asset_paths_stay_below_the_assets_directory() {
    assert_eq!(asset_relative_path("/css/site.css?v=2"), Some("css/site.css"));
    assert_eq!(asset_relative_path("//index.html"), Some("index.html"));
    assert_eq!(asset_relative_path("/a/./b.txt"), Some("a/./b.txt"));
    assert_eq!(asset_relative_path("/..foo"), Some("..foo"));
    assert_eq!(asset_relative_path("/"), Some(""));
    assert_eq!(asset_relative_path("/../etc/passwd"), None);
    assert_eq!(asset_relative_path("/a/../../b"), None);
    assert_eq!(asset_relative_path("/a/.."), None);
    assert_eq!(asset_relative_path("/./a"), None);
    assert_eq!(asset_relative_path("/."), None);
}
