use http_file_server::request::headers_end;
use http_file_server::response::{mime_for_ext, Response};
use http_file_server::VERSION;

type Handle = u32;

fn bytes_of(response: Response<Handle>) -> (Vec<u8>, &'static [u8]) {
    match response {
        Response::Bytes { header, body } => (header, body),
        Response::File { .. } => panic!("expected Bytes variant"),
    }
}

#[test]
fn mime_html() {
    assert_eq!(mime_for_ext("html"), "text/html; charset=utf-8");
    assert_eq!(mime_for_ext("HTML"), "text/html; charset=utf-8");
}

#[test]
fn mime_unknown_falls_back() {
    assert_eq!(mime_for_ext("xyz"), "application/octet-stream");
}

#[test]
fn error_response_starts_with_status() {
    if let Response::Bytes { header, .. } = Response::<Handle>::not_found() {
        assert!(header.starts_with(b"HTTP/1.1 404"));
    } else {
        panic!("expected Bytes variant");
    }
}

#[test]
fn too_large_headers_uses_431() {
    if let Response::Bytes { header, .. } = Response::<Handle>::header_fields_too_large() {
        assert!(header.starts_with(b"HTTP/1.1 431"));
    } else {
        panic!("expected Bytes variant");
    }
}

#[test]
fn mime_table() {
    for (ext, mime) in [
        ("htm", "text/html; charset=utf-8"),
        ("css", "text/css; charset=utf-8"),
        ("js", "application/javascript"),
        ("mjs", "application/javascript"),
        ("json", "application/json"),
        ("txt", "text/plain; charset=utf-8"),
        ("svg", "image/svg+xml"),
        ("png", "image/png"),
        ("jpg", "image/jpeg"),
        ("JpEg", "image/jpeg"),
        ("gif", "image/gif"),
        ("ico", "image/x-icon"),
        ("webp", "image/webp"),
        ("pdf", "application/pdf"),
        ("wasm", "application/wasm"),
        ("xml", "application/xml"),
        ("", "application/octet-stream"),
        ("h\u{dc}ml", "application/octet-stream"),
    ] {
        assert_eq!(mime_for_ext(ext), mime);
    }
}

#[test]
fn file_response_header() {
    assert_eq!(VERSION, "0.1.0");
    match Response::ok(7u32, Some(50_000), "image/png") {
        Response::File { header, file } => {
            assert_eq!(file, 7);
            assert_eq!(
                String::from_utf8(header).unwrap(),
                "HTTP/1.1 200 OK\r\nContent-Type: image/png\r\nContent-Length: 50000\r\n\
                 Server: fast-http/0.1.0\r\nConnection: close\r\n\r\n"
            );
        }
        Response::Bytes { .. } => panic!("expected File variant"),
    }
}

#[test]
fn file_of_unknown_size_is_an_internal_error() {
    let (header, body) = bytes_of(Response::ok(7u32, None, "image/png"));
    assert!(header.starts_with(b"HTTP/1.1 500 Internal Server Error\r\n"));
    assert_eq!(body, b"500 Internal Server Error");
}

#[test]
fn error_response_bytes() {
    let (header, body) = bytes_of(Response::forbidden());
    assert_eq!(
        String::from_utf8(header).unwrap(),
        "HTTP/1.1 403 Forbidden\r\nContent-Type: text/plain; charset=utf-8\r\n\
         Content-Length: 13\r\nConnection: close\r\n\r\n"
    );
    assert_eq!(body, b"403 Forbidden");
}

#[test]
fn every_error_response_frames_its_body() {
    for (response, status) in [
        (Response::bad_request(), "400 Bad Request"),
        (Response::forbidden(), "403 Forbidden"),
        (Response::not_found(), "404 Not Found"),
        (Response::method_not_allowed(), "405 Method Not Allowed"),
        (Response::header_fields_too_large(), "431 Request Header Fields Too Large"),
        (Response::internal_error(), "500 Internal Server Error"),
    ] {
        let (header, body) = bytes_of(response);
        assert_eq!(headers_end(&header), Some(header.len()));
        assert_eq!(body, status.as_bytes());
        let header = String::from_utf8(header).unwrap();
        assert!(header.starts_with(&format!("HTTP/1.1 {status}\r\n")));
        assert!(header.contains(&format!("\r\nContent-Length: {}\r\n", body.len())));
        assert!(header.contains("\r\nConnection: close\r\n"));
    }
}

#[test]
fn file_sizes_are_written_in_full() {
    for (size, numeral) in [(0, "0"), (9, "9"), (10, "10"), (u64::MAX, "18446744073709551615")] {
        match Response::ok((), Some(size), "text/css") {
            Response::File { header, .. } => {
                let header = String::from_utf8(header).unwrap();
                assert!(header.contains(&format!("Content-Length: {numeral}\r\n")));
            }
            Response::Bytes { .. } => panic!("expected File variant"),
        }
    }
}
