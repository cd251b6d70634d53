use http_file_server::request::{
    headers_end, hex_nibble, percent_decode, Method, ParseError, Request,
};

#[test]
fn headers_end_found() {
    let buf = b"GET / HTTP/1.1\r\nHost: x\r\n\r\n";
    assert_eq!(headers_end(buf), Some(buf.len()));
}

#[test]
fn headers_end_incomplete() {
    assert_eq!(headers_end(b"GET / HTTP/1.1\r\n"), None);
}

#[test]
fn parse_get() {
    let buf = b"GET /hello HTTP/1.1\r\nHost: x\r\n\r\n";
    let req = Request::parse(buf).unwrap();
    assert_eq!(req.method, Method::Get);
    assert_eq!(req.path, "/hello");
}

#[test]
fn parse_strips_query_and_decodes() {
    let buf = b"GET /hello%20world?v=1 HTTP/1.1\r\n\r\n";
    let req = Request::parse(buf).unwrap();
    assert_eq!(req.path, "/hello world");
}

#[test]
fn headers_end_is_the_first_one() {
    assert_eq!(headers_end(b"a\r\n\r\nb\r\n\r\n"), Some(5));
    assert_eq!(headers_end(b"\r\n\r\n"), Some(4));
    assert_eq!(headers_end(b"\r\r\n\r\n"), Some(5));
    assert_eq!(headers_end(b"\r\n\r"), None);
    assert_eq!(headers_end(b""), None);
}

#[test]
fn headers_end_is_not_moved_by_later_bytes() {
    let head = b"GET / HTTP/1.1\r\n\r\n".to_vec();
    let mut more = head.clone();
    more.extend_from_slice(b"GET /next HTTP/1.1\r\n\r\n");
    assert_eq!(headers_end(&more), headers_end(&head));
}

#[test]
fn parse_reads_only_the_first_line() {
    let short = Request::parse(b"GET /a HTTP/1.1\r\n").unwrap();
    let long = Request::parse(b"GET /a HTTP/1.1\r\nHost: \xff\r\n\r\n").unwrap();
    assert_eq!(short.method, long.method);
    assert_eq!(short.path, long.path);
}

#[test]
fn parse_other_methods() {
    let req = Request::parse(b"POST /f.txt HTTP/1.0\r\n\r\n").unwrap();
    assert_eq!(req.method, Method::Other("POST".to_string()));
    assert_eq!(req.path, "/f.txt");
    let req = Request::parse("M\u{e9}TH / HTTP/1.1\r\n\r\n".as_bytes()).unwrap();
    assert_eq!(req.method, Method::Other("M\u{e9}TH".to_string()));
    // An empty method is a method of its own.
    let req = Request::parse(b" / HTTP/1.1\r\n\r\n").unwrap();
    assert_eq!(req.method, Method::Other(String::new()));
    // Methods are told apart by case.
    let req = Request::parse(b"get / HTTP/1.1\r\n\r\n").unwrap();
    assert_eq!(req.method, Method::Other("get".to_string()));
}

#[test]
fn parse_rejects_malformed_lines() {
    for buf in [
        &b"GET / HTTP/1.1"[..],
        &b"GET /\r\n\r\n"[..],
        &b"GET\r\n\r\n"[..],
        &b"\r\n\r\n"[..],
        &b"GET / HTTP/2.0\r\n\r\n"[..],
        &b"GET / HTTP/1.1 \r\n\r\n"[..],
        &b"GET  / HTTP/1.1\r\n\r\n"[..],
        &b"GET /\xff HTTP/1.1\r\n\r\n"[..],
        &b"GET /%ff HTTP/1.1\r\n\r\n"[..],
    ] {
        assert!(matches!(Request::parse(buf), Err(ParseError::InvalidRequestLine)));
    }
}

#[test]
fn parse_takes_the_path_before_the_first_question_mark() {
    assert_eq!(Request::parse(b"GET /a?b?c HTTP/1.1\r\n\r\n").unwrap().path, "/a");
    assert_eq!(Request::parse(b"GET ?b HTTP/1.1\r\n\r\n").unwrap().path, "");
    // An escaped question mark belongs to the path.
    assert_eq!(Request::parse(b"GET /a%3fb HTTP/1.1\r\n\r\n").unwrap().path, "/a?b");
}

#[test]
fn percent_decoding() {
    for (encoded, decoded) in [
        ("/plain", "/plain"),
        ("%41%62", "Ab"),
        ("%e2%82%AC", "\u{20ac}"),
        ("\u{20ac}%20", "\u{20ac} "),
        ("100%", "100%"),
        ("%4", "%4"),
        ("%zz%2g", "%zz%2g"),
        ("%%41", "%A"),
        ("%2541", "%41"),
        ("", ""),
    ] {
        assert_eq!(percent_decode(encoded).unwrap(), decoded);
    }
    assert!(percent_decode("%ff").is_err());
    assert!(percent_decode("a%e2%82").is_err());
}

#[test]
fn percent_decoding_undoes_encoding() {
    let name = "a b/\u{fc}%?";
    let mut encoded = String::new();
    for b in name.bytes() {
        encoded.push_str(&format!("%{:02X}", b));
    }
    assert_eq!(percent_decode(&encoded).unwrap(), name);
}

#[test]
fn every_path_can_be_asked_for() {
    let path = "/a b?\r\n\u{20ac}%2e.txt";
    let mut line = "GET ".to_string();
    for b in path.bytes() {
        if b.is_ascii_alphanumeric() || b == b'/' || b == b'.' {
            line.push(b as char);
        } else {
            line.push_str(&format!("%{:02x}", b));
        }
    }
    for version in ["HTTP/1.1", "HTTP/1.0"] {
        let head = format!("{line} {version}\r\nHost: x\r\n\r\n");
        let req = Request::parse(head.as_bytes()).unwrap();
        assert_eq!(req.method, Method::Get);
        assert_eq!(req.path, path);
    }
}

#[test]
fn hex_digits() {
    assert_eq!(hex_nibble(b'0'), Some(0));
    assert_eq!(hex_nibble(b'9'), Some(9));
    assert_eq!(hex_nibble(b'a'), Some(10));
    assert_eq!(hex_nibble(b'F'), Some(15));
    assert_eq!(hex_nibble(b'g'), None);
    assert_eq!(hex_nibble(b'/'), None);
}
