use http_file_server::connection::{Action, Connection, Event, State, MAX_RECEIVED_HEADERS_SIZE};
use http_file_server::files::{
    confine, confine_index, deliver, file_path, serve_file, FileEvent, Lookup, LookupStep,
};
use http_file_server::io::ErrorKind;
use http_file_server::paths::starts_with;
use http_file_server::request::headers_end;
use http_file_server::response::Response;

const ROOT: &str = "/srv/www";

/// The files of a site below the root, and what they hold.
type Site<'a> = &'a [(&'a str, &'a str)];

/// A file of a site that holds this, and then a path, is a link to that path.
const LINK: &str = "link to ";

/// Resolves a path among the files of a site: the path without empty parts and links,
/// and whether it is a directory.
fn resolve(site: Site, path: &[u8]) -> Result<(String, bool), ErrorKind> {
    let text = std::str::from_utf8(path).map_err(|_| ErrorKind::Other)?;
    let parts: Vec<&str> =
        text.split('/').filter(|part| !part.is_empty() && *part != ".").collect();
    let found = format!("/{}", parts.join("/"));
    for (name, held) in site {
        let full = format!("{ROOT}/{name}");
        if full == found {
            return match held.strip_prefix(LINK) {
                Some(target) => Ok((target.to_string(), false)),
                None => Ok((found, false)),
            };
        }
        if full.starts_with(&format!("{found}/")) {
            return Ok((found, true));
        }
        if found.starts_with(&format!("{full}/")) {
            return Err(ErrorKind::NotADirectory);
        }
    }
    if found == ROOT {
        Ok((found, true))
    } else {
        Err(ErrorKind::NotFound)
    }
}

/// Looks a path up as the server does; files are numbered.
fn lookup(site: Site, url_path: &str) -> Response<usize> {
    let root = ROOT.as_bytes();
    let resolved = |path: &[u8]| resolve(site, path).map(|(path, _)| path.into_bytes());
    let mut step = Lookup::start(url_path, root);
    loop {
        let lookup = match step {
            LookupStep::Continue(lookup) => lookup,
            LookupStep::Respond(response) => return response,
        };
        let event = match &lookup {
            Lookup::Resolve { candidate } => FileEvent::Resolved(resolved(candidate)),
            Lookup::Inspect { canonical } => {
                FileEvent::IsDirectory(matches!(resolve(site, canonical), Ok((_, true))))
            }
            Lookup::ResolveIndex { index } => FileEvent::Resolved(resolved(index)),
            Lookup::Open { target, .. } => {
                assert!(starts_with(target, root));
                FileEvent::Opened(
                    site.iter()
                        .position(|(name, _)| format!("{ROOT}/{name}").as_bytes() == target)
                        .map(|file| (file, Some(site[file].1.len() as u64)))
                        .ok_or(ErrorKind::NotFound),
                )
            }
        };
        step = lookup.step(event, root);
    }
}

/// Everything that a client gets back before the connection is dropped.
fn exchange(site: Site, request: &str) -> (u16, String) {
    let mut connection: Connection<usize> = Connection::new(0);
    let mut incoming = Some(request.as_bytes().to_vec());
    let mut out: Vec<u8> = Vec::new();
    let mut now = 0u64;
    let mut event = Event::Turn;
    loop {
        now += 1;
        let step = connection.advance(now, event);
        event = match step.action {
            Action::Keep => Event::Turn,
            Action::Drop => break,
            Action::Handshake => panic!("no handshake"),
            Action::Receive { room } => match incoming.take() {
                Some(bytes) => {
                    assert!(bytes.len() <= room);
                    Event::Received(Ok(bytes))
                }
                None => Event::Received(Err(ErrorKind::WouldBlock)),
            },
            Action::Serve { path } => Event::Respond(lookup(site, &path)),
            Action::Transmit => match &connection.state {
                State::Writing { buf, written, .. } => {
                    let n = std::cmp::min(7, buf.len() - *written);
                    out.extend_from_slice(&buf[*written..*written + n]);
                    Event::Written(Ok(n))
                }
                _ => panic!("nothing to write"),
            },
            Action::SendFile => match &connection.state {
                State::Sending(sending) => {
                    let data = site[sending.file].1.as_bytes();
                    let from = sending.offset as usize;
                    let n = std::cmp::min(3, data.len() - from);
                    out.extend_from_slice(&data[from..from + n]);
                    Event::Sent { offset: (from + n) as i64, result: Ok(n) }
                }
                _ => panic!("nothing to send"),
            },
        };
    }
    let text = String::from_utf8(out).unwrap();
    let status: u16 = text
        .lines()
        .next()
        .unwrap_or("")
        .split_whitespace()
        .nth(1)
        .unwrap_or("0")
        .parse()
        .unwrap_or(0);
    (status, text)
}

fn get(site: Site, path: &str) -> (u16, String) {
    exchange(site, &format!("GET {path} HTTP/1.1\r\nHost: localhost\r\n\r\n"))
}

#[test]
fn serves_existing_file() {
    let site = [("hello.txt", "hello world")];
    let (status, body) = get(&site, "/hello.txt");
    assert_eq!(status, 200);
    assert!(body.ends_with("hello world"));
}

#[test]
fn returns_404_for_missing_file() {
    let (status, _) = get(&[], "/does_not_exist.txt");
    assert_eq!(status, 404);
}

#[test]
fn serves_index_html_for_directory() {
    let site = [("sub/index.html", "<h1>Index</h1>")];
    let (status, body) = get(&site, "/sub/");
    assert_eq!(status, 200);
    assert!(body.contains("<h1>Index</h1>"));
}

#[test]
fn rejects_path_traversal() {
    let (status, _) = get(&[], "/../etc/passwd");
    // 403 (traversal detected); never 200.
    assert!(status == 403, "unexpected status {status}");
}

#[test]
fn returns_405_for_non_get() {
    let site = [("f.txt", "x")];
    let (status, _) = exchange(&site, "POST /f.txt HTTP/1.1\r\nHost: localhost\r\n\r\n");
    assert_eq!(status, 405);
}

#[test]
fn correct_content_type_for_html() {
    let site = [("page.html", "<p>hi</p>")];
    let (_status, response) = get(&site, "/page.html");
    assert!(response.contains("text/html"));
}

#[test]
fn percent_encoded_path_decoded() {
    let site = [("hello world.txt", "spaces")];
    let (status, body) = get(&site, "/hello%20world.txt");
    assert_eq!(status, 200);
    assert!(body.ends_with("spaces"));
}

#[test]
fn whole_file_response_on_the_wire() {
    let site = [("a.css", "0123456789")];
    let (_, response) = get(&site, "//a.css?v=2");
    assert_eq!(
        response,
        "HTTP/1.1 200 OK\r\nContent-Type: text/css; charset=utf-8\r\nContent-Length: 10\r\n\
         Server: fast-http/0.1.0\r\nConnection: close\r\n\r\n0123456789"
    );
    assert_eq!(headers_end(response.as_bytes()), Some(response.len() - 10));
}

#[test]
fn whole_error_response_on_the_wire() {
    let (status, response) = exchange(&[], "nonsense\r\n\r\n");
    assert_eq!(status, 400);
    assert_eq!(
        response,
        "HTTP/1.1 400 Bad Request\r\nContent-Type: text/plain; charset=utf-8\r\n\
         Content-Length: 15\r\nConnection: close\r\n\r\n400 Bad Request"
    );
}

#[test]
fn oversized_headers_are_answered_with_431() {
    let (status, _) = exchange(&[], &"x".repeat(MAX_RECEIVED_HEADERS_SIZE));
    assert_eq!(status, 431);
}

#[test]
fn empty_files_are_served() {
    let (status, response) = get(&[("empty", "")], "/empty");
    assert_eq!(status, 200);
    assert!(response.contains("Content-Type: application/octet-stream\r\nContent-Length: 0\r\n"));
    assert!(response.ends_with("\r\n\r\n"));
}

#[test]
fn root_and_directories_without_an_index() {
    let site = [("index.html", "top"), ("docs/a.txt", "a")];
    assert!(get(&site, "/").1.ends_with("top"));
    assert_eq!(get(&site, "/docs").0, 404);
}

fn forbidden(r: Result<Vec<u8>, Response<()>>) -> bool {
    status_of(r.err()) == 403
}

fn status_of(r: Option<Response<()>>) -> u16 {
    match r {
        Some(Response::Bytes { header, .. }) => {
            String::from_utf8(header[9..12].to_vec()).unwrap().parse().unwrap()
        }
        Some(Response::File { .. }) => 200,
        None => 0,
    }
}

#[test]
fn parent_segments_are_refused_wherever_they_stand() {
    for path in ["..", "/..", "/a/../b", "a/..", "../a", "//..//"] {
        assert!(forbidden(serve_file(path, b"/srv")));
    }
    // Only a whole segment names the parent directory.
    for (path, candidate) in [
        ("/..a", "/srv/..a"),
        ("/a..", "/srv/a.."),
        ("/...", "/srv/..."),
        ("/a/./b", "/srv/a/./b"),
        ("///a", "/srv/a"),
        ("", "/srv/"),
    ] {
        let found = serve_file::<()>(path, b"/srv");
        assert!(matches!(found, Ok(c) if c == candidate.as_bytes()));
    }
    // Escapes are decoded before the path is looked at.
    assert_eq!(get(&[], "/%2e%2e/etc/passwd").0, 403);
    assert_eq!(get(&[], "/a/%2E./b").0, 403);
}

#[test]
fn canonical_paths_outside_the_root_are_refused() {
    let root = b"/srv/www";
    for path in ["/srv/www", "/srv/www/a", "/srv/www/a/b"] {
        let r = confine::<()>(Ok(path.as_bytes().to_vec()), root);
        assert!(matches!(r, Ok(p) if p == path.as_bytes()));
    }
    for path in ["/srv/www2", "/srv", "/", "/etc/passwd", "srv/www"] {
        assert!(forbidden(confine(Ok(path.as_bytes().to_vec()), root)));
    }
    let failed = |kind| status_of(confine::<()>(Err(kind), root).err());
    assert_eq!(failed(ErrorKind::NotFound), 404);
    assert_eq!(failed(ErrorKind::NotADirectory), 404);
    assert_eq!(failed(ErrorKind::PermissionDenied), 500);
    assert_eq!(failed(ErrorKind::Interrupted), 500);
    assert_eq!(failed(ErrorKind::Other), 500);
}

#[test]
fn a_path_below_a_plain_file_is_missing() {
    let site = [("hello.txt", "hello world")];
    assert_eq!(get(&site, "/hello.txt/x").0, 404);
    assert_eq!(get(&site, "/hello.txt").0, 200);
}

#[test]
fn links_out_of_the_root_are_refused() {
    let site = [
        ("out.txt", "link to /etc/passwd"),
        ("sub/index.html", "link to /etc/passwd"),
        ("in/index.html", "link to /srv/www/page.txt"),
        ("page.txt", "inside"),
    ];
    assert_eq!(get(&site, "/out.txt").0, 403);
    assert_eq!(get(&site, "/sub/").0, 403);
    // One that stays inside is served, under the type of an index.
    let (status, response) = get(&site, "/in/");
    assert_eq!(status, 200);
    assert!(response.contains("Content-Type: text/html; charset=utf-8\r\n"));
    assert!(response.ends_with("inside"));
}

#[test]
fn outcomes_of_resolving_an_index() {
    let root = b"/srv/www";
    let inside = confine_index::<()>(Ok(b"/srv/www/d/index.html".to_vec()), root);
    assert!(matches!(inside, Ok(p) if p == b"/srv/www/d/index.html"));
    assert!(forbidden(confine_index(Ok(b"/srv/www2/index.html".to_vec()), root)));
    let failed = |kind| status_of(confine_index::<()>(Err(kind), root).err());
    assert_eq!(failed(ErrorKind::NotFound), 404);
    assert_eq!(failed(ErrorKind::NotADirectory), 404);
    assert_eq!(failed(ErrorKind::PermissionDenied), 403);
    assert_eq!(failed(ErrorKind::Interrupted), 500);
    assert_eq!(failed(ErrorKind::Other), 500);
}

#[test]
fn index_of_a_directory_stays_below_the_root() {
    assert_eq!(file_path(b"/srv/www/d".to_vec(), true), b"/srv/www/d/index.html");
    assert_eq!(file_path(b"/".to_vec(), true), b"/index.html");
    assert_eq!(file_path(b"/srv/www/f".to_vec(), false), b"/srv/www/f");
}

#[test]
fn outcomes_of_opening_a_file() {
    let failed = |kind| status_of(Some(deliver::<()>(b"/a.txt", Err(kind))));
    assert_eq!(failed(ErrorKind::NotFound), 404);
    assert_eq!(failed(ErrorKind::NotADirectory), 404);
    assert_eq!(failed(ErrorKind::PermissionDenied), 403);
    assert_eq!(failed(ErrorKind::WouldBlock), 500);
    assert_eq!(failed(ErrorKind::Other), 500);
    assert_eq!(status_of(Some(deliver(b"/a.txt", Ok(((), None))))), 500);
    for (path, mime) in [
        (&b"/a/b.HTML"[..], "text/html; charset=utf-8"),
        (&b"/a/index.html/"[..], "text/html; charset=utf-8"),
        (&b"/a.png/b"[..], "application/octet-stream"),
        (&b"/.html"[..], "application/octet-stream"),
        (&b"/a.tar.json"[..], "application/json"),
        (&b"/a.\xff"[..], "application/octet-stream"),
    ] {
        match deliver(path, Ok(((), Some(1)))) {
            Response::File { header, .. } => {
                let header = String::from_utf8(header).unwrap();
                assert!(header.contains(&format!("Content-Type: {mime}\r\n")));
            }
            Response::Bytes { .. } => panic!("expected File variant"),
        }
    }
}

fn answered(step: LookupStep<()>) -> u16 {
    match step {
        LookupStep::Respond(response) => status_of(Some(response)),
        LookupStep::Continue(_) => 0,
    }
}

#[test]
fn a_lookup_step_by_step() {
    let root = b"/srv/www";
    assert_eq!(answered(Lookup::start("/../x", root)), 403);
    let step = Lookup::start::<()>("/d", root);
    let lookup = match step {
        LookupStep::Continue(Lookup::Resolve { candidate }) => {
            assert_eq!(candidate, b"/srv/www/d");
            Lookup::Resolve { candidate }
        }
        _ => panic!("expected a path to resolve"),
    };
    let step = lookup.step::<()>(FileEvent::Resolved(Ok(b"/srv/www/e".to_vec())), root);
    assert!(matches!(
        &step,
        LookupStep::Continue(Lookup::Inspect { canonical }) if canonical == b"/srv/www/e"
    ));
    let inspect = || Lookup::Inspect { canonical: b"/srv/www/e".to_vec() };
    assert!(matches!(
        inspect().step::<()>(FileEvent::IsDirectory(false), root),
        LookupStep::Continue(Lookup::Open { path, target })
            if path == b"/srv/www/e" && target == b"/srv/www/e"
    ));
    assert!(matches!(
        inspect().step::<()>(FileEvent::IsDirectory(true), root),
        LookupStep::Continue(Lookup::ResolveIndex { index }) if index == b"/srv/www/e/index.html"
    ));
    let index = || Lookup::ResolveIndex { index: b"/srv/www/e/index.html".to_vec() };
    assert!(matches!(
        index().step::<()>(FileEvent::Resolved(Ok(b"/srv/www/f.txt".to_vec())), root),
        LookupStep::Continue(Lookup::Open { path, target })
            if path == b"/srv/www/e/index.html" && target == b"/srv/www/f.txt"
    ));
    assert_eq!(
        answered(index().step(FileEvent::Resolved(Ok(b"/etc/passwd".to_vec())), root)),
        403
    );
    let name = b"/srv/www/a.js";
    let open = || Lookup::Open { path: name.to_vec(), target: name.to_vec() };
    assert_eq!(answered(open().step(FileEvent::Opened(Ok(((), Some(3)))), root)), 200);
    assert_eq!(answered(open().step(FileEvent::Opened(Err(ErrorKind::NotFound)), root)), 404);
    // The outcome of another operation.
    assert_eq!(answered(open().step(FileEvent::IsDirectory(true), root)), 500);
}
