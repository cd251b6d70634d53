use http_file_server::connection::{
    answer, Action, AfterWrite, Answer, Connection, Event, Sending, State, Step, CHUNK_SIZE,
    HEADER_TIMEOUT, IDLE_TIMEOUT, MAX_RECEIVED_HEADERS_SIZE,
};
use http_file_server::handshake::{Handshake, TlsEvent};
use http_file_server::io::ErrorKind;
use http_file_server::response::Response;

type Client = Connection<&'static str>;

const GET: &[u8] = b"GET /a HTTP/1.1\r\n\r\n";

fn receive(client: &mut Client, now: u64, bytes: &[u8]) -> Step {
    client.advance(now, Event::Received(Ok(bytes.to_vec())))
}

fn kept(step: &Step) -> bool {
    step.cork.is_none() && matches!(step.action, Action::Keep)
}

fn dropped(client: &Client, step: &Step) -> bool {
    step.cork.is_none()
        && matches!(step.action, Action::Drop)
        && matches!(client.state, State::Done)
}

fn pending(client: &Client) -> Vec<u8> {
    match &client.state {
        State::Writing { buf, written, .. } => buf[*written..].to_vec(),
        _ => Vec::new(),
    }
}

fn file_response() -> Response<&'static str> {
    Response::File { header: b"head".to_vec(), file: "file" }
}

/// A connection that has taken up a file response at `now`.
fn answering_with_file(now: u64) -> Client {
    let mut client = Connection::new(0);
    receive(&mut client, now, GET);
    let step = client.advance(now, Event::Respond(file_response()));
    assert_eq!(step.cork, Some(true));
    client
}

/// A connection that streams a file, and is kept afterwards or not.
fn streaming(keepalive: bool) -> Client {
    Connection {
        state: State::Sending(Sending { file: "file", keepalive, offset: 5 }),
        deadline: 1000,
    }
}

#[test]
fn limits() {
    assert_eq!(CHUNK_SIZE, 8192);
    assert_eq!(MAX_RECEIVED_HEADERS_SIZE, 4096);
    assert_eq!(HEADER_TIMEOUT, 5_000_000_000);
    assert_eq!(IDLE_TIMEOUT, 30_000_000_000);
}

#[test]
fn answers_to_received_bytes() {
    assert!(matches!(answer(b""), Answer::Wait));
    assert!(matches!(answer(b"GET / HTTP/1.1\r\n"), Answer::Wait));
    assert!(matches!(answer(GET), Answer::Serve(path) if path == "/a"));
    assert!(matches!(answer(b"PUT /a HTTP/1.1\r\n\r\n"), Answer::MethodNotAllowed));
    assert!(matches!(answer(b"GET /a HTTP/3\r\n\r\n"), Answer::BadRequest));
    assert!(matches!(answer(&[b'x'; MAX_RECEIVED_HEADERS_SIZE - 1]), Answer::Wait));
    assert!(matches!(answer(&[b'x'; MAX_RECEIVED_HEADERS_SIZE]), Answer::TooLarge));
    // Headers that fill the buffer to the last byte are still complete.
    let mut full = b"GET /a HTTP/1.1\r\nX: ".to_vec();
    full.resize(MAX_RECEIVED_HEADERS_SIZE - 4, b'x');
    full.extend_from_slice(b"\r\n\r\n");
    assert!(matches!(answer(&full), Answer::Serve(_)));
    // What follows the headers changes nothing.
    assert!(matches!(answer(b"GET /a HTTP/1.1\r\n\r\nPUT"), Answer::Serve(path) if path == "/a"));
}

#[test]
fn a_turn_calls_for_the_operation_of_the_state() {
    let mut client: Client = Connection::new(0);
    let step = client.advance(0, Event::Turn);
    assert!(matches!(step.action, Action::Receive { room: MAX_RECEIVED_HEADERS_SIZE }));
    receive(&mut client, 0, b"GET");
    let step = client.advance(0, Event::Turn);
    assert!(matches!(step.action, Action::Receive { room: 4093 }));
    let mut client = answering_with_file(0);
    assert!(matches!(client.advance(0, Event::Turn).action, Action::Transmit));
    assert!(matches!(streaming(false).advance(0, Event::Turn).action, Action::SendFile));
    let mut client: Client = Connection::new_tls(0);
    assert!(matches!(client.advance(0, Event::Turn).action, Action::Handshake));
    let mut client: Client = Connection { state: State::Done, deadline: 10 };
    assert!(matches!(client.advance(0, Event::Turn).action, Action::Drop));
}

#[test]
fn headers_may_arrive_in_pieces() {
    let mut client: Client = Connection::new(0);
    for (i, b) in GET.iter().enumerate() {
        let step = receive(&mut client, 1, &[*b]);
        if i + 1 < GET.len() {
            assert!(kept(&step));
            assert_eq!(client.deadline, u128::from(HEADER_TIMEOUT));
        } else {
            assert!(step.cork.is_none());
            assert!(matches!(step.action, Action::Serve { path } if path == "/a"));
            assert!(matches!(client.state, State::Answering { keepalive: false }));
        }
    }
}

#[test]
fn end_of_stream_and_failures_drop_the_connection() {
    for event in [
        Event::Received(Ok(vec![])),
        Event::Received(Err(ErrorKind::Other)),
        Event::Received(Err(ErrorKind::NotFound)),
    ] {
        let mut client: Client = Connection::new(0);
        let step = client.advance(1, event);
        assert!(dropped(&client, &step));
    }
}

#[test]
fn buffered_headers_are_answered_when_nothing_more_arrives() {
    for kind in [ErrorKind::WouldBlock, ErrorKind::Interrupted] {
        let mut client: Client = Connection::new(0);
        assert!(kept(&client.advance(1, Event::Received(Err(kind)))));
        let mut client: Client =
            Connection { state: State::Connecting { buf: GET.to_vec() }, deadline: 10 };
        let step = client.advance(1, Event::Received(Err(kind)));
        assert!(matches!(step.action, Action::Serve { path } if path == "/a"));
    }
}

#[test]
fn refusals_are_pending_as_a_whole() {
    for (bytes, status) in [
        (b"PUT / HTTP/1.1\r\n\r\n".to_vec(), "405 Method Not Allowed"),
        (b"GET / HTTP/9\r\n\r\n".to_vec(), "400 Bad Request"),
        (vec![b'x'; MAX_RECEIVED_HEADERS_SIZE], "431 Request Header Fields Too Large"),
    ] {
        let mut client: Client = Connection::new(0);
        let step = receive(&mut client, 7, &bytes);
        assert!(kept(&step));
        assert_eq!(client.deadline, u128::from(7 + HEADER_TIMEOUT));
        let message = String::from_utf8(pending(&client)).unwrap();
        assert_eq!(
            message,
            format!(
                "HTTP/1.1 {status}\r\nContent-Type: text/plain; charset=utf-8\r\n\
                 Content-Length: {}\r\nConnection: close\r\n\r\n{status}",
                status.len()
            )
        );
        assert!(matches!(client.state, State::Writing { after: AfterWrite::Close, .. }));
        let step = client.advance(8, Event::Written(Ok(message.len())));
        assert!(dropped(&client, &step));
    }
}

#[test]
fn a_looked_up_response_is_queued() {
    let client = answering_with_file(3);
    assert_eq!(pending(&client), b"head");
    assert_eq!(client.deadline, u128::from(3 + HEADER_TIMEOUT));
    assert!(matches!(
        client.state,
        State::Writing {
            after: AfterWrite::File(Sending { file: "file", keepalive: false, offset: 0 }),
            ..
        }
    ));
    let mut client: Client = Connection::new(0);
    receive(&mut client, 1, GET);
    let response = Response::Bytes { header: vec![1], body: b"\x02" };
    let step = client.advance(1, Event::Respond(response));
    assert!(kept(&step));
    assert_eq!(pending(&client), vec![1, 2]);
}

#[test]
fn queueing_a_response() {
    let mut client: Client = Connection::new(0);
    assert_eq!(client.queue_response(9, file_response(), true), Some(true));
    assert!(matches!(
        client.state,
        State::Writing { written: 0, after: AfterWrite::File(Sending { keepalive: true, .. }), .. }
    ));
    assert_eq!(client.queue_response(9, Response::not_found(), true), None);
    assert!(pending(&client).ends_with(b"404 Not Found"));
    assert_eq!(client.deadline, u128::from(9 + HEADER_TIMEOUT));
}

#[test]
fn writes_lose_nothing() {
    let mut client: Client = Connection::new(0);
    client.queue_response(0, Response::forbidden(), false);
    let all = pending(&client);
    let mut written: Vec<u8> = Vec::new();
    let mut n = 1;
    while !matches!(client.state, State::Done) {
        let rest = pending(&client);
        n = std::cmp::min(n + 3, rest.len());
        written.extend_from_slice(&rest[..n]);
        // A write that would block, or is interrupted, changes nothing.
        assert!(kept(&client.advance(1, Event::Written(Err(ErrorKind::WouldBlock)))));
        assert!(kept(&client.advance(1, Event::Written(Err(ErrorKind::Interrupted)))));
        assert_eq!(pending(&client), rest);
        client.advance(1, Event::Written(Ok(n)));
        let mut sum = written.clone();
        sum.extend(pending(&client));
        assert_eq!(sum, all);
    }
    assert_eq!(written, all);
}

#[test]
fn failed_writes_drop_the_connection() {
    for event in [Event::Written(Ok(0)), Event::Written(Err(ErrorKind::Other))] {
        let mut client = answering_with_file(0);
        let step = client.advance(1, event);
        assert!(dropped(&client, &step));
    }
}

#[test]
fn the_file_follows_its_header() {
    let mut client = answering_with_file(0);
    assert!(kept(&client.advance(1, Event::Written(Ok(3)))));
    assert_eq!(pending(&client), b"d");
    assert_eq!(client.deadline, u128::from(HEADER_TIMEOUT));
    assert!(kept(&client.advance(2, Event::Written(Ok(1)))));
    assert!(matches!(client.state, State::Sending(Sending { file: "file", offset: 0, .. })));
    assert_eq!(client.deadline, u128::from(2 + HEADER_TIMEOUT));
}

#[test]
fn chunks_of_a_file_are_sent_until_its_end() {
    let mut client = streaming(false);
    assert!(kept(&client.advance(1, Event::Sent { offset: 9, result: Ok(4) })));
    assert!(matches!(client.state, State::Sending(Sending { offset: 9, .. })));
    for kind in [ErrorKind::WouldBlock, ErrorKind::Interrupted] {
        assert!(kept(&client.advance(1, Event::Sent { offset: 9, result: Err(kind) })));
    }
    assert_eq!(client.deadline, 1000);
    let step = client.advance(1, Event::Sent { offset: 9, result: Ok(0) });
    assert_eq!(step.cork, Some(false));
    assert!(matches!(step.action, Action::Drop));
    assert!(matches!(client.state, State::Done));
    let mut client = streaming(true);
    let step = client.advance(1, Event::Sent { offset: 5, result: Err(ErrorKind::Other) });
    assert!(dropped(&client, &step));
}

#[test]
fn a_kept_connection_waits_for_another_request() {
    let mut client = streaming(true);
    let step = client.advance(70, Event::Sent { offset: 9, result: Ok(0) });
    assert_eq!(step.cork, Some(false));
    assert!(matches!(step.action, Action::Keep));
    assert!(matches!(&client.state, State::Connecting { buf } if buf.is_empty()));
    assert_eq!(client.deadline, u128::from(70 + IDLE_TIMEOUT));
}

#[test]
fn files_are_copied_where_they_cannot_be_sent() {
    for (read, written, more) in [
        (Ok(0), false, Some(false)),
        (Ok(5), true, Some(true)),
        (Ok(5), false, None),
        (Err(ErrorKind::WouldBlock), false, Some(true)),
        (Err(ErrorKind::Interrupted), false, None),
        (Err(ErrorKind::Other), false, None),
    ] {
        assert_eq!(Sending::<()>::copy_step(read, written), more);
        let mut client = streaming(false);
        let step = client.advance(1, Event::Copied { read, written });
        if more == Some(true) {
            assert!(kept(&step));
            assert!(matches!(client.state, State::Sending(Sending { offset: 5, .. })));
        } else {
            assert!(dropped(&client, &step));
        }
    }
    let mut client = streaming(true);
    let step = client.advance(1, Event::Copied { read: Ok(0), written: false });
    assert!(kept(&step));
    assert!(matches!(client.state, State::Connecting { .. }));
}

#[test]
fn outcomes_of_sending_a_chunk() {
    for (result, more) in [
        (Ok(0), Some(false)),
        (Ok(1), Some(true)),
        (Err(ErrorKind::WouldBlock), Some(true)),
        (Err(ErrorKind::Interrupted), Some(true)),
        (Err(ErrorKind::PermissionDenied), None),
    ] {
        let mut sending = Sending { file: 'f', keepalive: true, offset: 0 };
        assert_eq!(sending.step(12, result), more);
        assert_eq!(sending.offset, 12);
        assert!(sending.keepalive);
    }
}

#[test]
fn a_connection_past_its_deadline_is_dropped() {
    let mut client: Client = Connection::new(100);
    assert_eq!(client.deadline, u128::from(100 + HEADER_TIMEOUT));
    assert!(matches!(
        client.advance(99 + HEADER_TIMEOUT, Event::Turn).action,
        Action::Receive { .. }
    ));
    // It is dropped as it stands.
    let step = client.advance(100 + HEADER_TIMEOUT, Event::Turn);
    assert!(step.cork.is_none() && matches!(step.action, Action::Drop));
    assert!(matches!(&client.state, State::Connecting { buf } if buf.is_empty()));
    assert_eq!(client.deadline, u128::from(100 + HEADER_TIMEOUT));
}

#[test]
fn a_full_buffer_is_answered() {
    let mut client: Client = Connection {
        state: State::Connecting { buf: vec![b'x'; MAX_RECEIVED_HEADERS_SIZE] },
        deadline: 10,
    };
    assert!(matches!(client.advance(1, Event::Turn).action, Action::Receive { room: 0 }));
    let step = receive(&mut client, 1, b"");
    assert!(kept(&step));
    assert!(pending(&client).starts_with(b"HTTP/1.1 431"));
    assert!(matches!(client.state, State::Writing { written: 0, after: AfterWrite::Close, .. }));
    // A head that fills the buffer is answered as any other.
    let mut full = b"GET /a HTTP/1.1\r\nX: ".to_vec();
    full.resize(MAX_RECEIVED_HEADERS_SIZE - 4, b'x');
    full.extend_from_slice(b"\r\n\r\n");
    let mut client: Client = Connection { state: State::Connecting { buf: full }, deadline: 10 };
    let step = receive(&mut client, 1, b"");
    assert!(matches!(step.action, Action::Serve { path } if path == "/a"));
}

#[test]
fn chunks_make_up_the_file() {
    let file: Vec<u8> = (0..20_000u32).map(|i| i as u8).collect();
    let mut client: Client = Connection {
        state: State::Sending(Sending { file: "file", keepalive: false, offset: 0 }),
        deadline: 1000,
    };
    let mut sent: Vec<u8> = Vec::new();
    let mut tries = 0;
    while let State::Sending(sending) = &client.state {
        let from = sending.offset as usize;
        tries += 1;
        let event = if tries % 3 == 0 {
            Event::Sent { offset: from as i64, result: Err(ErrorKind::WouldBlock) }
        } else {
            let n = std::cmp::min(CHUNK_SIZE, file.len() - from);
            sent.extend_from_slice(&file[from..from + n]);
            Event::Sent { offset: (from + n) as i64, result: Ok(n) }
        };
        client.advance(1, event);
    }
    assert_eq!(sent, file);
}

#[test]
fn a_kept_connection_is_not_stuck() {
    let mut client: Client = Connection::new(0);
    assert!(kept(&receive(&mut client, 1, b"GET /a HTTP/1.1\r\n")));
    assert!(matches!(&client.state, State::Connecting { buf } if buf.len() < 4096));
    receive(&mut client, 1, b"\r\n");
    assert!(matches!(client.state, State::Answering { .. }));
    assert!(matches!(
        client.advance(1, Event::Respond(Response::not_found())).action,
        Action::Keep
    ));
    assert!(!pending(&client).is_empty());
    let mut client: Client = Connection { state: State::Done, deadline: 10 };
    let step = receive(&mut client, 1, GET);
    assert!(dropped(&client, &step));
}

#[test]
fn the_deadline_tracks_the_phase() {
    let mut client: Client = Connection::new(0);
    receive(&mut client, 10, b"GET /a HT");
    assert_eq!(client.deadline, u128::from(HEADER_TIMEOUT));
    receive(&mut client, 20, b"TP/1.1\r\n\r\n");
    assert_eq!(client.deadline, u128::from(HEADER_TIMEOUT));
    client.advance(30, Event::Respond(file_response()));
    assert_eq!(client.deadline, u128::from(30 + HEADER_TIMEOUT));
    client.advance(40, Event::Written(Ok(4)));
    assert_eq!(client.deadline, u128::from(40 + HEADER_TIMEOUT));
    client.advance(50, Event::Sent { offset: 1, result: Ok(1) });
    assert_eq!(client.deadline, u128::from(40 + HEADER_TIMEOUT));
}

#[test]
fn events_out_of_place_end_the_connection() {
    let mut client: Client = Connection::new(0);
    let step = client.advance(1, Event::Written(Ok(1)));
    assert!(dropped(&client, &step));
    let mut client = answering_with_file(0);
    let step = receive(&mut client, 1, b"more");
    assert!(dropped(&client, &step));
    let mut client = streaming(true);
    let step = client.advance(1, Event::Tls(TlsEvent::Alerted));
    assert!(dropped(&client, &step));
    let mut client: Client = Connection::new(0);
    let step = client.advance(1, Event::Respond(file_response()));
    assert!(dropped(&client, &step));
}

#[test]
fn a_handshake_comes_before_the_request() {
    let mut client: Client = Connection::new_tls(5);
    assert_eq!(client.deadline, u128::from(5 + HEADER_TIMEOUT));
    assert!(matches!(client.state, State::TlsHandshaking(Handshake::Receive)));
    let step = client.advance(6, Event::Tls(TlsEvent::Read(Ok(9))));
    assert!(matches!(step.action, Action::Handshake));
    client.advance(6, Event::Tls(TlsEvent::Processed(true)));
    client.advance(6, Event::Tls(TlsEvent::Written(Ok(0))));
    let step = client.advance(6, Event::Tls(TlsEvent::Handshaking(true)));
    assert!(kept(&step));
    assert!(matches!(client.state, State::TlsHandshaking(Handshake::Receive)));
    assert_eq!(client.deadline, u128::from(5 + HEADER_TIMEOUT));
    let step = client.advance(7, Event::Tls(TlsEvent::Read(Ok(0))));
    assert!(dropped(&client, &step));
}

#[test]
fn the_clock_has_no_end() {
    let mut client: Client = Connection::new(u64::MAX);
    assert_eq!(client.deadline, u128::from(u64::MAX) + u128::from(HEADER_TIMEOUT));
    assert!(matches!(
        client.advance(u64::MAX, Event::Turn).action,
        Action::Receive { .. }
    ));
}
