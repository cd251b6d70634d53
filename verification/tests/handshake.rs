use http_file_server::connection::{
    Action, Connection, Event, State, HEADER_TIMEOUT, MAX_RECEIVED_HEADERS_SIZE,
};
use http_file_server::handshake::{Handshake, HandshakeStep, TlsEvent};
use http_file_server::io::ErrorKind;
use http_file_server::tls::{SessionSecrets, TlsVersion, TrafficSecrets, TCP_ULP, TLS_RX, TLS_TX};

fn secrets() -> SessionSecrets {
    SessionSecrets {
        tx: (0, TrafficSecrets::Aes128Gcm { key: vec![1; 16], iv: vec![2; 12] }),
        rx: (0, TrafficSecrets::Aes128Gcm { key: vec![3; 16], iv: vec![4; 12] }),
    }
}

fn extracted(secrets: SessionSecrets) -> TlsEvent {
    TlsEvent::Extracted { secrets: Some(secrets), little_endian: true }
}

#[test]
fn reading_from_the_peer() {
    let after = |event| Handshake::Receive.step(TlsEvent::Read(event));
    assert!(matches!(after(Ok(5)), HandshakeStep::Continue(Handshake::Process)));
    assert!(matches!(after(Ok(0)), HandshakeStep::Fail));
    assert!(matches!(
        after(Err(ErrorKind::WouldBlock)),
        HandshakeStep::Continue(Handshake::Transmit)
    ));
    assert!(matches!(
        after(Err(ErrorKind::Interrupted)),
        HandshakeStep::Continue(Handshake::Receive)
    ));
    assert!(matches!(after(Err(ErrorKind::Other)), HandshakeStep::Fail));
}

#[test]
fn a_failed_handshake_tells_the_peer() {
    assert!(matches!(
        Handshake::Process.step(TlsEvent::Processed(true)),
        HandshakeStep::Continue(Handshake::Transmit)
    ));
    assert!(matches!(
        Handshake::Process.step(TlsEvent::Processed(false)),
        HandshakeStep::Continue(Handshake::Alert)
    ));
    assert!(matches!(Handshake::Alert.step(TlsEvent::Alerted), HandshakeStep::Fail));
}

#[test]
fn pending_records_are_flushed() {
    let after = |event| Handshake::Transmit.step(TlsEvent::Written(event));
    assert!(matches!(after(Ok(5)), HandshakeStep::Continue(Handshake::Transmit)));
    assert!(matches!(after(Ok(0)), HandshakeStep::Continue(Handshake::Check)));
    for kind in [ErrorKind::WouldBlock, ErrorKind::Interrupted, ErrorKind::Other] {
        assert!(matches!(after(Err(kind)), HandshakeStep::Continue(Handshake::Check)));
    }
}

#[test]
fn an_unfinished_handshake_pauses() {
    assert!(matches!(
        Handshake::Check.step(TlsEvent::Handshaking(true)),
        HandshakeStep::Pause
    ));
    assert!(matches!(
        Handshake::Check.step(TlsEvent::Handshaking(false)),
        HandshakeStep::Continue(Handshake::Version)
    ));
}

#[test]
fn the_version_must_be_known() {
    assert!(matches!(Handshake::Version.step(TlsEvent::Agreed(None)), HandshakeStep::Fail));
    assert!(matches!(
        Handshake::Version.step(TlsEvent::Agreed(Some(TlsVersion::Tls12))),
        HandshakeStep::Continue(Handshake::Flush { version: TlsVersion::Tls12 })
    ));
}

#[test]
fn records_after_the_handshake_are_flushed() {
    let version = TlsVersion::Tls13;
    let after = |event| Handshake::Flush { version }.step(TlsEvent::Flushed(event));
    assert!(matches!(
        after(Ok(3)),
        HandshakeStep::Continue(Handshake::Flush { version: TlsVersion::Tls13 })
    ));
    for event in [Ok(0), Err(ErrorKind::WouldBlock), Err(ErrorKind::Other)] {
        assert!(matches!(
            after(event),
            HandshakeStep::Continue(Handshake::Drain { version: TlsVersion::Tls13, plain })
                if plain.is_empty()
        ));
    }
}

#[test]
fn early_plaintext_is_rescued() {
    let version = TlsVersion::Tls13;
    let drain = |plain: &[u8], event| {
        Handshake::Drain { version, plain: plain.to_vec() }.step(TlsEvent::Drained(event))
    };
    assert!(matches!(
        drain(b"GET ", Ok(b"/ HT".to_vec())),
        HandshakeStep::Continue(Handshake::Drain { plain, .. }) if plain == b"GET / HT"
    ));
    for event in [Ok(vec![]), Err(ErrorKind::WouldBlock), Err(ErrorKind::Other)] {
        assert!(matches!(
            drain(b"GET ", event),
            HandshakeStep::Continue(Handshake::Extract { version: TlsVersion::Tls13, plain })
                if plain == b"GET "
        ));
    }
    let full = vec![7; MAX_RECEIVED_HEADERS_SIZE];
    assert!(matches!(
        drain(b"", Ok(full.clone())),
        HandshakeStep::Continue(Handshake::Drain { plain, .. }) if plain == full
    ));
}

#[test]
fn the_session_goes_to_the_kernel_option_by_option() {
    let mut next = Handshake::Extract { version: TlsVersion::Tls13, plain: b"GET".to_vec() }
        .step(extracted(secrets()));
    for name in [TCP_ULP, TLS_TX, TLS_RX] {
        next = match next {
            HandshakeStep::Continue(Handshake::Install { setup, done, plain }) => {
                assert_eq!(setup.options[done].name, name);
                Handshake::Install { setup, done, plain }.step(TlsEvent::OptionSet(true))
            }
            _ => panic!("expected an option to set"),
        };
    }
    assert!(matches!(next, HandshakeStep::Ready(plain) if plain == b"GET"));
}

#[test]
fn an_option_that_cannot_be_set_loses_the_connection() {
    let first = Handshake::Extract { version: TlsVersion::Tls12, plain: vec![] }
        .step(extracted(secrets()));
    match first {
        HandshakeStep::Continue(operation) => {
            assert!(matches!(operation.step(TlsEvent::OptionSet(false)), HandshakeStep::Fail));
        }
        _ => panic!("expected an option to set"),
    }
}

#[test]
fn sessions_that_do_not_suit_the_kernel_fail() {
    let extract = |version| Handshake::Extract { version, plain: vec![] };
    assert!(matches!(
        extract(TlsVersion::Other).step(extracted(secrets())),
        HandshakeStep::Fail
    ));
    assert!(matches!(
        extract(TlsVersion::Tls13).step(TlsEvent::Extracted { secrets: None, little_endian: true }),
        HandshakeStep::Fail
    ));
    let unsupported = SessionSecrets { rx: (0, TrafficSecrets::Other), ..secrets() };
    let mut next = extract(TlsVersion::Tls13).step(extracted(unsupported));
    for _ in 0..2 {
        next = match next {
            HandshakeStep::Continue(operation) => operation.step(TlsEvent::OptionSet(true)),
            _ => panic!("expected an option to set"),
        };
    }
    assert!(matches!(next, HandshakeStep::Fail));
}

#[test]
fn outcomes_of_another_operation_lose_the_connection() {
    assert!(matches!(Handshake::Receive.step(TlsEvent::OptionSet(true)), HandshakeStep::Fail));
    assert!(matches!(Handshake::Check.step(TlsEvent::Read(Ok(1))), HandshakeStep::Fail));
}

#[test]
fn a_connection_through_its_handshake() {
    let mut client: Connection<()> = Connection::new_tls(0);
    for event in [
        TlsEvent::Read(Ok(100)),
        TlsEvent::Processed(true),
        TlsEvent::Written(Ok(10)),
        TlsEvent::Written(Ok(0)),
        TlsEvent::Handshaking(false),
        TlsEvent::Agreed(Some(TlsVersion::Tls13)),
        TlsEvent::Flushed(Ok(0)),
        TlsEvent::Drained(Ok(b"GET /x HTTP/1.1\r\n\r\n".to_vec())),
        TlsEvent::Drained(Err(ErrorKind::WouldBlock)),
        extracted(secrets()),
        TlsEvent::OptionSet(true),
        TlsEvent::OptionSet(true),
    ] {
        let step = client.advance(1, Event::Tls(event));
        assert!(matches!(step.action, Action::Handshake));
        assert_eq!(client.deadline, u128::from(HEADER_TIMEOUT));
    }
    let step = client.advance(8, Event::Tls(TlsEvent::OptionSet(true)));
    assert!(matches!(step.action, Action::Keep));
    assert_eq!(client.deadline, u128::from(8 + HEADER_TIMEOUT));
    assert!(matches!(client.state, State::Connecting { .. }));
    // The request that came with the handshake is answered though nothing more arrives.
    let step = client.advance(9, Event::Received(Err(ErrorKind::WouldBlock)));
    assert!(matches!(step.action, Action::Serve { path } if path == "/x"));
}
