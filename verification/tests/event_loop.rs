use http_file_server::io::ErrorKind;
use http_file_server::server::{EventLoop, LoopEvent, ShutdownHandle, Turn, MAX_CONNECTIONS};

/// A loop that holds the connections `0..n` and accepts more.
fn accepting(n: usize) -> EventLoop<usize> {
    let mut events = EventLoop::new();
    events.advance(LoopEvent::Stop(false));
    for i in 0..n {
        events.advance(LoopEvent::Accepted(Some(i)));
    }
    events
}

#[test]
fn a_new_loop_checks_whether_it_is_stopped() {
    let events: EventLoop<()> = EventLoop::new();
    assert_eq!(events.turn, Turn::CheckStop);
    assert!(events.live.is_empty());
}

#[test]
fn a_stopped_loop_returns() {
    let mut events: EventLoop<()> = EventLoop::new();
    events.advance(LoopEvent::Stop(true));
    assert_eq!(events.turn, Turn::Finish);
    events.advance(LoopEvent::Accepted(Some(())));
    events.advance(LoopEvent::Yielded);
    assert_eq!(events.turn, Turn::Finish);
}

#[test]
fn accepting_goes_on_until_it_would_block() {
    let mut events = accepting(2);
    assert_eq!(events.turn, Turn::Accept);
    // One that could not be set up, and a failure, change nothing.
    events.advance(LoopEvent::Accepted(None));
    events.advance(LoopEvent::AcceptFailed(ErrorKind::Other));
    events.advance(LoopEvent::AcceptFailed(ErrorKind::Interrupted));
    assert_eq!(events.turn, Turn::Accept);
    assert_eq!(events.live, vec![0, 1]);
    events.advance(LoopEvent::AcceptFailed(ErrorKind::WouldBlock));
    assert_eq!(events.turn, Turn::Sweep);
}

#[test]
fn a_sweep_keeps_the_others_in_order() {
    let mut events = accepting(5);
    events.advance(LoopEvent::AcceptFailed(ErrorKind::WouldBlock));
    events.advance(LoopEvent::Swept(vec![true, false, true, false, true]));
    assert_eq!(events.live, vec![0, 2, 4]);
    assert_eq!(events.turn, Turn::CheckStop);
}

#[test]
fn an_idle_loop_yields() {
    let mut events = accepting(2);
    events.advance(LoopEvent::AcceptFailed(ErrorKind::WouldBlock));
    events.advance(LoopEvent::Swept(vec![false, false]));
    assert_eq!(events.turn, Turn::Yield);
    events.advance(LoopEvent::Yielded);
    assert_eq!(events.turn, Turn::CheckStop);
    events.advance(LoopEvent::Stop(false));
    events.advance(LoopEvent::AcceptFailed(ErrorKind::WouldBlock));
    events.advance(LoopEvent::Swept(vec![]));
    assert_eq!(events.turn, Turn::Yield);
}

#[test]
fn connections_over_the_limit_are_dropped() {
    assert_eq!(MAX_CONNECTIONS, 4096);
    let mut events = accepting(MAX_CONNECTIONS);
    assert_eq!(events.live.len(), MAX_CONNECTIONS);
    assert_eq!(events.turn, Turn::Accept);
    // The newcomer is dropped, and the connections that are held are advanced.
    events.advance(LoopEvent::Accepted(Some(MAX_CONNECTIONS)));
    assert_eq!(events.live.len(), MAX_CONNECTIONS);
    assert_eq!(events.live.last(), Some(&(MAX_CONNECTIONS - 1)));
    assert_eq!(events.turn, Turn::Sweep);
    let mut keep = vec![true; MAX_CONNECTIONS];
    keep[0] = false;
    events.advance(LoopEvent::Swept(keep));
    events.advance(LoopEvent::Stop(false));
    events.advance(LoopEvent::Accepted(Some(7)));
    assert_eq!(events.live.len(), MAX_CONNECTIONS);
    assert_eq!(events.live.last(), Some(&7));
}

#[test]
fn a_shared_handle_stops_the_loop() {
    let server = ShutdownHandle::new();
    let handle = server.share();
    let other = ShutdownHandle::new();
    assert!(!server.is_stopped());
    handle.stop();
    assert!(server.is_stopped());
    assert!(handle.is_stopped());
    assert!(!other.is_stopped());
}

#[test]
fn a_loop_stopped_before_it_starts_accepts_nothing() {
    let mut events: EventLoop<u8> = EventLoop::new();
    events.advance(LoopEvent::Stop(true));
    assert_eq!(events.turn, Turn::Finish);
    assert!(events.live.is_empty());
}

#[test]
fn a_stopped_loop_ends_its_iteration() {
    let mut events = accepting(1);
    for event in [
        LoopEvent::AcceptFailed(ErrorKind::WouldBlock),
        LoopEvent::Swept(vec![false]),
        LoopEvent::Yielded,
        LoopEvent::Stop(true),
    ] {
        assert_ne!(events.turn, Turn::Finish);
        events.advance(event);
    }
    assert_eq!(events.turn, Turn::Finish);
}

#[test]
fn clients_without_a_pause_do_not_hold_the_loop() {
    for set_up in [true, false] {
        let mut events = accepting(MAX_CONNECTIONS);
        let newcomer = if set_up { Some(0) } else { None };
        events.advance(LoopEvent::Accepted(newcomer));
        assert_eq!(events.turn, Turn::Sweep);
        events.advance(LoopEvent::Swept(vec![true; MAX_CONNECTIONS]));
        assert_eq!(events.turn, Turn::CheckStop);
        events.advance(LoopEvent::Stop(true));
        assert_eq!(events.turn, Turn::Finish);
    }
}
