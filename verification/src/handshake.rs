//! The TLS handshake of a connection, up to the point where the kernel takes over.
//!
//! A [`Handshake`] is the operation that comes next. Once it was performed, its
//! outcome goes into [`Handshake::step`], which says what comes after it.

use vstd::prelude::*;

use crate::connection::MAX_RECEIVED_HEADERS_SIZE;
use crate::io::ErrorKind;
use crate::tls::{
    crypto_info_spec, law_hand_over_is_complete, setup_ktls, KtlsError, KtlsSetup, SessionSecrets,
    TlsVersion,
};

verus! {

/// The next operation of a handshake.
pub enum Handshake {
    /// Drain socket bytes into the read buffer of the TLS session.
    Receive,
    /// Process the records that were read.
    Process,
    /// Send what is pending, which tells the peer of the failure, and give up.
    Alert,
    /// Flush pending outgoing handshake records.
    Transmit,
    /// Find out whether the handshake is still going on.
    Check,
    /// Find out which version it agreed on.
    Version,
    /// Flush the records that follow the handshake, such as session tickets: they must
    /// reach the client before the kernel takes over.
    Flush { version: TlsVersion },
    /// Rescue plaintext that the session already decrypted. Clients often send the
    /// request together with the last record of the handshake.
    Drain { version: TlsVersion, plain: Vec<u8> },
    /// Take the secrets out of the session.
    Extract { version: TlsVersion, plain: Vec<u8> },
    /// Set the next one of the socket options that hand the session to the kernel.
    Install { setup: KtlsSetup, done: usize, plain: Vec<u8> },
}

/// The outcome of an operation.
pub enum TlsEvent {
    Read(Result<usize, ErrorKind>),
    Processed(bool),
    Alerted,
    Written(Result<usize, ErrorKind>),
    Handshaking(bool),
    Agreed(Option<TlsVersion>),
    Flushed(Result<usize, ErrorKind>),
    Drained(Result<Vec<u8>, ErrorKind>),
    /// The secrets if they could be had, and the byte order of the machine.
    Extracted { secrets: Option<SessionSecrets>, little_endian: bool },
    OptionSet(bool),
}

/// What follows an operation.
pub enum HandshakeStep {
    /// Another operation, at once.
    Continue(Handshake),
    /// Nothing for now: the handshake goes on with [`Handshake::Receive`] later.
    Pause,
    /// The connection is lost.
    Fail,
    /// The kernel has taken over; these are the first bytes of the plaintext.
    Ready(Vec<u8>),
}

impl HandshakeStep {
    pub open spec fn drains(self, version: TlsVersion, rescued: Seq<u8>) -> bool {
        self matches HandshakeStep::Continue(Handshake::Drain { version: v, plain }) && v == version
            && plain@ == rescued
    }

    pub open spec fn extracts(self, version: TlsVersion, rescued: Seq<u8>) -> bool {
        self matches HandshakeStep::Continue(Handshake::Extract { version: v, plain }) && v
            == version && plain@ == rescued
    }

    /// What follows when `done` of the options of `setup` are set: the next option,
    /// and after the last one the failure of the setup or the plaintext.
    pub open spec fn installs(self, setup: KtlsSetup, done: int, rescued: Seq<u8>) -> bool {
        if done < setup.options@.len() {
            self matches HandshakeStep::Continue(Handshake::Install { setup: s, done: d, plain })
                && s == setup && d == done && plain@ == rescued
        } else if setup.failure is Some {
            self is Fail
        } else {
            self matches HandshakeStep::Ready(plain) && plain@ == rescued
        }
    }
}

impl Handshake {
    pub open spec fn wf(self) -> bool {
        match self {
            Handshake::Drain { plain, .. } => plain@.len() <= MAX_RECEIVED_HEADERS_SIZE,
            Handshake::Extract { plain, .. } => plain@.len() <= MAX_RECEIVED_HEADERS_SIZE,
            Handshake::Install { setup, done, plain } => {
                &&& plain@.len() <= MAX_RECEIVED_HEADERS_SIZE
                &&& done < setup.options@.len()
            },
            _ => true,
        }
    }

    /// An event that this operation can have: what is drained fits into the buffer.
    pub open spec fn admits(self, event: TlsEvent) -> bool {
        match (self, event) {
            (Handshake::Drain { plain, .. }, TlsEvent::Drained(Ok(bytes))) => plain@.len()
                + bytes@.len() <= MAX_RECEIVED_HEADERS_SIZE,
            (_, TlsEvent::Extracted { secrets: Some(secrets), .. }) => secrets.wf(),
            _ => true,
        }
    }

    /// `step` is what follows `self` with the outcome `event`. An event that is no
    /// outcome of the operation loses the connection.
    pub open spec fn leads_to(self, event: TlsEvent, step: HandshakeStep) -> bool {
        match (self, event) {
            (Handshake::Receive, TlsEvent::Read(Ok(n))) => if n == 0 {
                step is Fail
            } else {
                step == HandshakeStep::Continue(Handshake::Process)
            },
            (Handshake::Receive, TlsEvent::Read(Err(ErrorKind::WouldBlock))) => step
                == HandshakeStep::Continue(Handshake::Transmit),
            (Handshake::Receive, TlsEvent::Read(Err(ErrorKind::Interrupted))) => step
                == HandshakeStep::Continue(Handshake::Receive),
            (Handshake::Process, TlsEvent::Processed(true)) => step == HandshakeStep::Continue(
                Handshake::Transmit,
            ),
            (Handshake::Process, TlsEvent::Processed(false)) => step == HandshakeStep::Continue(
                Handshake::Alert,
            ),
            (Handshake::Transmit, TlsEvent::Written(Ok(n))) => if n == 0 {
                step == HandshakeStep::Continue(Handshake::Check)
            } else {
                step == HandshakeStep::Continue(Handshake::Transmit)
            },
            (Handshake::Transmit, TlsEvent::Written(Err(_))) => step == HandshakeStep::Continue(
                Handshake::Check,
            ),
            (Handshake::Check, TlsEvent::Handshaking(true)) => step is Pause,
            (Handshake::Check, TlsEvent::Handshaking(false)) => step == HandshakeStep::Continue(
                Handshake::Version,
            ),
            (Handshake::Version, TlsEvent::Agreed(Some(version))) => step
                == HandshakeStep::Continue(Handshake::Flush { version }),
            (Handshake::Flush { version }, TlsEvent::Flushed(Ok(n))) => if n == 0 {
                step.drains(version, Seq::empty())
            } else {
                step == HandshakeStep::Continue(Handshake::Flush { version })
            },
            (Handshake::Flush { version }, TlsEvent::Flushed(Err(_))) => step.drains(
                version,
                Seq::empty(),
            ),
            (Handshake::Drain { version, plain }, TlsEvent::Drained(Ok(bytes))) => if bytes@.len()
                == 0 {
                step.extracts(version, plain@)
            } else {
                step.drains(version, plain@ + bytes@)
            },
            (Handshake::Drain { version, plain }, TlsEvent::Drained(Err(_))) => step.extracts(
                version,
                plain@,
            ),
            (
                Handshake::Extract { version, plain },
                TlsEvent::Extracted { secrets: Some(secrets), little_endian },
            ) => exists|setup: KtlsSetup|
                #[trigger] setup.hands_over(version, secrets, little_endian) && step.installs(
                    setup,
                    0,
                    plain@,
                ),
            (Handshake::Install { setup, done, plain }, TlsEvent::OptionSet(true)) => step.installs(
                setup,
                done + 1,
                plain@,
            ),
            _ => step is Fail,
        }
    }

    /// What follows when `done` of the options of `setup` are set.
    fn install(setup: KtlsSetup, done: usize, plain: Vec<u8>) -> (r: HandshakeStep)
        ensures
            r.installs(setup, done as int, plain@),
    {
        if done < setup.options.len() {
            HandshakeStep::Continue(Handshake::Install { setup, done, plain })
        } else {
            match setup.failure {
                Some(_) => HandshakeStep::Fail,
                None => HandshakeStep::Ready(plain),
            }
        }
    }

    /// What follows this operation with the outcome `event`.
    pub fn step(self, event: TlsEvent) -> (r: HandshakeStep)
        requires
            self.wf(),
            self.admits(event),
        ensures
            self.leads_to(event, r),
            r matches HandshakeStep::Continue(next) ==> next.wf(),
            r matches HandshakeStep::Ready(plain) ==> plain@.len() <= MAX_RECEIVED_HEADERS_SIZE,
    {
        match (self, event) {
            (Handshake::Receive, TlsEvent::Read(Ok(n))) => if n == 0 {
                HandshakeStep::Fail
            } else {
                HandshakeStep::Continue(Handshake::Process)
            },
            (
                Handshake::Receive,
                TlsEvent::Read(Err(ErrorKind::WouldBlock)),
            ) => HandshakeStep::Continue(Handshake::Transmit),
            (
                Handshake::Receive,
                TlsEvent::Read(Err(ErrorKind::Interrupted)),
            ) => HandshakeStep::Continue(Handshake::Receive),
            (Handshake::Process, TlsEvent::Processed(sound)) => if sound {
                HandshakeStep::Continue(Handshake::Transmit)
            } else {
                HandshakeStep::Continue(Handshake::Alert)
            },
            (Handshake::Transmit, TlsEvent::Written(Ok(n))) => if n == 0 {
                HandshakeStep::Continue(Handshake::Check)
            } else {
                HandshakeStep::Continue(Handshake::Transmit)
            },
            (Handshake::Transmit, TlsEvent::Written(Err(_))) => HandshakeStep::Continue(
                Handshake::Check,
            ),
            (Handshake::Check, TlsEvent::Handshaking(going_on)) => if going_on {
                HandshakeStep::Pause
            } else {
                HandshakeStep::Continue(Handshake::Version)
            },
            (Handshake::Version, TlsEvent::Agreed(Some(version))) => HandshakeStep::Continue(
                Handshake::Flush { version },
            ),
            (Handshake::Flush { version }, TlsEvent::Flushed(Ok(n))) => if n == 0 {
                HandshakeStep::Continue(Handshake::Drain { version, plain: Vec::new() })
            } else {
                HandshakeStep::Continue(Handshake::Flush { version })
            },
            (
                Handshake::Flush { version },
                TlsEvent::Flushed(Err(_)),
            ) => HandshakeStep::Continue(Handshake::Drain { version, plain: Vec::new() }),
            (Handshake::Drain { version, plain }, TlsEvent::Drained(Ok(bytes))) => {
                if bytes.len() == 0 {
                    return HandshakeStep::Continue(Handshake::Extract { version, plain });
                }
                let mut plain = plain;
                let mut bytes = bytes;
                plain.append(&mut bytes);
                HandshakeStep::Continue(Handshake::Drain { version, plain })
            },
            (
                Handshake::Drain { version, plain },
                TlsEvent::Drained(Err(_)),
            ) => HandshakeStep::Continue(Handshake::Extract { version, plain }),
            (
                Handshake::Extract { version, plain },
                TlsEvent::Extracted { secrets: Some(secrets), little_endian },
            ) => {
                let setup = setup_ktls(version, &secrets, little_endian);
                Handshake::install(setup, 0, plain)
            },
            (Handshake::Install { setup, done, plain }, TlsEvent::OptionSet(true)) => {
                assert(done < setup.options.len());
                Handshake::install(setup, done + 1, plain)
            },
            _ => HandshakeStep::Fail,
        }
    }
}

/// The options that a handshake sets are those that hand over some session.
pub open spec fn sets_session_options(handshake: Handshake) -> bool {
    handshake matches Handshake::Install { setup, .. } ==> exists|
        version: TlsVersion,
        secrets: SessionSecrets,
        little_endian: bool,
    | #[trigger] setup.hands_over(version, secrets, little_endian)
}

/// Whatever happens, the options that a handshake goes on to set are those that hand
/// over some session.
pub proof fn law_only_session_options_are_set(
    handshake: Handshake,
    event: TlsEvent,
    step: HandshakeStep,
)
    requires
        sets_session_options(handshake),
        handshake.leads_to(event, step),
    ensures
        step matches HandshakeStep::Continue(next) ==> sets_session_options(next),
{
}

/// The kernel takes over only when all three socket options are set, and with the
/// plaintext that was rescued: no handshake is ready before.
pub proof fn law_ready_means_installed(
    handshake: Handshake,
    event: TlsEvent,
    step: HandshakeStep,
)
    requires
        sets_session_options(handshake),
        handshake.wf(),
        handshake.leads_to(event, step),
        step is Ready,
    ensures
        event == TlsEvent::OptionSet(true),
        handshake matches Handshake::Install { setup, done, plain } && {
            &&& setup.options@.len() == 3
            &&& done == 2
            &&& setup.failure is None
            &&& step matches HandshakeStep::Ready(rescued) && rescued@ == plain@
        },
{
}

/// Nothing but the installation of the last socket option makes a handshake ready.
pub proof fn law_ready_only_from_install(
    handshake: Handshake,
    event: TlsEvent,
    step: HandshakeStep,
)
    requires
        handshake.leads_to(event, step),
        step is Ready,
    ensures
        handshake is Install,
{
}

/// Only TLS 1.2 and TLS 1.3 are accepted: a session of any other version fails before
/// any socket option is set.
pub proof fn law_other_versions_fail(plain: Vec<u8>, event: TlsEvent, step: HandshakeStep)
    requires
        (Handshake::Extract { version: TlsVersion::Other, plain }).leads_to(event, step),
    ensures
        step is Fail,
{
}

/// A handshake fails for a reason, and only then: the peer is gone, the socket failed,
/// the session has no version or gives no secrets, the kernel does not take it, an
/// option could not be set, or the event is the outcome of another operation. It pauses
/// only while the session says that it is handshaking.
pub proof fn law_handshake_fails_for_a_reason(
    handshake: Handshake,
    event: TlsEvent,
    step: HandshakeStep,
)
    requires
        handshake.wf(),
        handshake.leads_to(event, step),
    ensures
        step is Fail <==> match (handshake, event) {
            (Handshake::Receive, TlsEvent::Read(Ok(n))) => n == 0,
            (Handshake::Receive, TlsEvent::Read(Err(kind))) => kind != ErrorKind::WouldBlock && kind
                != ErrorKind::Interrupted,
            (Handshake::Process, TlsEvent::Processed(_)) => false,
            (Handshake::Transmit, TlsEvent::Written(_)) => false,
            (Handshake::Check, TlsEvent::Handshaking(_)) => false,
            (Handshake::Version, TlsEvent::Agreed(version)) => version is None,
            (Handshake::Flush { .. }, TlsEvent::Flushed(_)) => false,
            (Handshake::Drain { .. }, TlsEvent::Drained(_)) => false,
            (Handshake::Extract { version, .. }, TlsEvent::Extracted { secrets, .. }) => secrets is None
                || version == TlsVersion::Other,
            (Handshake::Install { setup, done, .. }, TlsEvent::OptionSet(set)) => !set || (done + 1
                == setup.options@.len() && setup.failure is Some),
            _ => true,
        },
        step is Pause <==> handshake is Check && event == TlsEvent::Handshaking(true),
        step is Ready ==> handshake is Install && event == TlsEvent::OptionSet(true),
{
}

/// The place of an operation in the order of a handshake.
pub open spec fn place(handshake: Handshake) -> int {
    match handshake {
        Handshake::Receive => 0,
        Handshake::Process => 1,
        Handshake::Transmit => 2,
        Handshake::Check => 3,
        Handshake::Version => 4,
        Handshake::Flush { .. } => 5,
        Handshake::Drain { .. } => 6,
        Handshake::Extract { .. } => 7,
        Handshake::Install { .. } => 8,
        Handshake::Alert => 9,
    }
}

/// The operations of a handshake come in their order and none is left out. One is
/// repeated exactly while there is more of it to do; processing is skipped when there
/// was nothing to read, and the peer is told when it failed.
pub proof fn law_handshake_keeps_its_order(
    handshake: Handshake,
    event: TlsEvent,
    next: Handshake,
)
    requires
        handshake.leads_to(event, HandshakeStep::Continue(next)),
    ensures
        place(next) == match event {
            TlsEvent::Read(Err(ErrorKind::Interrupted)) => 0,
            TlsEvent::Read(Err(ErrorKind::WouldBlock)) => 2,
            TlsEvent::Processed(false) => 9,
            TlsEvent::Written(Ok(n)) => if n > 0 {
                2
            } else {
                3
            },
            TlsEvent::Flushed(Ok(n)) => if n > 0 {
                5
            } else {
                6
            },
            TlsEvent::Drained(Ok(bytes)) => if bytes@.len() > 0 {
                6
            } else {
                7
            },
            TlsEvent::OptionSet(_) => 8,
            _ => place(handshake) + 1,
        },
{
}

/// A run of a handshake: the outcome `events[i]` leads from `run[i]` to `run[i + 1]`.
pub open spec fn is_handshake_run(run: Seq<Handshake>, events: Seq<TlsEvent>) -> bool {
    &&& run.len() == events.len() + 1
    &&& forall|i: int|
        0 <= i < events.len() ==> run[i].leads_to(
            #[trigger] events[i],
            HandshakeStep::Continue(run[i + 1]),
        )
}

/// The plaintext that was drained in the first `n` of `events`.
pub open spec fn drained(events: Seq<TlsEvent>, n: int) -> Seq<u8>
    decreases n,
{
    if n <= 0 {
        Seq::empty()
    } else {
        match events[n - 1] {
            TlsEvent::Drained(Ok(bytes)) => drained(events, n - 1) + bytes@,
            _ => drained(events, n - 1),
        }
    }
}

/// How many options were set in the first `n` of `events`.
pub open spec fn options_set(events: Seq<TlsEvent>, n: int) -> int
    decreases n,
{
    if n <= 0 {
        0
    } else if events[n - 1] == TlsEvent::OptionSet(true) {
        options_set(events, n - 1) + 1
    } else {
        options_set(events, n - 1)
    }
}

/// What was agreed on and what was found on the way is what is installed: from the
/// operation that finds the version on, every later one carries the version `agreed`
/// and all the plaintext that was drained, in order; the options that are set hand over
/// a session of that version with the secrets that were extracted, one after the other.
pub proof fn law_agreed_session_is_installed(
    run: Seq<Handshake>,
    events: Seq<TlsEvent>,
    agreed: TlsVersion,
    i: int,
)
    requires
        is_handshake_run(run, events),
        run[0] is Version,
        events.len() > 0,
        events[0] == TlsEvent::Agreed(Some(agreed)),
        1 <= i < run.len(),
    ensures
        match run[i] {
            Handshake::Flush { version } => {
                &&& version == agreed
                &&& drained(events, i) == Seq::<u8>::empty()
                &&& options_set(events, i) == 0
            },
            Handshake::Drain { version, plain } => {
                &&& version == agreed
                &&& plain@ == drained(events, i)
                &&& options_set(events, i) == 0
            },
            Handshake::Extract { version, plain } => {
                &&& version == agreed
                &&& plain@ == drained(events, i)
                &&& options_set(events, i) == 0
            },
            Handshake::Install { setup, done, plain } => {
                &&& plain@ == drained(events, i)
                &&& done == options_set(events, i)
                &&& exists|j: int|
                    0 <= j < i && (#[trigger] events[j] matches TlsEvent::Extracted {
                        secrets: Some(secrets),
                        little_endian,
                    } && setup.hands_over(agreed, secrets, little_endian))
            },
            _ => false,
        },
    decreases i,
{
    reveal_with_fuel(drained, 2);
    reveal_with_fuel(options_set, 2);
    let was = run[i - 1];
    let event = events[i - 1];
    assert(was.leads_to(event, HandshakeStep::Continue(run[i])));
    if i > 1 {
        law_agreed_session_is_installed(run, events, agreed, i - 1);
        match was {
            Handshake::Extract { version, plain } => {
                assert(event is Extracted);
                match event {
                    TlsEvent::Extracted { secrets: Some(secrets), little_endian } => {
                        assert(events[i - 1] matches TlsEvent::Extracted {
                            secrets: Some(s),
                            little_endian: l,
                        } && run[i]->setup.hands_over(agreed, s, l));
                    },
                    _ => {},
                }
            },
            Handshake::Install { setup, done, plain } => {
                let j = choose|j: int|
                    0 <= j < i - 1 && (#[trigger] events[j] matches TlsEvent::Extracted {
                        secrets: Some(secrets),
                        little_endian,
                    } && setup.hands_over(agreed, secrets, little_endian));
                assert(events[j] matches TlsEvent::Extracted { secrets: Some(s), little_endian: l }
                    && run[i]->setup.hands_over(agreed, s, l));
            },
            _ => {},
        }
    }
}

/// When the kernel has taken over, three options were set, which hand over a session of
/// the version that was agreed on, and the plaintext that was drained is all there: the
/// version stands in the crypto info of both directions.
pub proof fn law_agreed_session_is_ready(
    run: Seq<Handshake>,
    events: Seq<TlsEvent>,
    agreed: TlsVersion,
    event: TlsEvent,
    rescued: Vec<u8>,
)
    requires
        is_handshake_run(run, events),
        run[0] is Version,
        events.len() > 0,
        events[0] == TlsEvent::Agreed(Some(agreed)),
        run.last().wf(),
        run.last().leads_to(event, HandshakeStep::Ready(rescued)),
    ensures
        agreed != TlsVersion::Other,
        rescued@ == drained(events, events.len() as int),
        options_set(events, events.len() as int) == 2,
        event == TlsEvent::OptionSet(true),
        run.last()->setup.options@.len() == 3,
        exists|j: int|
            0 <= j < events.len() && (#[trigger] events[j] matches TlsEvent::Extracted {
                secrets: Some(secrets),
                little_endian,
            } && ({
                let wire = if agreed == TlsVersion::Tls12 {
                    0x0303u16
                } else {
                    0x0304u16
                };
                let options = run.last()->setup.options@;
                &&& crypto_info_spec(secrets.tx.1, secrets.tx.0, wire, little_endian) == Ok::<
                    Seq<u8>,
                    KtlsError,
                >(options[1].value@)
                &&& crypto_info_spec(secrets.rx.1, secrets.rx.0, wire, little_endian) == Ok::<
                    Seq<u8>,
                    KtlsError,
                >(options[2].value@)
            })),
{
    let n = events.len() as int;
    law_agreed_session_is_installed(run, events, agreed, n);
    let setup = run.last()->setup;
    let j = choose|j: int|
        0 <= j < n && (#[trigger] events[j] matches TlsEvent::Extracted {
            secrets: Some(secrets),
            little_endian,
        } && setup.hands_over(agreed, secrets, little_endian));
    match events[j] {
        TlsEvent::Extracted { secrets: Some(secrets), little_endian } => {
            law_hand_over_is_complete(setup, agreed, secrets, little_endian);
        },
        _ => {},
    }
}

/// A handshake goes on as its steps say.
pub proof fn law_handshake_returns_its_steps(
    handshake: Handshake,
    event: TlsEvent,
    step: HandshakeStep,
)
    requires
        call_ensures(Handshake::step, (handshake, event), step),
    ensures
        handshake.leads_to(event, step),
{
}

} // verus!
