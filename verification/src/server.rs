//! The event loop of the server, and how it is stopped.

use std::sync::atomic::{AtomicBool, Ordering};
use std::sync::Arc;

use vstd::prelude::*;

use crate::io::ErrorKind;

verus! {

/// Maximum number of concurrent connections. New connections are dropped when
/// this limit is reached rather than queued, preventing fd exhaustion.
pub const MAX_CONNECTIONS: usize = 4096;

/// A handle that lets callers stop a running event loop.
///
/// Any thread that shares the handle may set its flag at any time, so nothing is stated
/// of the flag's value: not that it starts out unset, nor what a later reading finds.
/// [`EventLoop::advance`] says what follows from either value.
pub struct ShutdownHandle(Arc<AtomicBool>);

impl ShutdownHandle {
    /// A handle to a loop that goes on.
    pub fn new() -> Self {
        ShutdownHandle(Arc::new(AtomicBool::new(false)))
    }

    /// Stops the loop, which reads the flag at each of its turns.
    pub fn stop(&self) {
        self.0.store(true, Ordering::Relaxed);
    }

    /// Whether the loop was stopped.
    pub fn is_stopped(&self) -> bool {
        self.0.load(Ordering::Relaxed)
    }

    /// Another handle to the same loop.
    pub fn share(&self) -> (r: Self)
        ensures
            r == *self,
    {
        ShutdownHandle(Arc::clone(&self.0))
    }
}

/// What the event loop does next.
#[derive(Debug, Clone, Copy, PartialEq, Eq, Structural)]
pub enum Turn {
    /// Read the flag that stops the loop.
    CheckStop,
    /// Accept a connection.
    Accept,
    /// Advance every connection by one step.
    Sweep,
    /// Yield rather than spin-burn a CPU core: there are no connections.
    Yield,
    /// Return.
    Finish,
}

/// The outcome of a turn.
pub enum LoopEvent<C> {
    Stop(bool),
    /// A connection was accepted; `None` if it could not be set up.
    Accepted(Option<C>),
    AcceptFailed(ErrorKind),
    /// Every connection was advanced; these are kept and the others dropped.
    Swept(Vec<bool>),
    Yielded,
}

/// The single-threaded polling event loop over the live connections.
pub struct EventLoop<C> {
    pub turn: Turn,
    pub live: Vec<C>,
}

/// The items of `s` that are flagged in `keep`, in their order.
pub open spec fn kept<C>(s: Seq<C>, keep: Seq<bool>) -> Seq<C>
    decreases s.len(),
{
    if s.len() == 0 {
        Seq::empty()
    } else if keep[0] {
        seq![s[0]] + kept(s.skip(1), keep.skip(1))
    } else {
        kept(s.skip(1), keep.skip(1))
    }
}

proof fn lemma_kept_len<C>(s: Seq<C>, keep: Seq<bool>)
    ensures
        kept(s, keep).len() <= s.len(),
    decreases s.len(),
{
    if s.len() > 0 {
        lemma_kept_len(s.skip(1), keep.skip(1));
    }
}

/// Keeps the items that are flagged in `keep`, in their order.
fn retain<C>(items: &mut Vec<C>, keep: Vec<bool>)
    requires
        keep@.len() == old(items)@.len(),
    ensures
        final(items)@ == kept(old(items)@, keep@),
{
    let ghost all = items@;
    let ghost flags = keep@;
    let mut keep = keep;
    let mut passed: Vec<C> = Vec::new();
    let n: usize = items.len();
    let mut k: usize = n;
    assert(all.take(n as int) =~= all);
    assert(flags.take(n as int) =~= flags);
    assert(passed@.reverse() =~= kept(all.skip(n as int), flags.skip(n as int)));
    while k > 0
        invariant
            k <= n,
            n == all.len(),
            n == flags.len(),
            items@ == all.take(k as int),
            keep@ == flags.take(k as int),
            passed@.reverse() == kept(all.skip(k as int), flags.skip(k as int)),
        decreases k,
    {
        let ghost passed0 = passed@;
        assert(all.skip(k - 1).skip(1) =~= all.skip(k as int));
        assert(flags.skip(k - 1).skip(1) =~= flags.skip(k as int));
        if let (Some(item), Some(flag)) = (items.pop(), keep.pop()) {
            if flag {
                passed.push(item);
                assert(passed@.reverse() =~= seq![item] + passed0.reverse());
            }
        }
        assert(items@ =~= all.take(k - 1));
        assert(keep@ =~= flags.take(k - 1));
        k -= 1;
    }
    let ghost wanted = passed@.reverse();
    assert(all.skip(0) =~= all);
    assert(flags.skip(0) =~= flags);
    assert(items@ =~= Seq::empty());
    let m: usize = passed.len();
    let mut i: usize = 0;
    assert(wanted.take(0) =~= Seq::empty());
    while i < m
        invariant
            i <= m,
            m == wanted.len(),
            items@ == wanted.take(i as int),
            passed@.reverse() == wanted.skip(i as int),
        decreases m - i,
    {
        let ghost passed0 = passed@;
        assert(passed0.reverse().len() == m - i);
        assert(passed0.reverse()[0] == passed0.last());
        if let Some(item) = passed.pop() {
            items.push(item);
        }
        assert(passed@.reverse() =~= passed0.reverse().skip(1));
        assert(wanted.skip(i as int).skip(1) =~= wanted.skip(i + 1));
        assert(items@ =~= wanted.take(i + 1));
        i += 1;
    }
    assert(wanted.take(m as int) =~= wanted);
}

impl<C> EventLoop<C> {
    pub open spec fn wf(self) -> bool {
        self.live@.len() <= MAX_CONNECTIONS
    }

    /// An event that the loop can have: every connection is kept or dropped.
    pub open spec fn admits(self, event: LoopEvent<C>) -> bool {
        event matches LoopEvent::Swept(keep) ==> keep@.len() == self.live@.len()
    }

    /// The loop `was` becomes `self` by `event`. An event that is no outcome of the
    /// loop's turn changes nothing.
    pub open spec fn follows(self, was: Self, event: LoopEvent<C>) -> bool {
        match (was.turn, event) {
            (Turn::CheckStop, LoopEvent::Stop(stop)) => {
                &&& self.live@ == was.live@
                &&& self.turn == (if stop {
                    Turn::Finish
                } else {
                    Turn::Accept
                })
            },
            (Turn::Accept, LoopEvent::Accepted(newcomer)) => if was.live@.len() < MAX_CONNECTIONS {
                &&& self.turn == Turn::Accept
                &&& self.live@ == (match newcomer {
                    Some(connection) => was.live@.push(connection),
                    None => was.live@,
                })
            } else {
                // The newcomer is dropped, and accepting goes on after the others.
                &&& self.turn == Turn::Sweep
                &&& self.live@ == was.live@
            },
            (Turn::Accept, LoopEvent::AcceptFailed(ErrorKind::WouldBlock)) => {
                &&& self.turn == Turn::Sweep
                &&& self.live@ == was.live@
            },
            (Turn::Sweep, LoopEvent::Swept(keep)) => {
                &&& self.live@ == kept(was.live@, keep@)
                &&& self.turn == (if self.live@.len() == 0 {
                    Turn::Yield
                } else {
                    Turn::CheckStop
                })
            },
            (Turn::Yield, LoopEvent::Yielded) => {
                &&& self.turn == Turn::CheckStop
                &&& self.live@ == was.live@
            },
            _ => self.turn == was.turn && self.live@ == was.live@,
        }
    }

    /// A loop without connections.
    pub fn new() -> (r: Self)
        ensures
            r.wf(),
            r.turn == Turn::CheckStop,
            r.live@.len() == 0,
    {
        EventLoop { turn: Turn::CheckStop, live: Vec::new() }
    }

    /// Takes note of the outcome of the loop's turn.
    pub fn advance(&mut self, event: LoopEvent<C>)
        requires
            old(self).wf(),
            old(self).admits(event),
        ensures
            final(self).wf(),
            final(self).follows(*old(self), event),
    {
        match (self.turn, event) {
            (Turn::CheckStop, LoopEvent::Stop(stop)) => {
                self.turn = if stop {
                    Turn::Finish
                } else {
                    Turn::Accept
                };
            },
            (Turn::Accept, LoopEvent::Accepted(newcomer)) => {
                if self.live.len() >= MAX_CONNECTIONS {
                    self.turn = Turn::Sweep;
                } else if let Some(connection) = newcomer {
                    self.live.push(connection);
                }
            },
            (Turn::Accept, LoopEvent::AcceptFailed(ErrorKind::WouldBlock)) => {
                self.turn = Turn::Sweep;
            },
            (Turn::Sweep, LoopEvent::Swept(keep)) => {
                proof {
                    lemma_kept_len(self.live@, keep@);
                }
                retain(&mut self.live, keep);
                self.turn = if self.live.len() == 0 {
                    Turn::Yield
                } else {
                    Turn::CheckStop
                };
            },
            (Turn::Yield, LoopEvent::Yielded) => {
                self.turn = Turn::CheckStop;
            },
            _ => {},
        }
    }
}

/// A sweep drops exactly the connections that are not flagged: what is left of two
/// parts of the list is what is left of each, and a connection by itself is left if
/// and only if it is flagged.
pub proof fn law_sweep_is_exact<C>(a: Seq<C>, b: Seq<C>, keep_a: Seq<bool>, keep_b: Seq<bool>)
    requires
        a.len() == keep_a.len(),
        b.len() == keep_b.len(),
    ensures
        kept(a + b, keep_a + keep_b) == kept(a, keep_a) + kept(b, keep_b),
        a.len() == 1 ==> kept(a, keep_a) == (if keep_a[0] {
            a
        } else {
            Seq::empty()
        }),
    decreases a.len(),
{
    if a.len() == 0 {
        assert(a + b =~= b);
        assert(keep_a + keep_b =~= keep_b);
        assert(kept(a, keep_a) + kept(b, keep_b) =~= kept(b, keep_b));
    } else {
        law_sweep_is_exact(a.skip(1), b, keep_a.skip(1), keep_b);
        assert((a + b).skip(1) =~= a.skip(1) + b);
        assert((keep_a + keep_b).skip(1) =~= keep_a.skip(1) + keep_b);
        assert(kept(a + b, keep_a + keep_b) =~= kept(a, keep_a) + kept(b, keep_b));
        if a.len() == 1 {
            assert(a.skip(1) =~= Seq::empty());
            assert(kept(a.skip(1), keep_a.skip(1)) =~= Seq::empty());
            assert(kept(a, keep_a) =~= (if keep_a[0] {
                a
            } else {
                Seq::empty()
            }));
        }
    }
}

/// A check that finds the loop stopped makes it return, and nothing else does.
pub proof fn law_only_stop_finishes<C>(was: EventLoop<C>, event: LoopEvent<C>, is: EventLoop<C>)
    requires
        is.follows(was, event),
        was.turn != Turn::Finish,
    ensures
        is.turn == Turn::Finish <==> was.turn == Turn::CheckStop && event == LoopEvent::<C>::Stop(
            true,
        ),
{
}

/// A run of the loop: `events[i]` leads from `run[i]` to `run[i + 1]`.
pub open spec fn is_loop_run<C>(run: Seq<EventLoop<C>>, events: Seq<LoopEvent<C>>) -> bool {
    &&& run.len() == events.len() + 1
    &&& forall|i: int|
        0 <= i < events.len() ==> run[i + 1].follows(run[i], #[trigger] events[i])
}

/// Every reading of the flag finds the loop stopped.
pub open spec fn is_stopped_throughout<C>(events: Seq<LoopEvent<C>>) -> bool {
    forall|i: int|
        0 <= i < events.len() ==> #[trigger] events[i] != LoopEvent::<C>::Stop(false)
}

/// `event` is an outcome of `turn`.
pub open spec fn answers_turn<C>(turn: Turn, event: LoopEvent<C>) -> bool {
    match turn {
        Turn::CheckStop => event is Stop,
        Turn::Accept => event is Accepted || event is AcceptFailed,
        Turn::Sweep => event is Swept,
        Turn::Yield => event is Yielded,
        Turn::Finish => true,
    }
}

/// A loop that no check finds stopped never returns.
pub proof fn law_unstopped_loop_goes_on<C>(
    run: Seq<EventLoop<C>>,
    events: Seq<LoopEvent<C>>,
    i: int,
)
    requires
        is_loop_run(run, events),
        run[0].turn != Turn::Finish,
        forall|j: int| 0 <= j < events.len() ==> #[trigger] events[j] != LoopEvent::<C>::Stop(true),
        0 <= i < run.len(),
    ensures
        run[i].turn != Turn::Finish,
    decreases i,
{
    if i > 0 {
        law_unstopped_loop_goes_on(run, events, i - 1);
        assert(run[i].follows(run[i - 1], events[i - 1]));
    }
}

/// Once a loop that is stopped has come to its check, it does nothing but return: it
/// accepts, advances and drops no connection. So a loop that was stopped before it
/// started accepts none.
pub proof fn law_stopped_loop_does_nothing_more<C>(
    run: Seq<EventLoop<C>>,
    events: Seq<LoopEvent<C>>,
    i: int,
)
    requires
        is_loop_run(run, events),
        is_stopped_throughout(events),
        run[0].turn == Turn::CheckStop,
        0 <= i < run.len(),
    ensures
        run[i].turn == Turn::CheckStop || run[i].turn == Turn::Finish,
        run[i].live@ == run[0].live@,
        i > 0 && answers_turn(run[0].turn, events[0]) ==> run[i].turn == Turn::Finish,
    decreases i,
{
    if i > 0 {
        law_stopped_loop_does_nothing_more(run, events, i - 1);
        assert(run[i].follows(run[i - 1], events[i - 1]));
    }
}

/// However many clients connect without a pause, the loop does not go on accepting: it
/// takes those that there is room for, drops one more, and goes on to advance the
/// connections.
pub proof fn law_accepting_ends_at_the_limit<C>(
    run: Seq<EventLoop<C>>,
    events: Seq<LoopEvent<C>>,
    i: int,
)
    requires
        is_loop_run(run, events),
        run[0].wf(),
        run[0].turn == Turn::Accept,
        forall|j: int|
            0 <= j < events.len() ==> (#[trigger] events[j] matches LoopEvent::Accepted(newcomer)
                && newcomer is Some),
        0 <= i < run.len(),
        i <= MAX_CONNECTIONS - run[0].live@.len() + 1,
    ensures
        i <= MAX_CONNECTIONS - run[0].live@.len() ==> run[i].turn == Turn::Accept
            && run[i].live@.len() == run[0].live@.len() + i,
        i == MAX_CONNECTIONS - run[0].live@.len() + 1 ==> run[i].turn == Turn::Sweep
            && run[i].live@.len() == MAX_CONNECTIONS,
    decreases i,
{
    if i > 0 {
        law_accepting_ends_at_the_limit(run, events, i - 1);
        assert(run[i].follows(run[i - 1], events[i - 1]));
    }
}

/// A loop that is stopped returns once the iteration under way has ended: when it has
/// done with accepting, the connections are advanced once more, and at the check after
/// that the loop returns.
pub proof fn law_stopped_loop_returns<C>(run: Seq<EventLoop<C>>, events: Seq<LoopEvent<C>>)
    requires
        is_loop_run(run, events),
        is_stopped_throughout(events),
        forall|i: int| 0 <= i < events.len() ==> #[trigger] answers_turn(run[i].turn, events[i]),
        run[0].turn == Turn::Accept,
        run[1].turn == Turn::Sweep,
        events.len() >= 4,
    ensures
        run[4].turn == Turn::Finish,
        forall|i: int| 1 <= i <= 4 ==> (#[trigger] run[i]).turn != Turn::Accept,
{
    assert(run[1].follows(run[0], events[0]));
    assert(answers_turn(run[1].turn, events[1]));
    assert(run[2].follows(run[1], events[1]));
    assert(answers_turn(run[2].turn, events[2]));
    assert(run[3].follows(run[2], events[2]));
    assert(answers_turn(run[3].turn, events[3]));
    assert(run[4].follows(run[3], events[3]));
    assert(events[2] != LoopEvent::<C>::Stop(false));
    assert(events[3] != LoopEvent::<C>::Stop(false));
}

/// The connections of a loop change only by what happens to them: a newcomer that there
/// is room for comes last, a sweep takes out those that are to be dropped, and nothing
/// else adds, loses or moves one.
pub proof fn law_connections_change_only_by_events<C>(
    was: EventLoop<C>,
    event: LoopEvent<C>,
    is: EventLoop<C>,
)
    requires
        was.wf(),
        is.follows(was, event),
    ensures
        match (was.turn, event) {
            (Turn::Accept, LoopEvent::Accepted(Some(newcomer))) => if was.live@.len() < 4096 {
                &&& is.live@.len() == was.live@.len() + 1
                &&& is.live@.last() == newcomer
                &&& is.live@.drop_last() == was.live@
            } else {
                is.live@ == was.live@
            },
            (Turn::Sweep, LoopEvent::Swept(keep)) => is.live@ == kept(was.live@, keep@),
            _ => is.live@ == was.live@,
        },
{
    if let (Turn::Accept, LoopEvent::Accepted(Some(newcomer))) = (was.turn, event) {
        if was.live@.len() < 4096 {
            assert(is.live@.drop_last() =~= was.live@);
        }
    }
}

/// What a sweep keeps and drops: each connection is there after it exactly if it is
/// flagged, at the place that the flagged ones before it leave to it.
pub proof fn law_sweep_keeps_the_flagged<C>(s: Seq<C>, keep: Seq<bool>, i: int)
    requires
        s.len() == keep.len(),
        0 <= i < s.len(),
    ensures
        keep[i] ==> kept(s.take(i), keep.take(i)).len() < kept(s, keep).len() && kept(s, keep)[kept(
            s.take(i),
            keep.take(i),
        ).len() as int] == s[i],
        kept(s.take(i + 1), keep.take(i + 1)).len() == kept(s.take(i), keep.take(i)).len() + (if keep[i] {
            1int
        } else {
            0
        }),
{
    let a = s.take(i);
    let b = s.subrange(i, i + 1);
    let c = s.skip(i + 1);
    let ka = keep.take(i);
    let kb = keep.subrange(i, i + 1);
    let kc = keep.skip(i + 1);
    assert(s =~= a + (b + c));
    assert(keep =~= ka + (kb + kc));
    assert(s.take(i + 1) =~= a + b);
    assert(keep.take(i + 1) =~= ka + kb);
    law_sweep_is_exact(a, b + c, ka, kb + kc);
    law_sweep_is_exact(b, c, kb, kc);
    law_sweep_is_exact(a, b, ka, kb);
}

/// The loop goes round: it checks whether it is stopped, accepts until there is nothing
/// to accept or no room, advances every connection, yields if none is left, and checks
/// again.
pub proof fn law_loop_goes_round<C>(was: EventLoop<C>, event: LoopEvent<C>, is: EventLoop<C>)
    requires
        was.wf(),
        is.follows(was, event),
        answers_turn(was.turn, event),
    ensures
        match was.turn {
            Turn::CheckStop => is.turn == Turn::Accept || is.turn == Turn::Finish,
            Turn::Accept => is.turn == Turn::Sweep <==> event == LoopEvent::<C>::AcceptFailed(
                ErrorKind::WouldBlock,
            ) || (event is Accepted && was.live@.len() == 4096),
            Turn::Sweep => is.turn == (if is.live@.len() == 0 {
                Turn::Yield
            } else {
                Turn::CheckStop
            }),
            Turn::Yield => is.turn == Turn::CheckStop,
            Turn::Finish => is.turn == Turn::Finish,
        },
        was.turn == Turn::Accept ==> is.turn == Turn::Sweep || is.turn == Turn::Accept,
{
}

} // verus!
