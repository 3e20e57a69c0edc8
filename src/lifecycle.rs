use vstd::prelude::*;

verus! {

/// The status a process reports when it ends successfully.
pub const EXIT_SUCCESS: i32 = 0;

/// Where the native process stands in its life.
#[derive(Clone, Copy, Debug, PartialEq, Eq, Structural)]
pub enum Phase {
    /// The entry point has started and has not yet handed control to the host runtime.
    Booting,
    /// The host runtime's event loop owns the process.
    Running,
    /// The process has exited; nothing follows.
    Terminated,
}

/// What happens to the process from outside the core's own decisions.
#[derive(Clone, Copy, Debug, PartialEq, Eq, Structural)]
pub enum Event {
    /// The operating system starts the entry point.
    Start,
    /// The front end invokes the `exit_app` command through the host runtime.
    ExitCommand,
    /// The host runtime's driver returns after its own orderly shutdown.
    RuntimeShutdown,
    /// The host runtime's driver fails (it panics or aborts).
    HandoffFailed,
}

/// What the entry layer must do in answer to an event.
#[derive(Clone, Copy, Debug, PartialEq, Eq, Structural)]
pub enum Action {
    /// Call the host runtime's driver, with no arguments.
    HandOff,
    /// End the process at once with this status, skipping every shutdown hook.
    Exit { code: i32 },
    /// Return from the entry point: the runtime has already shut down.
    Return,
    /// Let the failure end the process abnormally, with no message of the core's own.
    Abort,
    /// Nothing to do.
    Ignore,
}

impl Phase {
    /// Whether the process has ended.
    pub open spec fn is_terminated(self) -> bool {
        self is Terminated
    }
}

impl Action {
    /// Whether carrying out the action ends the process.
    pub open spec fn ends_process(self) -> bool {
        self is Exit || self is Return || self is Abort
    }
}

/// The transition of the process on one event: the next phase and the action owed.
pub open spec fn next(p: Phase, e: Event) -> (Phase, Action) {
    match (p, e) {
        (Phase::Terminated, _) => (Phase::Terminated, Action::Ignore),
        (_, Event::ExitCommand) => (Phase::Terminated, Action::Exit { code: EXIT_SUCCESS }),
        (Phase::Booting, Event::Start) => (Phase::Running, Action::HandOff),
        (Phase::Running, Event::RuntimeShutdown) => (Phase::Terminated, Action::Return),
        (Phase::Running, Event::HandoffFailed) => (Phase::Terminated, Action::Abort),
        (p, _) => (p, Action::Ignore),
    }
}

/// Decides the next phase and the action for one event.
pub fn step(p: Phase, e: Event) -> (r: (Phase, Action))
    ensures
        r == next(p, e),
        !p.is_terminated() && e == Event::ExitCommand ==> r == (Phase::Terminated, Action::Exit { code: EXIT_SUCCESS }),
        p.is_terminated() ==> r == (Phase::Terminated, Action::Ignore),
        r.1.ends_process() <==> r.0.is_terminated() && !p.is_terminated(),
        r.1 == Action::HandOff <==> p == Phase::Booting && e == Event::Start,
{
    match p {
        Phase::Terminated => (Phase::Terminated, Action::Ignore),
        _ => match e {
            Event::ExitCommand => (Phase::Terminated, Action::Exit { code: EXIT_SUCCESS }),
            Event::Start => if p == Phase::Booting {
                (Phase::Running, Action::HandOff)
            } else {
                (p, Action::Ignore)
            },
            Event::RuntimeShutdown => if p == Phase::Running {
                (Phase::Terminated, Action::Return)
            } else {
                (p, Action::Ignore)
            },
            Event::HandoffFailed => if p == Phase::Running {
                (Phase::Terminated, Action::Abort)
            } else {
                (p, Action::Ignore)
            },
        },
    }
}

/// The phase reached from `p` after the events, taken in order.
pub open spec fn phase_after(p: Phase, events: Seq<Event>) -> Phase
    decreases events.len(),
{
    if events.len() == 0 {
        p
    } else {
        next(phase_after(p, events.drop_last()), events.last()).0
    }
}

/// The actions owed, one per event, when the events are taken in order from `p`.
pub open spec fn actions_after(p: Phase, events: Seq<Event>) -> Seq<Action>
    decreases events.len(),
{
    if events.len() == 0 {
        Seq::empty()
    } else {
        actions_after(p, events.drop_last()).push(
            next(phase_after(p, events.drop_last()), events.last()).1,
        )
    }
}

/// How many of the actions satisfy `pred`.
pub open spec fn count_where(actions: Seq<Action>, pred: spec_fn(Action) -> bool) -> nat
    decreases actions.len(),
{
    if actions.len() == 0 {
        0
    } else {
        count_where(actions.drop_last(), pred) + if pred(actions.last()) {
            1nat
        } else {
            0nat
        }
    }
}

/// Feeds the events in order to the state machine, from `start`, and collects the
/// actions it owes; a stand-in for the host runtime drives the core this way.
pub fn replay(start: Phase, events: &Vec<Event>) -> (r: (Phase, Vec<Action>))
    ensures
        r.0 == phase_after(start, events@),
        r.1@ == actions_after(start, events@),
{
    let mut phase = start;
    let mut actions: Vec<Action> = Vec::new();
    let mut i: usize = 0;
    while i < events.len()
        invariant
            i <= events.len(),
            phase == phase_after(start, events@.take(i as int)),
            actions@ == actions_after(start, events@.take(i as int)),
        decreases events.len() - i,
    {
        let ghost done = events@.take(i as int);
        assert(events@.take(i as int + 1).drop_last() == done);
        let (p, a) = step(phase, events[i]);
        phase = p;
        actions.push(a);
        i = i + 1;
    }
    assert(events@.take(events.len() as int) == events@);
    (phase, actions)
}

/// How many times the actions hand control to the host runtime.
pub open spec fn handoffs(actions: Seq<Action>) -> nat {
    count_where(actions, |a: Action| a is HandOff)
}

/// How many of the actions end the process.
pub open spec fn endings(actions: Seq<Action>) -> nat {
    count_where(actions, |a: Action| a.ends_process())
}

proof fn lemma_actions_len(p: Phase, events: Seq<Event>)
    ensures
        actions_after(p, events).len() == events.len(),
    decreases events.len(),
{
    if events.len() > 0 {
        lemma_actions_len(p, events.drop_last());
    }
}

/// The action owed for the `i`-th event is decided by the phase reached before it.
proof fn lemma_action_at(p: Phase, events: Seq<Event>, i: int)
    requires
        0 <= i < events.len(),
    ensures
        actions_after(p, events)[i] == next(phase_after(p, events.take(i)), events[i]).1,
    decreases events.len(),
{
    let init = events.drop_last();
    lemma_actions_len(p, init);
    if i == events.len() - 1 {
        assert(events.take(i) == init);
    } else {
        lemma_action_at(p, init, i);
        assert(init.take(i) == events.take(i));
    }
}

/// Taking two runs of events one after the other ends where the joined run ends.
proof fn lemma_phase_concat(p: Phase, a: Seq<Event>, b: Seq<Event>)
    ensures
        phase_after(p, a + b) == phase_after(phase_after(p, a), b),
    decreases b.len(),
{
    if b.len() == 0 {
        assert(a + b == a);
    } else {
        lemma_phase_concat(p, a, b.drop_last());
        assert((a + b).drop_last() == a + b.drop_last());
    }
}

proof fn lemma_terminated_absorbs(events: Seq<Event>)
    ensures
        phase_after(Phase::Terminated, events) == Phase::Terminated,
    decreases events.len(),
{
    if events.len() > 0 {
        lemma_terminated_absorbs(events.drop_last());
    }
}

/// From any history in which the process still lives, the exit command ends it with
/// the success status.
pub proof fn law_exit_command_succeeds(p: Phase, events: Seq<Event>)
    requires
        !phase_after(p, events).is_terminated(),
    ensures
        phase_after(p, events.push(Event::ExitCommand)) == Phase::Terminated,
        actions_after(p, events.push(Event::ExitCommand)).last() == (Action::Exit {
            code: EXIT_SUCCESS,
        }),
{
    assert(events.push(Event::ExitCommand).drop_last() == events);
}

/// Once an action ends the process, the process stays ended and every later event is
/// ignored: nothing runs after the exit.
pub proof fn law_nothing_after_end(p: Phase, events: Seq<Event>, i: int)
    requires
        0 <= i < events.len(),
        actions_after(p, events)[i].ends_process(),
    ensures
        phase_after(p, events) == Phase::Terminated,
        forall|j: int| i < j < events.len() ==> actions_after(p, events)[j] == Action::Ignore,
{
    lemma_action_at(p, events, i);
    let before = phase_after(p, events.take(i));
    assert(events.take(i + 1).drop_last() == events.take(i));
    assert(phase_after(p, events.take(i + 1)) == Phase::Terminated);
    assert forall|j: int| i < j <= events.len() implies phase_after(p, events.take(j))
        == Phase::Terminated by {
        let rest = events.subrange(i + 1, j);
        assert(events.take(j) == events.take(i + 1) + rest);
        lemma_phase_concat(p, events.take(i + 1), rest);
        lemma_terminated_absorbs(rest);
    }
    assert(events.take(events.len() as int) == events);
    assert forall|j: int| i < j < events.len() implies actions_after(p, events)[j]
        == Action::Ignore by {
        lemma_action_at(p, events, j);
    }
}

proof fn lemma_endings_step(p: Phase, events: Seq<Event>)
    ensures
        endings(actions_after(p, events)) <= 1,
        endings(actions_after(p, events)) == 1 ==> phase_after(p, events).is_terminated(),
    decreases events.len(),
{
    if events.len() > 0 {
        lemma_endings_step(p, events.drop_last());
        let acts = actions_after(p, events);
        assert(acts.drop_last() == actions_after(p, events.drop_last()));
    }
}

/// The process is ended at most once, whatever the events: no state survives an exit
/// for a second one to act on.
pub proof fn law_ends_at_most_once(p: Phase, events: Seq<Event>)
    ensures
        endings(actions_after(p, events)) <= 1,
{
    lemma_endings_step(p, events);
}

proof fn lemma_handoffs_step(events: Seq<Event>)
    ensures
        handoffs(actions_after(Phase::Booting, events)) <= 1,
        phase_after(Phase::Booting, events) == Phase::Booting ==> handoffs(
            actions_after(Phase::Booting, events),
        ) == 0,
        events.len() > 0 && events[0] == Event::Start ==> handoffs(
            actions_after(Phase::Booting, events),
        ) == 1,
    decreases events.len(),
{
    if events.len() > 0 {
        let init = events.drop_last();
        lemma_handoffs_step(init);
        let acts = actions_after(Phase::Booting, events);
        assert(acts.drop_last() == actions_after(Phase::Booting, init));
        if events.len() > 1 {
            assert(init[0] == events[0]);
        }
    }
}

/// The entry point hands control to the host runtime at most once in the life of the
/// process, and exactly once when the life begins with the start of the entry point.
pub proof fn law_single_handoff(events: Seq<Event>)
    ensures
        handoffs(actions_after(Phase::Booting, events)) <= 1,
        events.len() > 0 && events[0] == Event::Start ==> handoffs(
            actions_after(Phase::Booting, events),
        ) == 1,
{
    lemma_handoffs_step(events);
}

} // verus!
