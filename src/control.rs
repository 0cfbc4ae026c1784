use vstd::prelude::*;

verus! {

/// What the shutdown watch reports when an event loop polls it.
#[derive(Clone, Copy, Debug, PartialEq, Eq, Structural)]
pub enum ShutdownPoll {
    /// No change since the last poll.
    Pending,
    /// The flag changed; this is its value now.
    Changed(bool),
    /// The sending side is gone.
    Closed,
}

/// What the loop's own source (an accept, a datagram, a timer) reports.
#[derive(Clone, Copy, Debug, PartialEq, Eq, Structural)]
pub enum IoPoll {
    /// Nothing ready.
    Pending,
    /// An item is ready to be served.
    Ready,
    /// The source failed.
    Failed,
}

/// What the event loop does next.
#[derive(Clone, Copy, Debug, PartialEq, Eq, Structural)]
pub enum LoopAction {
    /// Nothing is ready: suspend until something is.
    Wait,
    /// The flag changed but is not set: poll again.
    Recheck,
    /// Leave the loop cleanly.
    Stop,
    /// Serve the ready item and keep looping.
    Serve,
    /// Leave the loop with the source's error.
    Fail,
    /// Report the source's error and keep looping.
    Skip,
}

/// The shutdown watch asks the loop to end.
pub open spec fn shutdown_requested(s: ShutdownPoll) -> bool {
    s == ShutdownPoll::Changed(true) || s == ShutdownPoll::Closed
}

/// The action that one selection step takes. `source_errors_fatal` says
/// whether an error of the loop's own source ends the loop or is reported and
/// passed over.
pub open spec fn loop_action(shutdown: ShutdownPoll, io: IoPoll, source_errors_fatal: bool) -> LoopAction {
    match shutdown {
        ShutdownPoll::Changed(true) | ShutdownPoll::Closed => LoopAction::Stop,
        ShutdownPoll::Changed(false) => LoopAction::Recheck,
        ShutdownPoll::Pending => match io {
            IoPoll::Pending => LoopAction::Wait,
            IoPoll::Ready => LoopAction::Serve,
            IoPoll::Failed => if source_errors_fatal {
                LoopAction::Fail
            } else {
                LoopAction::Skip
            },
        },
    }
}

/// One selection step of an event loop. Shutdown is looked at first: when it
/// is requested the loop stops, whatever its own source has ready. An error
/// of the source ends the loop only where `source_errors_fatal` says so.
pub fn next_action(shutdown: ShutdownPoll, io: IoPoll, source_errors_fatal: bool) -> (r: LoopAction)
    ensures
        r == loop_action(shutdown, io, source_errors_fatal),
{
    match shutdown {
        ShutdownPoll::Changed(true) | ShutdownPoll::Closed => LoopAction::Stop,
        ShutdownPoll::Changed(false) => LoopAction::Recheck,
        ShutdownPoll::Pending => match io {
            IoPoll::Pending => LoopAction::Wait,
            IoPoll::Ready => LoopAction::Serve,
            IoPoll::Failed => if source_errors_fatal {
                LoopAction::Fail
            } else {
                LoopAction::Skip
            },
        },
    }
}

/// Once shutdown is requested no event loop serves another item or fails on
/// its source: whatever the source has ready, the loop stops; and a loop
/// stops only when shutdown is requested.
pub proof fn shutdown_stops_every_loop(shutdown: ShutdownPoll)
    ensures
        shutdown_requested(shutdown) ==> forall|io: IoPoll, fatal: bool|
            #[trigger] loop_action(shutdown, io, fatal) == LoopAction::Stop,
        forall|io: IoPoll, fatal: bool|
            #[trigger] loop_action(shutdown, io, fatal) == LoopAction::Stop ==> shutdown_requested(
                shutdown,
            ),
{
}

/// A loop whose source errors are not fatal ends only on shutdown: no
/// selection step, whatever is ready, leaves it with an error, and every step
/// that does not stop it keeps it running.
pub proof fn tolerant_loop_ends_only_on_shutdown(shutdown: ShutdownPoll, io: IoPoll)
    ensures
        loop_action(shutdown, io, false) != LoopAction::Fail,
        loop_action(shutdown, io, false) == LoopAction::Stop <==> shutdown_requested(shutdown),
{
}

/// Mathematical state of a [`Supervisor`].
pub ghost struct SupervisorState<E> {
    pub total: nat,
    pub finished: nat,
    pub first_error: Option<E>,
    pub shutdown: bool,
}

/// The supervisor after one task reported `outcome`.
pub open spec fn record_spec<E>(s: SupervisorState<E>, outcome: Result<(), E>) -> SupervisorState<E> {
    SupervisorState {
        total: s.total,
        finished: s.finished + 1,
        first_error: match s.first_error {
            Some(e) => Some(e),
            None => match outcome {
                Ok(_) => None,
                Err(e) => Some(e),
            },
        },
        shutdown: s.shutdown || outcome is Err,
    }
}

/// The supervisor after the outcomes were reported in order.
pub open spec fn record_all<E>(s: SupervisorState<E>, outcomes: Seq<Result<(), E>>) -> SupervisorState<E>
    decreases outcomes.len(),
{
    if outcomes.len() == 0 {
        s
    } else {
        record_all(record_spec(s, outcomes[0]), outcomes.drop_first())
    }
}

/// The first error among the outcomes, in order.
pub open spec fn first_error_of<E>(outcomes: Seq<Result<(), E>>) -> Option<E>
    decreases outcomes.len(),
{
    if outcomes.len() == 0 {
        None
    } else {
        match outcomes[0] {
            Err(e) => Some(e),
            Ok(_) => first_error_of(outcomes.drop_first()),
        }
    }
}

/// What the orchestrator returns once every task has concluded.
pub open spec fn final_result<E>(s: SupervisorState<E>) -> Result<(), E> {
    match s.first_error {
        None => Ok(()),
        Some(e) => Err(e),
    }
}

/// Collects the outcomes of a fixed number of tasks. The first failure asks
/// every other task to shut down and is the one reported at the end.
pub struct Supervisor<E> {
    total: usize,
    finished: usize,
    first_error: Option<E>,
    shutdown: bool,
}

impl<E> View for Supervisor<E> {
    type V = SupervisorState<E>;

    closed spec fn view(&self) -> SupervisorState<E> {
        SupervisorState {
            total: self.total as nat,
            finished: self.finished as nat,
            first_error: self.first_error,
            shutdown: self.shutdown,
        }
    }
}

impl<E> Supervisor<E> {
    /// A supervisor of `total` running tasks, none of them concluded.
    pub fn new(total: usize) -> (r: Supervisor<E>)
        ensures
            r@ == (SupervisorState::<E> { total: total as nat, finished: 0, first_error: None, shutdown: false }),
    {
        Supervisor { total, finished: 0, first_error: None, shutdown: false }
    }

    /// Records the outcome of one task. Returns whether the caller must now
    /// broadcast shutdown: on the first failure, unless shutdown was already
    /// asked for.
    pub fn record(&mut self, outcome: Result<(), E>) -> (broadcast: bool)
        requires
            old(self)@.finished < old(self)@.total,
        ensures
            final(self)@ == record_spec(old(self)@, outcome),
            broadcast == (outcome is Err && !old(self)@.shutdown),
    {
        let failed = outcome.is_err();
        let broadcast = failed && !self.shutdown;
        if self.first_error.is_none() {
            match outcome {
                Err(e) => {
                    self.first_error = Some(e);
                },
                Ok(()) => {},
            }
        }
        if failed {
            self.shutdown = true;
        }
        self.finished = self.finished + 1;
        broadcast
    }

    /// Records that shutdown was asked for from outside (an interrupt).
    /// Returns whether it was not asked for before.
    pub fn interrupt(&mut self) -> (fresh: bool)
        ensures
            final(self)@ == (SupervisorState { shutdown: true, ..old(self)@ }),
            fresh == !old(self)@.shutdown,
    {
        let fresh = !self.shutdown;
        self.shutdown = true;
        fresh
    }

    /// Whether shutdown was asked for.
    pub fn shutdown_requested(&self) -> (r: bool)
        ensures
            r == self@.shutdown,
    {
        self.shutdown
    }

    /// Whether every task has concluded.
    pub fn is_complete(&self) -> (r: bool)
        ensures
            r == (self@.finished >= self@.total),
    {
        self.finished >= self.total
    }

    /// The result of the whole run: success when no task failed, else the
    /// first failure. Only available once every task has concluded.
    pub fn finish(self) -> (r: Result<(), E>)
        requires
            self@.finished >= self@.total,
        ensures
            r == final_result(self@),
    {
        match self.first_error {
            None => Ok(()),
            Some(e) => Err(e),
        }
    }
}

proof fn record_all_facts<E>(s: SupervisorState<E>, outcomes: Seq<Result<(), E>>)
    ensures
        record_all(s, outcomes).total == s.total,
        record_all(s, outcomes).finished == s.finished + outcomes.len(),
        record_all(s, outcomes).first_error == (match s.first_error {
            Some(e) => Some(e),
            None => first_error_of(outcomes),
        }),
        record_all(s, outcomes).shutdown == (s.shutdown || exists|i: int|
            0 <= i < outcomes.len() && #[trigger] outcomes[i] is Err),
    decreases outcomes.len(),
{
    if outcomes.len() > 0 {
        let rest = outcomes.drop_first();
        record_all_facts(record_spec(s, outcomes[0]), rest);
        if record_all(s, outcomes).shutdown && !s.shutdown && !(outcomes[0] is Err) {
            let i = choose|i: int| 0 <= i < rest.len() && #[trigger] rest[i] is Err;
            assert(outcomes[i + 1] is Err);
        }
        if exists|i: int| 0 <= i < outcomes.len() && #[trigger] outcomes[i] is Err {
            let i = choose|i: int| 0 <= i < outcomes.len() && #[trigger] outcomes[i] is Err;
            if i > 0 {
                assert(rest[i - 1] is Err);
            }
        }
    }
}

/// Whatever the outcomes of a run and the order in which they arrive, once
/// all are recorded the run reports exactly the first failure (or success
/// when there is none), and shutdown was asked for exactly when some task
/// failed.
pub proof fn first_failure_is_reported<E>(outcomes: Seq<Result<(), E>>)
    ensures
        ({
            let s = record_all(
                SupervisorState::<E> { total: outcomes.len(), finished: 0, first_error: None, shutdown: false },
                outcomes,
            );
            &&& s.finished == s.total
            &&& final_result(s) == (match first_error_of(outcomes) {
                None => Ok(()),
                Some(e) => Err(e),
            })
            &&& s.shutdown == exists|i: int| 0 <= i < outcomes.len() && #[trigger] outcomes[i] is Err
        }),
{
    record_all_facts(
        SupervisorState::<E> { total: outcomes.len(), finished: 0, first_error: None, shutdown: false },
        outcomes,
    );
}

} // verus!
