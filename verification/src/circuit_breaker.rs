//! This is the main circuit breaker implementation
//! It allows you to give your system a break when a threshhold of errors has
//! been reached.
//!
//! All times are nanoseconds on the breaker's own clock, which starts at zero
//! when the breaker is created. Every operation that depends on the time
//! exists twice: under its plain name it reads the clock, and with `_at` in
//! its name (or with a `now` parameter) it takes the time from the caller.
use crate::clock::Clock;
use crate::ring_buffer::{Ring, RingBuffer};
use vstd::arithmetic::div_mod::{
    lemma_div_is_ordered, lemma_hoist_over_denominator, lemma_mod_bound,
};
use vstd::prelude::*;

verus! {

/// The state of our [CircuitBreaker]
#[derive(Debug, Clone, Copy, PartialEq, Eq, Structural)]
pub enum State {
    /// A closed [CircuitBreaker] means requests should be allowed through
    Closed,
    /// An open [CircuitBreaker] means requests should be blocked. It holds the
    /// time at which the circuit opened.
    Open(u128),
    /// A half open [CircuitBreaker] means we count requests until we either have
    /// `Settings.trial_success_required` successful requests, which closes the
    /// circuit or a single failed request which opens it
    HalfOpen,
}

impl State {
    /// The name of the state as a terminal shows it, padded to eleven columns:
    /// plain for `Closed`, on red for `Open`, on yellow for `HalfOpen`.
    pub open spec fn label(self) -> Seq<char> {
        match self {
            State::Closed => "Closed     "@,
            State::Open(_) => "\x1b[41m Open \x1b[0m     "@,
            State::HalfOpen => "\x1b[43m Half Open \x1b[0m"@,
        }
    }

    /// The state as the one piece of a wiring diagram that stands for the
    /// switch: a closed line, a line laid flat, or a line half way.
    pub open spec fn symbol(self) -> Seq<char> {
        match self {
            State::Closed => "│"@,
            State::Open(_) => "\x1b[0m─"@,
            State::HalfOpen => "/"@,
        }
    }

    /// The name of the state, for a terminal
    pub fn to_string(&self) -> (text: String)
        ensures
            text@ == self.label(),
    {
        match self {
            State::Closed => "Closed     ".to_owned(),
            State::Open(_) => "\x1b[41m Open \x1b[0m     ".to_owned(),
            State::HalfOpen => "\x1b[43m Half Open \x1b[0m".to_owned(),
        }
    }

    /// The state as a piece of a wiring diagram, for a terminal
    pub fn to_symbol(&self) -> (text: String)
        ensures
            text@ == self.symbol(),
    {
        match self {
            State::Closed => "│".to_owned(),
            State::Open(_) => "\x1b[0m─".to_owned(),
            State::HalfOpen => "/".to_owned(),
        }
    }
}

/// The possible settings for our [CircuitBreaker]
#[derive(Debug, Clone, Copy, PartialEq, Eq, Structural)]
pub struct Settings {
    /// Specify the capacity of the ring buffer
    pub buffer_size: usize,
    /// Determine the duration (in nanoseconds) each node/span in the buffer
    /// stores data
    pub buffer_span_duration: u128,
    /// Define the minimum number of events required in the buffer to evaluate the
    /// error rate
    pub min_eval_size: usize,
    /// Set the error rate, in hundredths of a percent, above which the circuit
    /// opens
    pub error_threshold: u32,
    /// Specify the duration (in nanoseconds) the [CircuitBreaker] remains open
    /// before transitioning to half-open
    pub retry_timeout: u128,
    /// Set the number of consecutive successes required to close a half-open
    /// circuit
    pub trial_success_required: usize,
}

/// The settings that a breaker has where none are given: five spans of 200
/// seconds, at least 100 events, a threshold of 10%, a minute of retry timeout
/// and 20 trial successes.
pub open spec fn default_settings() -> Settings {
    Settings {
        buffer_size: 5,
        buffer_span_duration: 200_000_000_000,
        min_eval_size: 100,
        error_threshold: 1000,
        retry_timeout: 60_000_000_000,
        trial_success_required: 20,
    }
}

impl Default for Settings {
    fn default() -> (settings: Self)
        ensures
            settings == default_settings(),
    {
        Self {
            buffer_size: 5,
            buffer_span_duration: 200_000_000_000,
            min_eval_size: 100,
            error_threshold: 1000,
            retry_timeout: 60_000_000_000,
            trial_success_required: 20,
        }
    }
}

/// The time from `since` to `now`, zero where `now` is the earlier one.
pub open spec fn time_since(since: u128, now: u128) -> nat {
    if now >= since {
        (now - since) as nat
    } else {
        0
    }
}

/// What a circuit breaker is: its ring buffer, its state and its bookkeeping.
pub struct Breaker {
    pub buffer: Ring,
    pub state: State,
    /// The time of the last advance of the buffer.
    pub last_record: u128,
    /// The time at which the first span of the buffer began.
    pub start_time: u128,
    /// The successes counted since the circuit became half open.
    pub trial_success: usize,
    pub settings: Settings,
}

impl Breaker {
    /// The cursor of the buffer points at one of its nodes, the buffer holds
    /// no more than a `usize` can count, the configured buffer has a node, a
    /// span lasts longer than nothing, and trial successes are counted only
    /// while the circuit is half open.
    pub open spec fn wf(self) -> bool {
        &&& self.buffer.wf()
        &&& self.buffer.total() <= usize::MAX
        &&& self.settings.buffer_size >= 1
        &&& self.settings.buffer_span_duration > 0
        &&& (self.state is HalfOpen || self.trial_success == 0)
    }

    /// The buffer can take one more outcome.
    pub open spec fn has_room(self) -> bool {
        self.buffer.total() < usize::MAX
    }

    /// The breaker as it is made from `settings` at the time `now`.
    pub open spec fn fresh(settings: Settings, now: u128) -> Breaker {
        Breaker {
            buffer: Ring::fresh(settings.buffer_size as nat),
            state: State::Closed,
            last_record: now,
            start_time: now,
            trial_success: 0,
            settings,
        }
    }

    /// The number of the span that the time `at` falls into, counted from the
    /// span that began at `start_time`.
    pub open spec fn span_index(self, at: u128) -> nat {
        time_since(self.start_time, at) / (self.settings.buffer_span_duration as nat)
    }

    /// How many spans have begun between the last advance and `now`.
    pub open spec fn spans_elapsed(self, now: u128) -> nat {
        if self.span_index(now) > self.span_index(self.last_record) {
            (self.span_index(now) - self.span_index(self.last_record)) as nat
        } else {
            0
        }
    }

    /// The breaker after its buffer has caught up with the time `now`.
    pub open spec fn advance_to(self, now: u128) -> Breaker {
        if self.spans_elapsed(now) > 0 {
            Breaker {
                buffer: self.buffer.advance(self.spans_elapsed(now)),
                last_record: now,
                ..self
            }
        } else {
            self
        }
    }

    /// The error rate of the completed spans, in hundredths of a percent.
    pub open spec fn error_rate(self) -> nat {
        self.buffer.error_rate(self.settings.min_eval_size as nat)
    }

    /// The breaker after the transition that the time `now` calls for.
    pub open spec fn evaluate(self, now: u128) -> Breaker {
        match self.state {
            State::Open(opened_at) => {
                if time_since(opened_at, now) >= self.settings.retry_timeout {
                    Breaker { state: State::HalfOpen, ..self }
                } else {
                    self
                }
            },
            State::Closed => {
                let caught_up = self.advance_to(now);
                if caught_up.error_rate() > self.settings.error_threshold {
                    Breaker { state: State::Open(now), trial_success: 0, ..caught_up }
                } else {
                    caught_up
                }
            },
            State::HalfOpen => {
                if self.trial_success >= self.settings.trial_success_required {
                    Breaker { trial_success: 0, ..Breaker::fresh(self.settings, now) }
                } else {
                    self
                }
            },
        }
    }

    /// The breaker after one outcome has been tallied at the time `now`,
    /// whatever its state.
    pub open spec fn tally(self, now: u128, success: bool) -> Breaker {
        let caught_up = self.advance_to(now);
        Breaker {
            buffer: if success {
                caught_up.buffer.add_success()
            } else {
                caught_up.buffer.add_failure()
            },
            ..caught_up
        }
    }

    /// The breaker after an outcome was reported at the time `now`: first the
    /// transition that the time calls for, then what the state it is in then
    /// does with the outcome.
    pub open spec fn record(self, now: u128, success: bool) -> Breaker {
        let current = self.evaluate(now);
        match current.state {
            State::Open(_) => current,
            State::HalfOpen => {
                if success {
                    (Breaker {
                        trial_success: (current.trial_success + 1) as usize,
                        ..current
                    }).evaluate(now)
                } else {
                    Breaker { state: State::Open(now), trial_success: 0, ..current }
                }
            },
            State::Closed => {
                if success {
                    current.tally(now, true)
                } else {
                    current.tally(now, false).evaluate(now)
                }
            },
        }
    }

    /// How far the time `now` is into the span of length `span` that it falls
    /// into, counted from `start_time`.
    pub open spec fn elapsed_time(self, span: u128, now: u128) -> nat {
        time_since(self.start_time, now) % (span as nat)
    }
}

impl Breaker {
    /// Catching up with the time keeps a breaker well formed and adds nothing
    /// to what its buffer holds.
    pub proof fn lemma_advance_to_keeps(self, now: u128)
        requires
            self.wf(),
        ensures
            self.advance_to(now).wf(),
            self.advance_to(now).buffer.total() <= self.buffer.total(),
            self.advance_to(now).buffer.nodes.len() == self.buffer.nodes.len(),
    {
        self.buffer.lemma_advance_keeps(self.spans_elapsed(now));
    }

    /// A transition keeps a breaker well formed, adds nothing to what its
    /// buffer holds and leaves the settings as they are. A buffer of the
    /// configured size keeps its size.
    pub proof fn lemma_evaluate_keeps(self, now: u128)
        requires
            self.wf(),
        ensures
            self.evaluate(now).wf(),
            self.evaluate(now).buffer.total() <= self.buffer.total(),
            self.evaluate(now).settings == self.settings,
            self.settings.buffer_size == self.buffer.nodes.len() ==> self.evaluate(
                now,
            ).buffer.nodes.len() == self.buffer.nodes.len(),
    {
        self.lemma_advance_to_keeps(now);
        Ring::lemma_fresh_holds_nothing(self.settings.buffer_size as nat);
    }
}

impl Breaker {
    /// Idempotent advance: once the buffer has caught up with a time, catching
    /// up with the same time again changes nothing.
    pub proof fn lemma_advance_to_is_idempotent(self, now: u128)
        ensures
            self.advance_to(now).advance_to(now) == self.advance_to(now),
    {
    }

    /// A second look at the same time leaves the buffer alone: after one
    /// transition at some time, another at that time changes neither a node
    /// nor the cursor. The one exception is left out: a circuit that asks for
    /// no trial success and whose retry timeout has passed goes from open to
    /// half open at the first look and on to closed, with a new buffer, at the
    /// second.
    pub proof fn lemma_second_look_keeps_buffer(self, now: u128)
        requires
            self.wf(),
            !(self.state matches State::Open(opened_at) && time_since(opened_at, now)
                >= self.settings.retry_timeout && self.settings.trial_success_required == 0),
        ensures
            self.evaluate(now).evaluate(now).buffer == self.evaluate(now).buffer,
            self.evaluate(now).evaluate(now).trial_success == self.evaluate(now).trial_success,
    {
    }

    /// A breaker that a transition at some time left closed has caught up with
    /// that time.
    pub proof fn lemma_closed_has_caught_up(self, now: u128)
        requires
            self.wf(),
            self.evaluate(now).state is Closed,
        ensures
            self.evaluate(now).advance_to(now) == self.evaluate(now),
    {
    }

    /// Tallying an outcome keeps a breaker with room well formed, adds one to
    /// what its buffer holds and leaves the error rate as it was.
    pub proof fn lemma_tally_keeps(self, now: u128, success: bool)
        requires
            self.wf(),
            self.has_room(),
        ensures
            self.tally(now, success).wf(),
            self.tally(now, success).buffer.total() <= self.buffer.total() + 1,
            self.tally(now, success).error_rate() == self.advance_to(now).error_rate(),
    {
        self.lemma_advance_to_keeps(now);
        self.advance_to(now).buffer.lemma_add_keeps_completed();
    }

    /// After a failure was tallied in a breaker that a transition had just left
    /// closed, a second look at the same time changes nothing: the failure is
    /// in the span in progress, which the error rate does not read.
    pub proof fn lemma_failure_needs_no_second_look(self, now: u128)
        requires
            self.wf(),
            self.has_room(),
            self.evaluate(now).state is Closed,
        ensures
            self.evaluate(now).tally(now, false).evaluate(now) == self.evaluate(now).tally(
                now,
                false,
            ),
    {
        let current = self.evaluate(now);
        self.lemma_evaluate_keeps(now);
        self.lemma_closed_has_caught_up(now);
        current.lemma_tally_keeps(now, false);
        Ring::lemma_fresh_holds_nothing(self.settings.buffer_size as nat);
    }

    /// Reporting an outcome keeps a breaker with room well formed, adds at most
    /// one to what its buffer holds and leaves the settings as they are.
    pub proof fn lemma_record_keeps(self, now: u128, success: bool)
        requires
            self.wf(),
            self.has_room(),
        ensures
            self.record(now, success).wf(),
            self.record(now, success).buffer.total() <= self.buffer.total() + 1,
            self.record(now, success).settings == self.settings,
    {
        let current = self.evaluate(now);
        self.lemma_evaluate_keeps(now);
        match current.state {
            State::Open(_) => {},
            State::HalfOpen => {
                if success {
                    let counted = Breaker {
                        trial_success: (current.trial_success + 1) as usize,
                        ..current
                    };
                    counted.lemma_evaluate_keeps(now);
                }
            },
            State::Closed => {
                current.lemma_tally_keeps(now, success);
                if !success {
                    self.lemma_failure_needs_no_second_look(now);
                }
            },
        }
    }
}

impl Breaker {
    /// The breaker after each of `reports` was recorded in turn. A report is
    /// the time at which it came and whether the request succeeded.
    pub open spec fn record_all(self, reports: Seq<(u128, bool)>) -> Breaker
        decreases reports.len(),
    {
        if reports.len() == 0 {
            self
        } else {
            self.record_all(reports.drop_last()).record(reports.last().0, reports.last().1)
        }
    }

    /// The threshold is strict: a closed circuit opens where the error rate of
    /// the completed spans is above the threshold, and there only. At a rate
    /// equal to the threshold it stays closed; one hundredth of a percent above
    /// it, it opens.
    pub proof fn lemma_threshold_is_strict(self, now: u128)
        requires
            self.state is Closed,
        ensures
            self.evaluate(now).state == State::Open(now) <==> self.advance_to(now).error_rate()
                > self.settings.error_threshold,
            self.evaluate(now).state is Closed <==> self.advance_to(now).error_rate()
                <= self.settings.error_threshold,
            self.advance_to(now).error_rate() == self.settings.error_threshold ==> self.evaluate(
                now,
            ) == self.advance_to(now),
            self.advance_to(now).error_rate() == self.settings.error_threshold + 1
                ==> self.evaluate(now) == (Breaker {
                state: State::Open(now),
                trial_success: 0,
                ..self.advance_to(now)
            }),
    {
    }

    /// As many spans begin as the time that passes holds: where `count` whole
    /// spans lie between the last advance and `now`, at least `count` spans
    /// have begun.
    pub proof fn lemma_spans_follow_time(self, now: u128, count: nat)
        requires
            self.wf(),
            self.start_time <= self.last_record <= now,
            now - self.last_record >= count * self.settings.buffer_span_duration,
        ensures
            self.spans_elapsed(now) >= count,
    {
        let span = self.settings.buffer_span_duration as nat;
        let before = time_since(self.start_time, self.last_record) as int;
        let after = time_since(self.start_time, now) as int;
        lemma_hoist_over_denominator(before, count as int, span);
        lemma_div_is_ordered(before + count * span, after, span as int);
    }

    /// Bounded memory: once as many spans have begun since the last advance as
    /// the buffer has nodes, catching up leaves every node empty, whatever the
    /// buffer held before.
    pub proof fn lemma_window_forgets(self, now: u128)
        requires
            self.wf(),
            self.spans_elapsed(now) >= self.buffer.nodes.len(),
        ensures
            self.advance_to(now).buffer.nodes == Ring::fresh(self.buffer.nodes.len()).nodes,
            self.advance_to(now).buffer.total() == 0,
            self.advance_to(now).error_rate() == 0,
    {
        self.buffer.lemma_long_advance_forgets(self.spans_elapsed(now));
        Ring::lemma_fresh_holds_nothing(self.buffer.nodes.len());
        self.lemma_advance_to_keeps(now);
        self.advance_to(now).buffer.lemma_total_covers();
    }

    /// Sparse data does not open the circuit: while the completed spans hold
    /// fewer observations than `min_eval_size`, a closed circuit stays closed,
    /// whatever share of them failed.
    pub proof fn lemma_sparse_data_keeps_closed(self, now: u128)
        requires
            self.state is Closed,
            self.advance_to(now).buffer.observed() < self.settings.min_eval_size,
        ensures
            self.advance_to(now).error_rate() == 0,
            self.evaluate(now) == self.advance_to(now),
            self.evaluate(now).state is Closed,
    {
    }

    /// No partial credit: a failure reported to a half-open circuit that is
    /// still short of its trial successes, by one or by many, opens the circuit
    /// at once and takes the count of trial successes back to zero. The buffer
    /// is not touched.
    pub proof fn lemma_half_open_failure_reopens(self, now: u128)
        requires
            self.state is HalfOpen,
            self.trial_success < self.settings.trial_success_required,
        ensures
            self.record(now, false) == (Breaker {
                state: State::Open(now),
                trial_success: 0,
                ..self
            }),
    {
    }

    /// Open is inert: whatever is reported to an open circuit before its retry
    /// timeout has passed, and however often, nothing of the breaker changes.
    pub proof fn lemma_open_is_inert(self, opened_at: u128, reports: Seq<(u128, bool)>)
        requires
            self.state == State::Open(opened_at),
            forall|i: int|
                0 <= i < reports.len() ==> time_since(opened_at, (#[trigger] reports[i]).0)
                    < self.settings.retry_timeout,
        ensures
            self.record_all(reports) == self,
        decreases reports.len(),
    {
        if reports.len() > 0 {
            self.lemma_open_is_inert(opened_at, reports.drop_last());
        }
    }

    /// Enough trial successes close the circuit: a success reported to a
    /// half-open circuit that is one short of its trial successes closes it,
    /// with an empty buffer whose first span begins at that time.
    pub proof fn lemma_last_trial_success_closes(self, now: u128)
        requires
            self.state is HalfOpen,
            self.trial_success + 1 == self.settings.trial_success_required,
        ensures
            self.record(now, true) == Breaker::fresh(self.settings, now),
    {
    }
}

/// The main circuit breaker struct
#[derive(Debug, PartialEq)]
pub struct CircuitBreaker {
    /// The ring buffer for storing failures/successes
    buffer: RingBuffer,
    /// The current state of the [CircuitBreaker]
    state: State,
    /// The last time the buffer advanced. Used for time-based advancement
    last_record: u128,
    /// The time when the first span of the buffer began
    start_time: u128,
    /// Consecutive successes when in HalfOpen state
    trial_success: usize,
    /// All relevant circuit-breaker settings in one struct
    settings: Settings,
    /// The clock that gives the time to the operations that take none
    clock: Clock,
}

impl View for CircuitBreaker {
    type V = Breaker;

    closed spec fn view(&self) -> Breaker {
        Breaker {
            buffer: self.buffer@,
            state: self.state,
            last_record: self.last_record,
            start_time: self.start_time,
            trial_success: self.trial_success,
            settings: self.settings,
        }
    }
}

impl CircuitBreaker {
    /// See [`Breaker::wf`].
    pub open spec fn wf(&self) -> bool {
        self@.wf()
    }

    /// Create a new [CircuitBreaker] with [Settings]. Its clock starts now.
    pub fn new(settings: Settings) -> (breaker: Self)
        requires
            settings.buffer_size >= 1,
            settings.buffer_span_duration > 0,
        ensures
            breaker.wf(),
            breaker@ == Breaker::fresh(settings, 0),
            breaker@.buffer.total() == 0,
    {
        proof {
            Ring::lemma_fresh_holds_nothing(settings.buffer_size as nat);
        }
        Self {
            buffer: RingBuffer::new(settings.buffer_size),
            state: State::Closed,
            last_record: 0,
            start_time: 0,
            trial_success: 0,
            settings,
            clock: Clock::start(),
        }
    }

    /// Create a [CircuitBreaker] from all that it holds. Its clock starts now.
    pub fn from_parts(
        buffer: RingBuffer,
        state: State,
        last_record: u128,
        start_time: u128,
        trial_success: usize,
        settings: Settings,
    ) -> (breaker: Self)
        requires
            buffer.wf(),
            settings.buffer_size >= 1,
            settings.buffer_span_duration > 0,
            state is HalfOpen || trial_success == 0,
        ensures
            breaker.wf(),
            breaker@ == (Breaker {
                buffer: buffer@,
                state,
                last_record,
                start_time,
                trial_success,
                settings,
            }),
    {
        Self {
            buffer,
            state,
            last_record,
            start_time,
            trial_success,
            settings,
            clock: Clock::start(),
        }
    }

    /// The time on the clock of this breaker.
    pub fn now(&self) -> (now: u128) {
        self.clock.now()
    }

    /// Determine if we need to advance the ring buffer based on how many spans
    /// have begun since the last advance
    pub fn advance_buffer_for_time(&mut self, now: u128)
        requires
            old(self).wf(),
        ensures
            final(self).wf(),
            final(self)@ == old(self)@.advance_to(now),
            final(self)@.buffer.total() <= old(self)@.buffer.total(),
    {
        let ghost before = self@;
        proof {
            before.lemma_advance_to_keeps(now);
        }
        let span = self.settings.buffer_span_duration;
        let here = (if now >= self.start_time {
            now - self.start_time
        } else {
            0
        }) / span;
        let there = (if self.last_record >= self.start_time {
            self.last_record - self.start_time
        } else {
            0
        }) / span;
        if here > there {
            let spans = here - there;
            let size = self.buffer.get_size();
            if spans >= size as u128 {
                proof {
                    before.buffer.lemma_advance_keeps(size as nat);
                    before.buffer.lemma_advance_wraps(spans as nat);
                    lemma_mod_bound(spans as int, size as int);
                }
                self.buffer.advance(size);
                self.buffer.advance((spans % (size as u128)) as usize);
            } else {
                self.buffer.advance(spans as usize);
            }
            self.last_record = now;
        }
    }

    /// Evaluate and possibly transition the state machine at the time `now`
    pub fn evaluate_state_at(&mut self, now: u128)
        requires
            old(self).wf(),
        ensures
            final(self).wf(),
            final(self)@ == old(self)@.evaluate(now),
            final(self)@.buffer.total() <= old(self)@.buffer.total(),
    {
        let ghost before = self@;
        proof {
            before.lemma_evaluate_keeps(now);
            before.lemma_advance_to_keeps(now);
            before.advance_to(now).buffer.lemma_total_covers();
        }
        match self.state {
            State::Open(opened_at) => {
                let waited = if now >= opened_at {
                    now - opened_at
                } else {
                    0
                };
                if waited >= self.settings.retry_timeout {
                    self.state = State::HalfOpen;
                }
            },
            State::Closed => {
                self.advance_buffer_for_time(now);
                if self.buffer.get_error_rate(self.settings.min_eval_size)
                    > self.settings.error_threshold {
                    self.state = State::Open(now);
                    self.trial_success = 0;
                }
            },
            State::HalfOpen => {
                if self.trial_success >= self.settings.trial_success_required {
                    self.trial_success = 0;
                    self.state = State::Closed;
                    self.buffer = RingBuffer::new(self.settings.buffer_size);
                    self.last_record = now;
                    self.start_time = now;
                }
            },
        }
    }

    /// Evaluate and possibly transition the state machine, at the time that
    /// the clock gives
    pub fn evaluate_state(&mut self)
        requires
            old(self).wf(),
        ensures
            final(self).wf(),
            exists|now: u128| final(self)@ == #[trigger] old(self)@.evaluate(now),
            final(self)@.buffer.total() <= old(self)@.buffer.total(),
    {
        let now = self.clock.now();
        self.evaluate_state_at(now);
    }

    /// Get the state at the time `now`, updating it first
    pub fn get_state_at(&mut self, now: u128) -> (state: State)
        requires
            old(self).wf(),
        ensures
            final(self).wf(),
            final(self)@ == old(self)@.evaluate(now),
            final(self)@.buffer.total() <= old(self)@.buffer.total(),
            state == final(self)@.state,
    {
        self.evaluate_state_at(now);
        self.state
    }

    /// Get the current state, updating it first
    pub fn get_state(&mut self) -> (state: State)
        requires
            old(self).wf(),
        ensures
            final(self).wf(),
            exists|now: u128| final(self)@ == #[trigger] old(self)@.evaluate(now),
            final(self)@.buffer.total() <= old(self)@.buffer.total(),
            state == final(self)@.state,
    {
        let now = self.clock.now();
        self.get_state_at(now)
    }

    /// Tell whether the buffer can take one more outcome: whether a result can
    /// be recorded
    pub fn has_room(&self) -> (room: bool)
        requires
            self.wf(),
        ensures
            room == self@.has_room(),
    {
        self.buffer.get_total() < usize::MAX
    }

    /// Get the number of successes we have recorded in HalfOpen state
    pub fn get_trial_success(&self) -> (trial_success: usize)
        ensures
            trial_success == self@.trial_success,
    {
        self.trial_success
    }

    /// Get our [Settings]
    pub fn get_settings(&self) -> (settings: &Settings)
        ensures
            *settings == self@.settings,
    {
        &self.settings
    }

    /// Get the error rate calculated for the ring buffer thus far, in
    /// hundredths of a percent
    pub fn get_error_rate(&self) -> (rate: u32)
        requires
            self.wf(),
        ensures
            rate == self@.error_rate(),
            rate <= 10000,
    {
        proof {
            self@.buffer.lemma_total_covers();
        }
        self.buffer.get_error_rate(self.settings.min_eval_size)
    }

    /// Get the elapsed time of our current phase: how far `now` is into its
    /// span, for spans of length `buffer_span_duration`
    pub fn get_elapsed_time(&self, buffer_span_duration: u128, now: u128) -> (elapsed_time: u128)
        requires
            buffer_span_duration > 0,
        ensures
            elapsed_time == self@.elapsed_time(buffer_span_duration, now),
    {
        let since_start = if now >= self.start_time {
            now - self.start_time
        } else {
            0
        };
        since_start % buffer_span_duration
    }

    /// Record the result of a request at the time `now`: either as a success
    /// or failure
    pub fn record_at<T, E>(&mut self, now: u128, input: Result<T, E>)
        requires
            old(self).wf(),
            old(self)@.has_room(),
        ensures
            final(self).wf(),
            final(self)@ == old(self)@.record(now, input is Ok),
            final(self)@.buffer.total() <= old(self)@.buffer.total() + 1,
    {
        let ghost before = self@;
        proof {
            before.lemma_evaluate_keeps(now);
            before.lemma_record_keeps(now, input is Ok);
        }
        let success = input.is_ok();
        self.evaluate_state_at(now);
        let ghost current = self@;
        match self.state {
            State::Open(_) => {
                // We do not record anything if the circuit is open
            },
            State::HalfOpen => {
                if success {
                    self.trial_success += 1;
                    self.evaluate_state_at(now);
                } else {
                    self.state = State::Open(now);
                    self.trial_success = 0;
                }
            },
            State::Closed => {
                proof {
                    current.lemma_advance_to_keeps(now);
                    current.advance_to(now).buffer.lemma_total_covers();
                    current.advance_to(now).buffer.lemma_add_keeps_completed();
                }
                self.advance_buffer_for_time(now);
                if success {
                    self.buffer.add_success();
                } else {
                    self.buffer.add_failure();
                    proof {
                        before.lemma_failure_needs_no_second_look(now);
                    }
                }
            },
        }
    }

    /// Record the result of a request: either as a success or failure, at the
    /// time that the clock gives
    pub fn record<T, E>(&mut self, input: Result<T, E>)
        requires
            old(self).wf(),
            old(self)@.has_room(),
        ensures
            final(self).wf(),
            exists|now: u128| final(self)@ == #[trigger] old(self)@.record(now, input is Ok),
            final(self)@.buffer.total() <= old(self)@.buffer.total() + 1,
    {
        let now = self.clock.now();
        self.record_at(now, input);
    }

    /// Get the ring buffer instance as mutable reference
    pub fn get_buffer(&mut self) -> (buffer: &mut RingBuffer)
        ensures
            buffer@ == old(self)@.buffer,
            final(self)@ == (Breaker { buffer: final(buffer)@, ..old(self)@ }),
    {
        &mut self.buffer
    }
}

impl Default for CircuitBreaker {
    fn default() -> (breaker: Self)
        ensures
            breaker.wf(),
            breaker@ == Breaker::fresh(default_settings(), 0),
            breaker@.buffer.total() == 0,
    {
        Self::new(Settings::default())
    }
}

} // verus!
