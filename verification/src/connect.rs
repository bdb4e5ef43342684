//! Establishing the connection to an upstream host: probe, wake, retry.
//!
//! The [`Connector`] decides; its caller acts. The caller performs the action
//! that the connector names, reports what came of it as an [`Event`], and is
//! told the next action, until the action is [`Action::Finish`].
//!
//! A connection is first tried directly. When the host does not answer, the
//! connector enters the wake cycle: each round sends a wake packet and tries
//! again, and between two rounds lies a pause that grows from round to round.
//! After the first wake packet alone, the host is given `wait_for` to come up.
//! The cycle ends with the first success, the first failure that a sleeping
//! host does not explain, or when `max_attempts` rounds have failed.

use vstd::prelude::*;

use crate::net::SocketAddress;

verus! {

/// A span of time: whole seconds and a fraction in nanoseconds.
#[derive(Clone, Copy, Debug, PartialEq, Eq, Structural)]
pub struct Delay {
    pub secs: u64,
    pub nanos: u32,
}

impl Delay {
    /// The span in nanoseconds.
    pub open spec fn spec_nanos(&self) -> nat {
        (self.secs * 1_000_000_000 + self.nanos) as nat
    }

    /// A span of whole seconds.
    pub fn from_secs(secs: u64) -> (d: Delay)
        ensures
            d == (Delay { secs, nanos: 0 }),
            d.spec_nanos() == secs * 1_000_000_000,
    {
        Delay { secs, nanos: 0 }
    }

    /// A span of whole milliseconds.
    pub fn from_millis(millis: u64) -> (d: Delay)
        ensures
            d.spec_nanos() == millis * 1_000_000,
            d.nanos < 1_000_000_000,
    {
        let secs = millis / 1000;
        let rest = (millis % 1000) as u32;
        Delay { secs, nanos: rest * 1_000_000 }
    }
}

/// The factor by which the pause between two rounds grows, held as the bit
/// pattern of an IEEE 754 double. The crate carries the factor and never
/// computes with it.
#[derive(Clone, Copy, Debug, PartialEq, Eq, Structural)]
pub struct RetryFactor {
    pub bits: u64,
}

/// The bit pattern of the double `2.0`.
pub const DOUBLE_TWO: u64 = 0x4000_0000_0000_0000;

/// How often, how long and how patiently a connection is tried.
#[derive(Clone, Copy, Debug, PartialEq, Eq, Structural)]
pub struct ConnectOpts {
    /// The pause after the first wake packet.
    pub wait_for: Delay,
    /// The number of rounds of the wake cycle; zero counts as one.
    pub max_attempts: u64,
    /// The pause between the first two rounds.
    pub retry_delay: Delay,
    /// The growth of that pause from one round to the next.
    pub retry_factor: RetryFactor,
}

impl ConnectOpts {
    /// The options of a rule that names none: no pause after waking, five
    /// rounds, one second between the first two, doubling from round to round.
    pub open spec fn spec_default() -> ConnectOpts {
        ConnectOpts {
            wait_for: Delay { secs: 0, nanos: 0 },
            max_attempts: 5,
            retry_delay: Delay { secs: 1, nanos: 0 },
            retry_factor: RetryFactor { bits: DOUBLE_TWO },
        }
    }

    /// The number of rounds that these options stand for: `max_attempts`, and
    /// one where that is zero.
    pub open spec fn spec_rounds(&self) -> nat {
        if self.max_attempts == 0 {
            1
        } else {
            self.max_attempts as nat
        }
    }

    /// The number of rounds that these options stand for.
    pub fn rounds(&self) -> (n: u64)
        ensures
            n == self.spec_rounds(),
            n >= 1,
    {
        if self.max_attempts == 0 {
            1
        } else {
            self.max_attempts
        }
    }
}

impl Default for ConnectOpts {
    /// No pause after waking, five rounds, one second between the first two,
    /// doubling from round to round.
    fn default() -> (opts: ConnectOpts)
        ensures
            opts == ConnectOpts::spec_default(),
    {
        ConnectOpts {
            wait_for: Delay::from_secs(0),
            max_attempts: 5,
            retry_delay: Delay::from_secs(1),
            retry_factor: RetryFactor { bits: DOUBLE_TWO },
        }
    }
}

/// The pause before the round after next, where `delay` is the pause before
/// the next round and `grown` is `delay` times the retry factor: `grown`,
/// and `delay` once more where the product is no span of time.
pub fn next_delay(delay: Delay, grown: Option<Delay>) -> (next: Delay)
    ensures
        next == (match grown {
            Some(longer) => longer,
            None => delay,
        }),
{
    match grown {
        Some(longer) => longer,
        None => delay,
    }
}

/// Why an attempt to connect failed, as far as the connector cares.
#[derive(Clone, Copy, Debug, PartialEq, Eq, Structural)]
pub enum ConnectFailure {
    /// No route to the host.
    HostUnreachable,
    /// The host answered and refused.
    ConnectionRefused,
    /// Anything else.
    Other,
}

impl ConnectFailure {
    /// Whether a sleeping host explains the failure.
    pub open spec fn spec_is_retryable(&self) -> bool {
        *self is HostUnreachable || *self is ConnectionRefused
    }
}

/// Whether a failure is one that waking the host and trying again may cure.
pub fn is_retry_error(failure: &ConnectFailure) -> (r: bool)
    ensures
        r == failure.spec_is_retryable(),
{
    match failure {
        ConnectFailure::HostUnreachable => true,
        ConnectFailure::ConnectionRefused => true,
        ConnectFailure::Other => false,
    }
}

/// A pause that the connector asks for.
#[derive(Clone, Copy, Debug, PartialEq, Eq, Structural)]
pub enum Pause {
    /// The pause of `wait_for` after the first wake packet.
    WaitFor,
    /// The pause before another round. The number counts the pauses of this
    /// kind that went before: the pause is `retry_delay` grown that many times
    /// by `retry_factor`.
    Backoff(u64),
}

/// How an attempt to reach the upstream ended.
#[derive(Clone, Copy, Debug, PartialEq, Eq, Structural)]
pub enum Outcome {
    /// The connection stands.
    Connected,
    /// An attempt failed in a way that trying again does not cure.
    Fatal,
    /// A wake packet could not be sent.
    WakeFailed,
    /// Every round of the wake cycle failed.
    Exhausted,
}

/// What the caller is to do next.
#[derive(Clone, Copy, Debug, PartialEq, Eq, Structural)]
pub enum Action {
    /// Try to connect to the target.
    Connect,
    /// Send the wake packet.
    Wake,
    /// Let time pass.
    Pause(Pause),
    /// Stop: nothing is left to do.
    Finish(Outcome),
}

/// What came of the action that the caller performed.
#[derive(Clone, Copy, Debug, PartialEq, Eq, Structural)]
pub enum Event {
    /// The connection stands.
    Connected,
    /// The attempt to connect failed.
    ConnectFailed(ConnectFailure),
    /// The wake packet is on its way.
    WakeSent,
    /// The wake packet could not be sent.
    WakeFailed,
    /// The pause is over.
    Paused,
}

/// Where the connector stands.
#[derive(Clone, Copy, Debug, PartialEq, Eq, Structural)]
pub enum Phase {
    /// The direct attempt is under way.
    Probing,
    /// A wake packet is to be sent.
    Waking,
    /// The host is given time after the first wake packet.
    Settling,
    /// An attempt of the wake cycle is under way.
    Retrying,
    /// The pause before another round.
    BackingOff,
    /// Nothing is left to do.
    Done(Outcome),
}

/// The state of one attempt to reach an upstream.
#[derive(Clone, Copy, Debug, PartialEq, Eq, Structural)]
pub struct Connector {
    /// Where connections are made to.
    pub target: SocketAddress,
    /// The options that govern the attempt.
    pub opts: ConnectOpts,
    /// Where the connector stands.
    pub phase: Phase,
    /// The rounds of the wake cycle that have failed so far.
    pub failures: u64,
}

impl Connector {
    /// The failure count fits the phase.
    pub open spec fn wf(&self) -> bool {
        let rounds = self.opts.spec_rounds();
        match self.phase {
            Phase::Probing => self.failures == 0,
            Phase::Waking => self.failures < rounds,
            Phase::Settling => self.failures == 0,
            Phase::Retrying => self.failures < rounds,
            Phase::BackingOff => 1 <= self.failures < rounds,
            Phase::Done(Outcome::Exhausted) => self.failures == rounds,
            Phase::Done(_) => self.failures <= rounds,
        }
    }

    /// The action that the connector waits for.
    pub open spec fn spec_action(&self) -> Action {
        match self.phase {
            Phase::Probing => Action::Connect,
            Phase::Waking => Action::Wake,
            Phase::Settling => Action::Pause(Pause::WaitFor),
            Phase::Retrying => Action::Connect,
            Phase::BackingOff => Action::Pause(Pause::Backoff((self.failures - 1) as u64)),
            Phase::Done(outcome) => Action::Finish(outcome),
        }
    }

    /// Whether `event` can come of the action that the connector waits for.
    pub open spec fn expects(&self, event: Event) -> bool {
        match self.spec_action() {
            Action::Connect => event is Connected || event is ConnectFailed,
            Action::Wake => event is WakeSent || event is WakeFailed,
            Action::Pause(_) => event is Paused,
            Action::Finish(_) => false,
        }
    }

    /// The state that follows when `event` comes of the awaited action.
    pub open spec fn spec_next(&self, event: Event) -> Connector {
        let rounds = self.opts.spec_rounds();
        match (self.phase, event) {
            (Phase::Probing, Event::Connected) => self.at(Phase::Done(Outcome::Connected)),
            (Phase::Probing, Event::ConnectFailed(failure)) => if failure.spec_is_retryable() {
                self.at(Phase::Waking)
            } else {
                self.at(Phase::Done(Outcome::Fatal))
            },
            (Phase::Waking, Event::WakeSent) => if self.failures == 0 {
                self.at(Phase::Settling)
            } else {
                self.at(Phase::Retrying)
            },
            (Phase::Waking, Event::WakeFailed) => self.at(Phase::Done(Outcome::WakeFailed)),
            (Phase::Settling, Event::Paused) => self.at(Phase::Retrying),
            (Phase::Retrying, Event::Connected) => self.at(Phase::Done(Outcome::Connected)),
            (Phase::Retrying, Event::ConnectFailed(failure)) => if !failure.spec_is_retryable() {
                self.at(Phase::Done(Outcome::Fatal))
            } else if self.failures + 1 == rounds {
                Connector {
                    phase: Phase::Done(Outcome::Exhausted),
                    failures: (self.failures + 1) as u64,
                    ..*self
                }
            } else {
                Connector {
                    phase: Phase::BackingOff,
                    failures: (self.failures + 1) as u64,
                    ..*self
                }
            },
            (Phase::BackingOff, Event::Paused) => self.at(Phase::Waking),
            _ => *self,
        }
    }

    /// This connector in another phase.
    pub open spec fn at(&self, phase: Phase) -> Connector {
        Connector { phase, ..*self }
    }

    /// An upper bound on the events that the connector still takes.
    pub open spec fn budget(&self) -> nat {
        let rounds = self.opts.spec_rounds();
        let left = (rounds - self.failures) as nat;
        match self.phase {
            Phase::Probing => 3 * left + 1,
            Phase::Waking => if self.failures == 0 {
                3 * left
            } else {
                (3 * left - 1) as nat
            },
            Phase::Settling => (3 * left - 1) as nat,
            Phase::Retrying => (3 * left - 2) as nat,
            Phase::BackingOff => 3 * left,
            Phase::Done(_) => 0,
        }
    }

    /// A connector for the target `target`, about to make the direct attempt.
    pub fn new(target: SocketAddress, opts: ConnectOpts) -> (c: Connector)
        ensures
            c == (Connector { target, opts, phase: Phase::Probing, failures: 0 }),
            c.wf(),
            c.spec_action() == Action::Connect,
            c.budget() == 3 * opts.spec_rounds() + 1,
    {
        Connector { target, opts, phase: Phase::Probing, failures: 0 }
    }

    /// The action that the connector waits for.
    pub fn action(&self) -> (a: Action)
        requires
            self.wf(),
        ensures
            a == self.spec_action(),
    {
        match self.phase {
            Phase::Probing => Action::Connect,
            Phase::Waking => Action::Wake,
            Phase::Settling => Action::Pause(Pause::WaitFor),
            Phase::Retrying => Action::Connect,
            Phase::BackingOff => Action::Pause(Pause::Backoff(self.failures - 1)),
            Phase::Done(outcome) => Action::Finish(outcome),
        }
    }

    /// How the attempt ended, once it has.
    pub fn outcome(&self) -> (o: Option<Outcome>)
        ensures
            o == (match self.phase {
                Phase::Done(outcome) => Some(outcome),
                _ => None,
            }),
    {
        match self.phase {
            Phase::Done(outcome) => Some(outcome),
            _ => None,
        }
    }

    /// Whether `event` can come of the action that the connector waits for.
    pub fn accepts(&self, event: &Event) -> (r: bool)
        ensures
            r == self.expects(*event),
    {
        match self.phase {
            Phase::Probing | Phase::Retrying => match event {
                Event::Connected => true,
                Event::ConnectFailed(_) => true,
                _ => false,
            },
            Phase::Waking => match event {
                Event::WakeSent => true,
                Event::WakeFailed => true,
                _ => false,
            },
            Phase::Settling | Phase::BackingOff => match event {
                Event::Paused => true,
                _ => false,
            },
            Phase::Done(_) => false,
        }
    }

    /// Whether the failure count fits the phase.
    pub fn is_wf(&self) -> (r: bool)
        ensures
            r == self.wf(),
    {
        let rounds = self.opts.rounds();
        match self.phase {
            Phase::Probing => self.failures == 0,
            Phase::Waking => self.failures < rounds,
            Phase::Settling => self.failures == 0,
            Phase::Retrying => self.failures < rounds,
            Phase::BackingOff => 1 <= self.failures && self.failures < rounds,
            Phase::Done(Outcome::Exhausted) => self.failures == rounds,
            Phase::Done(_) => self.failures <= rounds,
        }
    }

    /// Takes in what came of the awaited action and names the next one.
    ///
    /// Every event brings the connector closer to its end: `budget` falls.
    pub fn step(&mut self, event: Event) -> (a: Action)
        requires
            old(self).wf(),
            old(self).expects(event),
        ensures
            *final(self) == old(self).spec_next(event),
            final(self).wf(),
            a == final(self).spec_action(),
            final(self).budget() < old(self).budget(),
    {
        let rounds = self.opts.rounds();
        match (self.phase, event) {
            (Phase::Probing, Event::Connected) => {
                self.phase = Phase::Done(Outcome::Connected);
            },
            (Phase::Probing, Event::ConnectFailed(failure)) => {
                if is_retry_error(&failure) {
                    self.phase = Phase::Waking;
                } else {
                    self.phase = Phase::Done(Outcome::Fatal);
                }
            },
            (Phase::Waking, Event::WakeSent) => {
                if self.failures == 0 {
                    self.phase = Phase::Settling;
                } else {
                    self.phase = Phase::Retrying;
                }
            },
            (Phase::Waking, Event::WakeFailed) => {
                self.phase = Phase::Done(Outcome::WakeFailed);
            },
            (Phase::Settling, Event::Paused) => {
                self.phase = Phase::Retrying;
            },
            (Phase::Retrying, Event::Connected) => {
                self.phase = Phase::Done(Outcome::Connected);
            },
            (Phase::Retrying, Event::ConnectFailed(failure)) => {
                if !is_retry_error(&failure) {
                    self.phase = Phase::Done(Outcome::Fatal);
                } else {
                    self.failures = self.failures + 1;
                    if self.failures == rounds {
                        self.phase = Phase::Done(Outcome::Exhausted);
                    } else {
                        self.phase = Phase::BackingOff;
                    }
                }
            },
            (Phase::BackingOff, Event::Paused) => {
                self.phase = Phase::Waking;
            },
            _ => {},
        }
        self.action()
    }
}

/// The connector does not tell one failure that a sleeping host explains
/// from another: after either, it stands where it stands after the other.
pub proof fn lemma_retryable_failures_are_alike(
    c: Connector,
    one: ConnectFailure,
    other: ConnectFailure,
)
    requires
        one.spec_is_retryable(),
        other.spec_is_retryable(),
    ensures
        c.spec_next(Event::ConnectFailed(one)) == c.spec_next(Event::ConnectFailed(other)),
{
}

/// Whenever an attempt to connect succeeds, the connector is done and the
/// connection stands. Whenever one fails in a way that a sleeping host does
/// not explain, the connector is done at once, whatever rounds are left. So
/// it is when a wake packet cannot be sent.
pub proof fn lemma_ends_at_once(c: Connector, failure: ConnectFailure)
    requires
        c.wf(),
    ensures
        c.expects(Event::Connected) ==> c.spec_next(Event::Connected).phase == Phase::Done(
            Outcome::Connected,
        ),
        c.expects(Event::ConnectFailed(failure)) && !failure.spec_is_retryable() ==> c.spec_next(
            Event::ConnectFailed(failure),
        ).phase == Phase::Done(Outcome::Fatal),
        c.expects(Event::WakeFailed) ==> c.spec_next(Event::WakeFailed).phase == Phase::Done(
            Outcome::WakeFailed,
        ),
{
}

/// A wake packet is sent only after an attempt has failed in a way that a
/// sleeping host explains: the connector asks for one at no other time.
pub proof fn lemma_wake_follows_failure(c: Connector, event: Event)
    requires
        c.wf(),
        c.expects(event),
        c.spec_next(event).spec_action() == Action::Wake,
    ensures
        (event matches Event::ConnectFailed(failure) && failure.spec_is_retryable() && c.phase
            == Phase::Probing) || (event == Event::Paused && c.phase == Phase::BackingOff),
{
}

/// What comes of each action while the host stays asleep: every attempt to
/// connect is refused, every wake packet is sent, every pause passes.
pub open spec fn asleep_reply(action: Action) -> Event {
    match action {
        Action::Connect => Event::ConnectFailed(ConnectFailure::ConnectionRefused),
        Action::Wake => Event::WakeSent,
        _ => Event::Paused,
    }
}

/// The actions that the connector `c` names, from the one it waits for to the
/// last, while the host stays asleep.
pub open spec fn asleep_run(c: Connector) -> Seq<Action>
    decreases c.budget(),
{
    if c.phase is Done || !c.wf() {
        seq![c.spec_action()]
    } else {
        seq![c.spec_action()] + asleep_run(c.spec_next(asleep_reply(c.spec_action())))
    }
}

/// The course of an attempt of `rounds` rounds against a host that stays
/// asleep: the direct attempt; the first round, which wakes, waits and tries;
/// each later round, which pauses, wakes and tries; and the end.
pub open spec fn asleep_script(rounds: nat) -> Seq<Action> {
    Seq::new(
        3 * rounds + 2,
        |i: int|
            if i == 0 {
                Action::Connect
            } else if i == 1 {
                Action::Wake
            } else if i == 2 {
                Action::Pause(Pause::WaitFor)
            } else if i == 3 * rounds + 1 {
                Action::Finish(Outcome::Exhausted)
            } else if i % 3 == 0 {
                Action::Connect
            } else if i % 3 == 1 {
                Action::Pause(Pause::Backoff(((i - 4) / 3) as u64))
            } else {
                Action::Wake
            },
    )
}

/// How many of the actions `actions` are attempts to connect.
pub open spec fn connects_in(actions: Seq<Action>) -> nat {
    actions.filter(|a: Action| a is Connect).len()
}

/// How many of the actions `actions` send a wake packet.
pub open spec fn wakes_in(actions: Seq<Action>) -> nat {
    actions.filter(|a: Action| a is Wake).len()
}

/// The pauses before another round among the actions `actions`, in order,
/// each by its number.
pub open spec fn backoffs_in(actions: Seq<Action>) -> Seq<u64> {
    actions.filter(|a: Action| a is Pause && a->Pause_0 is Backoff).map_values(
        |a: Action| a->Pause_0->Backoff_0,
    )
}

/// Where in the script of a sleeping host the connector `c` stands.
pub open spec fn asleep_position(c: Connector) -> int {
    3 * c.opts.spec_rounds() + 1 - c.budget()
}

/// Whether the connector `c` is in a state that a sleeping host leads to.
pub open spec fn on_asleep_path(c: Connector) -> bool {
    c.wf() && (c.phase is Done ==> c.phase == Phase::Done(Outcome::Exhausted))
}

/// The state that follows `c` while the host stays asleep.
pub open spec fn asleep_next(c: Connector) -> Connector {
    c.spec_next(asleep_reply(c.spec_action()))
}

proof fn lemma_asleep_step(c: Connector)
    requires
        on_asleep_path(c),
        !(c.phase is Done),
    ensures
        on_asleep_path(asleep_next(c)),
        asleep_next(c).budget() + 1 == c.budget(),
        asleep_next(c).opts == c.opts,
        asleep_run(c) == seq![c.spec_action()] + asleep_run(asleep_next(c)),
{
}

proof fn lemma_filter_one(a: Action, pred: spec_fn(Action) -> bool)
    ensures
        seq![a].filter(pred) == (if pred(a) {
            seq![a]
        } else {
            Seq::empty()
        }),
{
    reveal_with_fuel(Seq::filter, 3);
    assert(seq![a].drop_last() =~= Seq::<Action>::empty());
    assert(seq![a].filter(pred) =~= (if pred(a) {
        seq![a]
    } else {
        Seq::empty()
    }));
}

proof fn lemma_asleep_action(c: Connector)
    requires
        on_asleep_path(c),
    ensures
        0 <= asleep_position(c) < asleep_script(c.opts.spec_rounds()).len(),
        c.spec_action() == asleep_script(c.opts.spec_rounds())[asleep_position(c)],
{
    let pos = asleep_position(c);
    let f = c.failures as int;
    if c.phase is BackingOff {
        assert(pos == 3 * f + 1);
        assert((3 * f + 1) % 3 == 1) by (nonlinear_arith)
            requires
                f >= 1,
        ;
        assert((3 * f + 1 - 4) / 3 == f - 1) by (nonlinear_arith)
            requires
                f >= 1,
        ;
    } else if c.phase is Retrying {
        assert(pos == 3 * f + 3);
        assert((3 * f + 3) % 3 == 0) by (nonlinear_arith)
            requires
                f >= 0,
        ;
    } else if c.phase is Waking && f > 0 {
        assert(pos == 3 * f + 2);
        assert((3 * f + 2) % 3 == 2) by (nonlinear_arith)
            requires
                f >= 1,
        ;
    }
}

proof fn lemma_asleep_run_is_script(c: Connector)
    requires
        on_asleep_path(c),
    ensures
        asleep_run(c) == asleep_script(c.opts.spec_rounds()).skip(asleep_position(c)),
    decreases c.budget(),
{
    let script = asleep_script(c.opts.spec_rounds());
    let pos = asleep_position(c);
    lemma_asleep_action(c);
    if c.phase is Done {
        assert(asleep_run(c) =~= script.skip(pos));
    } else {
        lemma_asleep_step(c);
        lemma_asleep_run_is_script(asleep_next(c));
        assert(seq![script[pos]] + script.skip(pos + 1) =~= script.skip(pos));
    }
}

/// How often the connector `c` has yet to try to connect while the host
/// stays asleep.
pub open spec fn asleep_connects(c: Connector) -> nat {
    match c.phase {
        Phase::Probing => c.opts.spec_rounds() + 1,
        Phase::Done(_) => 0,
        _ => (c.opts.spec_rounds() - c.failures) as nat,
    }
}

/// How many wake packets the connector `c` has yet to send while the host
/// stays asleep.
pub open spec fn asleep_wakes(c: Connector) -> nat {
    match c.phase {
        Phase::Probing | Phase::Waking | Phase::BackingOff => (c.opts.spec_rounds()
            - c.failures) as nat,
        Phase::Settling | Phase::Retrying => (c.opts.spec_rounds() - c.failures - 1) as nat,
        Phase::Done(_) => 0,
    }
}

proof fn lemma_count_cons(a: Action, rest: Seq<Action>, pred: spec_fn(Action) -> bool)
    ensures
        (seq![a] + rest).filter(pred).len() == (if pred(a) {
            1nat
        } else {
            0nat
        }) + rest.filter(pred).len(),
{
    lemma_filter_one(a, pred);
    Seq::filter_distributes_over_add(seq![a], rest, pred);
}

proof fn lemma_count_one(a: Action, pred: spec_fn(Action) -> bool)
    ensures
        seq![a].filter(pred).len() == (if pred(a) {
            1nat
        } else {
            0nat
        }),
{
    lemma_filter_one(a, pred);
}

proof fn lemma_asleep_counts_step(c: Connector)
    requires
        on_asleep_path(c),
        !(c.phase is Done),
    ensures
        asleep_connects(c) == (if c.spec_action() is Connect {
            1nat
        } else {
            0nat
        }) + asleep_connects(asleep_next(c)),
        asleep_wakes(c) == (if c.spec_action() is Wake {
            1nat
        } else {
            0nat
        }) + asleep_wakes(asleep_next(c)),
{
}

proof fn lemma_asleep_connects(c: Connector)
    requires
        on_asleep_path(c),
    ensures
        connects_in(asleep_run(c)) == asleep_connects(c),
    decreases c.budget(),
{
    let pred = |a: Action| a is Connect;
    if c.phase is Done {
        lemma_count_one(c.spec_action(), pred);
    } else {
        lemma_asleep_step(c);
        lemma_asleep_connects(asleep_next(c));
        lemma_count_cons(c.spec_action(), asleep_run(asleep_next(c)), pred);
        lemma_asleep_counts_step(c);
    }
}

proof fn lemma_asleep_wakes(c: Connector)
    requires
        on_asleep_path(c),
    ensures
        wakes_in(asleep_run(c)) == asleep_wakes(c),
    decreases c.budget(),
{
    let pred = |a: Action| a is Wake;
    if c.phase is Done {
        lemma_count_one(c.spec_action(), pred);
    } else {
        lemma_asleep_step(c);
        lemma_asleep_wakes(asleep_next(c));
        lemma_count_cons(c.spec_action(), asleep_run(asleep_next(c)), pred);
        lemma_asleep_counts_step(c);
    }
}

/// The numbers of the pauses before another round that the connector `c`
/// has yet to ask for while the host stays asleep.
pub open spec fn asleep_backoffs(c: Connector) -> Seq<u64> {
    match c.phase {
        Phase::BackingOff => Seq::new(
            (c.opts.spec_rounds() - c.failures) as nat,
            |k: int| (c.failures - 1 + k) as u64,
        ),
        Phase::Done(_) => Seq::empty(),
        _ => Seq::new(
            (c.opts.spec_rounds() - c.failures - 1) as nat,
            |k: int| (c.failures + k) as u64,
        ),
    }
}

proof fn lemma_backoffs_cons(a: Action, rest: Seq<Action>)
    ensures
        backoffs_in(seq![a] + rest) == (match a {
            Action::Pause(Pause::Backoff(k)) => seq![k] + backoffs_in(rest),
            _ => backoffs_in(rest),
        }),
{
    let pred = |a: Action| a is Pause && a->Pause_0 is Backoff;
    let number = |a: Action| a->Pause_0->Backoff_0;
    lemma_filter_one(a, pred);
    Seq::filter_distributes_over_add(seq![a], rest, pred);
    let head = seq![a].filter(pred);
    assert((head + rest.filter(pred)).map_values(number) =~= head.map_values(number)
        + rest.filter(pred).map_values(number));
    match a {
        Action::Pause(Pause::Backoff(k)) => {
            assert(head.map_values(number) =~= seq![k]);
        },
        _ => {
            assert(head.map_values(number) =~= Seq::<u64>::empty());
            assert(Seq::<u64>::empty() + backoffs_in(rest) =~= backoffs_in(rest));
        },
    }
}

proof fn lemma_asleep_backoffs_step(c: Connector)
    requires
        on_asleep_path(c),
        !(c.phase is Done),
    ensures
        asleep_backoffs(c) == (match c.spec_action() {
            Action::Pause(Pause::Backoff(k)) => seq![k] + asleep_backoffs(asleep_next(c)),
            _ => asleep_backoffs(asleep_next(c)),
        }),
{
    let next = asleep_next(c);
    match c.spec_action() {
        Action::Pause(Pause::Backoff(k)) => {
            assert(asleep_backoffs(c) =~= seq![k] + asleep_backoffs(next));
        },
        _ => {
            assert(asleep_backoffs(c) =~= asleep_backoffs(next));
        },
    }
}

proof fn lemma_asleep_backoffs(c: Connector)
    requires
        on_asleep_path(c),
    ensures
        backoffs_in(asleep_run(c)) == asleep_backoffs(c),
    decreases c.budget(),
{
    if c.phase is Done {
        lemma_backoffs_cons(c.spec_action(), Seq::empty());
        assert(seq![c.spec_action()] + Seq::<Action>::empty() =~= seq![c.spec_action()]);
        assert(backoffs_in(Seq::<Action>::empty()) =~= Seq::<u64>::empty()) by {
            reveal_with_fuel(Seq::filter, 2);
        }
    } else {
        lemma_asleep_step(c);
        lemma_asleep_backoffs(asleep_next(c));
        lemma_backoffs_cons(c.spec_action(), asleep_run(asleep_next(c)));
        lemma_asleep_backoffs_step(c);
    }
}

/// Against a host that stays asleep, an attempt with `max_attempts` of `n`
/// follows the script of `n` rounds to its end and is then exhausted. It
/// tries to connect `n + 1` times, once directly and once in each round, and
/// sends `n` wake packets, one in each round. Between the rounds lie `n - 1`
/// pauses, numbered from zero upwards without a gap, so that each is the
/// pause before it grown once more.
pub proof fn lemma_asleep_host_exhausts(target: SocketAddress, opts: ConnectOpts)
    ensures
        ({
            let start = Connector { target, opts, phase: Phase::Probing, failures: 0 };
            let run = asleep_run(start);
            let n = opts.spec_rounds();
            &&& run == asleep_script(n)
            &&& run.len() == 3 * n + 2
            &&& run.last() == Action::Finish(Outcome::Exhausted)
            &&& forall|i: int| 0 <= i < run.len() - 1 ==> !(#[trigger] run[i] is Finish)
            &&& connects_in(run) == n + 1
            &&& wakes_in(run) == n
            &&& backoffs_in(run) == Seq::new((n - 1) as nat, |k: int| k as u64)
        }),
{
    let start = Connector { target, opts, phase: Phase::Probing, failures: 0 };
    lemma_asleep_run_is_script(start);
    lemma_asleep_connects(start);
    lemma_asleep_wakes(start);
    lemma_asleep_backoffs(start);
    let n = opts.spec_rounds();
    assert(asleep_script(n).skip(0) =~= asleep_script(n));
    assert(backoffs_in(asleep_run(start)) =~= Seq::new((n - 1) as nat, |k: int| k as u64));
}

} // verus!
