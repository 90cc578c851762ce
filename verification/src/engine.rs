//! The deterministic engine kernel.
//!
//! One engine drives one validated table. Per event it looks up the earliest
//! matching rule for the current (state, event tag) pair, has the handler
//! invoked, and adopts the transition the handler returns: it enters the
//! target state, publishes it, and arms the rule's timeout or disarms the
//! single per-instance timer. Events with no matching rule are ignored and
//! change nothing. The shutdown signal is set once; the first mode wins.
//!
//! The kernel is synchronous: an asynchronous host owns the queue, the clock
//! and the shutdown wires, and consults the kernel for every decision. Two
//! ghost histories record its behaviour: `seen`, the tags of all events
//! considered, and `log`, every state published since the start.

use vstd::prelude::*;

use crate::duration::Duration;
use crate::table::Rule;
use crate::table::Table;
use crate::table::ValidTable;
use crate::transition::ShutdownMode;
use crate::transition::Transition;

verus! {

/// An event submitted to a machine: a tag selecting the handler, and a
/// payload handed to that handler.
#[derive(Debug, Clone)]
pub struct Event<P> {
    /// The tag the transition rules dispatch on.
    pub tag: u64,
    /// The payload the matching handler receives.
    pub payload: P,
}

impl<P> Event<P> {
    /// An event with the given tag and payload.
    pub fn new(tag: u64, payload: P) -> (e: Event<P>)
        ensures
            e.tag == tag,
            e.payload == payload,
    {
        Event { tag, payload }
    }
}

/// The handler dispatch of a machine, implemented by its user.
///
/// A handler runs with exclusive access to the context — the engine is not
/// reentrant during the call — and reports the transition to adopt. Nothing
/// is assumed of what a handler returns: the engine's contracts hold for
/// every outcome.
pub trait Handlers<C, P> {
    /// Handle `event`, which matched a rule in `state`.
    fn on_event(&mut self, context: &mut C, state: u64, event: Event<P>) -> Transition<u64>;

    /// Handle expiry of the state timeout; there is no event payload.
    fn on_timeout(&mut self, context: &mut C) -> Transition<u64>;
}

/// What the host clock must do after a transition: arm the single reusable
/// timer for a new deadline, or disarm it. The engine never asks for a
/// second timer.
#[derive(Debug, Clone, Copy, PartialEq, Eq, Structural)]
pub enum TimerCmd {
    /// Arm the timer to expire after the given span.
    Arm(Duration),
    /// Disarm the timer.
    Disarm,
}

/// Whether an event found a handler or was ignored.
#[derive(Debug, Clone, Copy, PartialEq, Eq, Structural)]
pub enum Step {
    /// A rule matched and its handler's transition was adopted.
    Handled,
    /// No rule matched; the event was dropped and nothing changed.
    Ignored,
}

/// What the host loop must do after observing the shutdown signal.
#[derive(Debug, Clone, Copy, PartialEq, Eq, Structural)]
pub enum ShutdownAction {
    /// No shutdown has been requested: keep serving events.
    Continue,
    /// Graceful shutdown: dispatch the events already queued, then stop.
    DrainThenStop,
    /// Immediate shutdown: stop now, abandoning queued events.
    StopNow,
}

/// The ghost image of an engine: its table, current state, shutdown signal,
/// timer programme, and the two histories — the tags of every event
/// considered and every state published.
pub ghost struct EngineView {
    /// The validated table driving the engine.
    pub table: Table,
    /// The current state.
    pub state: u64,
    /// The shutdown signal: `None` until a mode is set, then the first mode.
    pub shutdown: Option<ShutdownMode>,
    /// The timer programme: the armed timeout, or `None` when disarmed.
    pub timer: Option<Duration>,
    /// The error payload recorded alongside the current state: the data the
    /// latest adopted transition carried, or `None` after a clean one.
    pub error: Option<String>,
    /// The tags of every event considered so far, in order.
    pub seen: Seq<u64>,
    /// Every state published so far, the initial state first.
    pub log: Seq<u64>,
}

/// The rule the engine dispatches on, searching from position `i`: the
/// earliest rule whose source state and event tag both match.
pub open spec fn lookup_from(rules: Seq<Rule>, i: int, state: u64, tag: u64) -> Option<int>
    decreases rules.len() - i,
{
    if i < 0 || i >= rules.len() {
        None
    } else if rules[i].source == state && rules[i].event == tag {
        Some(i)
    } else {
        lookup_from(rules, i + 1, state, tag)
    }
}

/// The rule the engine dispatches on for `tag` in `state`, if any.
pub open spec fn spec_lookup(t: Table, state: u64, tag: u64) -> Option<int> {
    lookup_from(t.rules@, 0, state, tag)
}

/// The timer programme after adopting `outcome` through rule `i`: the rule's
/// timeout when the transition reports no error, disarmed otherwise.
pub open spec fn timer_after(t: Table, i: int, outcome: Transition<u64>) -> Option<Duration> {
    if outcome.spec_has_error() {
        None
    } else {
        t.rules@[i].timeout
    }
}

/// The shutdown signal after a request: set once, the first mode wins.
pub open spec fn shutdown_after(
    prev: Option<ShutdownMode>,
    mode: ShutdownMode,
) -> Option<ShutdownMode> {
    if prev is None {
        Some(mode)
    } else {
        prev
    }
}

/// The engine after adopting `outcome` through rule `i`: it enters and
/// publishes the outcome's state and reprogrammes the timer; table, shutdown
/// signal and event history are untouched.
pub open spec fn adopted(v: EngineView, i: int, outcome: Transition<u64>) -> EngineView {
    EngineView {
        state: outcome.spec_state(),
        timer: timer_after(v.table, i, outcome),
        error: outcome.spec_error(),
        log: v.log.push(outcome.spec_state()),
        ..v
    }
}

/// One dispatch step, exactly as in steady state: considering an event with
/// tag `tag` takes the engine from `pre` to `post`. The tag is recorded in
/// the event history; when no rule matches the (state, tag) pair nothing
/// else changes, and when the earliest matching rule is `i`, some handler
/// transition is adopted through it — entered, published, and the timer
/// reprogrammed per the rule.
pub open spec fn dispatch_step(pre: EngineView, tag: u64, post: EngineView) -> bool {
    &&& post.table == pre.table
    &&& post.shutdown == pre.shutdown
    &&& post.seen == pre.seen.push(tag)
    &&& match spec_lookup(pre.table, pre.state, tag) {
        None => {
            &&& post.state == pre.state
            &&& post.timer == pre.timer
            &&& post.error == pre.error
            &&& post.log == pre.log
        },
        Some(i) => exists|tr: Transition<u64>|
            {
                &&& post.state == #[trigger] tr.spec_state()
                &&& post.timer == timer_after(pre.table, i, tr)
                &&& post.error == tr.spec_error()
                &&& post.log == pre.log.push(tr.spec_state())
            },
    }
}

/// The drain relation: `post` arises from `pre` by dispatching every one of
/// `tags`, in order, each exactly as in steady state.
pub open spec fn dispatched(pre: EngineView, tags: Seq<u64>, post: EngineView) -> bool
    decreases tags.len(),
{
    if tags.len() == 0 {
        post == pre
    } else {
        exists|mid: EngineView|
            #[trigger] dispatch_step(pre, tags[0], mid) && dispatched(mid, tags.drop_first(), post)
    }
}

/// Dispatch steps compose: a dispatched run extended by one further step is
/// a dispatched run of the extended tag sequence.
proof fn lemma_dispatched_snoc(
    pre: EngineView,
    tags: Seq<u64>,
    mid: EngineView,
    tag: u64,
    post: EngineView,
)
    requires
        dispatched(pre, tags, mid),
        dispatch_step(mid, tag, post),
    ensures
        dispatched(pre, tags.push(tag), post),
    decreases tags.len(),
{
    if tags.len() == 0 {
        assert(mid == pre);
        assert(tags.push(tag)[0] == tag);
        assert(tags.push(tag).drop_first() =~= Seq::<u64>::empty());
        assert(dispatch_step(pre, tags.push(tag)[0], post) && dispatched(
            post,
            tags.push(tag).drop_first(),
            post,
        ));
    } else {
        let m1 = choose|m: EngineView|
            #[trigger] dispatch_step(pre, tags[0], m) && dispatched(m, tags.drop_first(), mid);
        lemma_dispatched_snoc(m1, tags.drop_first(), mid, tag, post);
        assert(tags.push(tag)[0] == tags[0]);
        assert(tags.push(tag).drop_first() =~= tags.drop_first().push(tag));
        assert(dispatch_step(pre, tags.push(tag)[0], m1) && dispatched(
            m1,
            tags.push(tag).drop_first(),
            post,
        ));
    }
}

/// Characterisation of the dispatch order: the rule found is the earliest
/// match, and `None` means no rule matches at all.
pub proof fn lemma_lookup_props(rules: Seq<Rule>, i: int, state: u64, tag: u64)
    requires
        0 <= i <= rules.len(),
    ensures
        match lookup_from(rules, i, state, tag) {
            Some(j) => i <= j < rules.len() && rules[j].source == state && rules[j].event == tag
                && forall|k: int|
                i <= k < j ==> !((#[trigger] rules[k]).source == state && rules[k].event == tag),
            None => forall|k: int|
                i <= k < rules.len() ==> !((#[trigger] rules[k]).source == state && rules[k].event
                    == tag),
        },
    decreases rules.len() - i,
{
    if i < rules.len() {
        if !(rules[i].source == state && rules[i].event == tag) {
            lemma_lookup_props(rules, i + 1, state, tag);
        }
    }
}

/// Requesting a shutdown mode is idempotent and set-once: after a first
/// request, a second request — of the same or of the other mode — changes
/// nothing.
pub proof fn lemma_shutdown_set_once(
    prev: Option<ShutdownMode>,
    first: ShutdownMode,
    second: ShutdownMode,
)
    ensures
        shutdown_after(shutdown_after(prev, first), second) == shutdown_after(prev, first),
{
}

/// What a transition does to the machine — the state entered and the timer
/// programme — depends only on the table, the matched rule and the handler's
/// outcome, never on how many transitions came before: the ten-thousandth
/// visit to a timed state arms exactly the timer the first one armed.
pub proof fn lemma_adoption_history_free(
    a: EngineView,
    b: EngineView,
    i: int,
    outcome: Transition<u64>,
)
    requires
        a.table == b.table,
    ensures
        adopted(a, i, outcome).state == adopted(b, i, outcome).state,
        adopted(a, i, outcome).timer == adopted(b, i, outcome).timer,
{
}

/// Adoption publishes exactly the state it enters: after a transition the
/// published log ends in the new current state, so an observer reading the
/// latest published state sees the handler's target.
pub proof fn lemma_adoption_publishes(v: EngineView, i: int, outcome: Transition<u64>)
    ensures
        adopted(v, i, outcome).log.last() == adopted(v, i, outcome).state,
        adopted(v, i, outcome).log == v.log.push(adopted(v, i, outcome).state),
{
}

/// One running machine: a validated table, the live state, the set-once
/// shutdown signal, the single timer programme, and the ghost histories.
pub struct Engine {
    table: ValidTable,
    state: u64,
    shutdown: Option<ShutdownMode>,
    timer: Option<Duration>,
    error: Option<String>,
    seen: Ghost<Seq<u64>>,
    log: Ghost<Seq<u64>>,
}

impl View for Engine {
    type V = EngineView;

    closed spec fn view(&self) -> EngineView {
        EngineView {
            table: self.table@,
            state: self.state,
            shutdown: self.shutdown,
            timer: self.timer,
            error: self.error,
            seen: self.seen@,
            log: self.log@,
        }
    }
}

impl Engine {
    /// A fresh engine for a validated table: it starts in the initial state,
    /// which is also the first published state, with no shutdown requested
    /// and the timer disarmed.
    pub fn new(table: ValidTable) -> (e: Engine)
        ensures
            e@.table == table@,
            e@.state == table@.args.initial,
            e@.shutdown is None,
            e@.timer is None,
            e@.error is None,
            e@.seen == Seq::<u64>::empty(),
            e@.log == seq![table@.args.initial],
    {
        let initial = table.initial();
        let ghost log0 = seq![initial];
        Engine {
            table,
            state: initial,
            shutdown: None,
            timer: None,
            error: None,
            seen: Ghost(Seq::empty()),
            log: Ghost(log0),
        }
    }

    /// The latest published state. Never blocks; reading it twice with no
    /// transition in between reads the same value.
    pub fn current_state(&self) -> (s: u64)
        ensures
            s == self@.state,
    {
        self.state
    }

    /// Whether a wildcard timeout handler is registered.
    pub fn has_timeout_handler(&self) -> (b: bool)
        ensures
            b == (self@.table.timeout_target is Some),
    {
        match self.table.timeout_handler_target() {
            Some(_) => true,
            None => false,
        }
    }

    /// The timer programme currently in force: the armed timeout, or `None`
    /// when the timer is disarmed.
    pub fn armed_timeout(&self) -> (t: Option<Duration>)
        ensures
            t == self@.timer,
    {
        self.timer
    }

    /// The error payload recorded alongside the current state: the data the
    /// latest adopted transition carried. The machine keeps running after a
    /// transition-with-error; the payload is merely kept for observation.
    pub fn last_error(&self) -> (e: &Option<String>)
        ensures
            *e == self@.error,
    {
        &self.error
    }

    /// The rule to dispatch `tag` on in the current state: the earliest rule
    /// matching the pair, or `None` when the event is to be ignored.
    pub fn lookup(&self, tag: u64) -> (r: Option<usize>)
        ensures
            match spec_lookup(self@.table, self@.state, tag) {
                Some(i) => r matches Some(ri) && ri as int == i,
                None => r is None,
            },
    {
        let n = self.table.rules_len();
        let mut k: usize = 0;
        while k < n
            invariant
                0 <= k <= n == self@.table.rules@.len(),
                lookup_from(self@.table.rules@, 0, self@.state, tag) == lookup_from(
                    self@.table.rules@,
                    k as int,
                    self@.state,
                    tag,
                ),
            decreases n - k,
        {
            let r = self.table.rule_at(k);
            if r.source == self.state && r.event == tag {
                return Some(k);
            }
            k = k + 1;
        }
        None
    }

    /// Record that a shutdown of the given mode was requested. The signal is
    /// set once: the first request decides the mode, later requests change
    /// nothing.
    pub fn request_shutdown(&mut self, mode: ShutdownMode)
        ensures
            final(self)@ == (EngineView {
                shutdown: shutdown_after(old(self)@.shutdown, mode),
                ..old(self)@
            }),
    {
        match self.shutdown {
            None => {
                self.shutdown = Some(mode);
            },
            Some(_) => {},
        }
    }

    /// What the host loop must do for the shutdown signal as currently set:
    /// keep running, drain the queue then stop, or stop at once.
    pub fn shutdown_action(&self) -> (a: ShutdownAction)
        ensures
            a == (match self@.shutdown {
                None => ShutdownAction::Continue,
                Some(ShutdownMode::Graceful) => ShutdownAction::DrainThenStop,
                Some(ShutdownMode::Immediate) => ShutdownAction::StopNow,
            }),
    {
        match self.shutdown {
            None => ShutdownAction::Continue,
            Some(ShutdownMode::Graceful) => ShutdownAction::DrainThenStop,
            Some(ShutdownMode::Immediate) => ShutdownAction::StopNow,
        }
    }

    /// Adopt the transition a handler returned for rule `rule`: enter its
    /// target state, publish it, and arm the rule's timeout — or disarm the
    /// timer when the transition carries an error. Returns what the host
    /// clock must do; the single timer is reprogrammed, never replaced.
    pub fn adopt(&mut self, rule: usize, outcome: Transition<u64>) -> (cmd: TimerCmd)
        requires
            rule < old(self)@.table.rules@.len(),
        ensures
            final(self)@ == adopted(old(self)@, rule as int, outcome),
            cmd == (match timer_after(old(self)@.table, rule as int, outcome) {
                Some(d) => TimerCmd::Arm(d),
                None => TimerCmd::Disarm,
            }),
    {
        let (target, err) = outcome.into_parts();
        let has_err = match &err {
            Some(_) => true,
            None => false,
        };
        self.state = target;
        self.error = err;
        self.log = Ghost(self.log@.push(target));
        let cmd = if has_err {
            TimerCmd::Disarm
        } else {
            match self.table.rule_at(rule).timeout {
                Some(d) => TimerCmd::Arm(d),
                None => TimerCmd::Disarm,
            }
        };
        self.timer = match cmd {
            TimerCmd::Arm(d) => Some(d),
            TimerCmd::Disarm => None,
        };
        cmd
    }

    /// Adopt the transition the wildcard timeout handler returned: enter and
    /// publish its target state, and disarm the timer.
    pub fn adopt_timeout(&mut self, outcome: Transition<u64>)
        ensures
            final(self)@ == (EngineView {
                state: outcome.spec_state(),
                timer: None::<Duration>,
                error: outcome.spec_error(),
                log: old(self)@.log.push(outcome.spec_state()),
                ..old(self)@
            }),
    {
        let (target, err) = outcome.into_parts();
        self.state = target;
        self.error = err;
        self.log = Ghost(self.log@.push(target));
        self.timer = None;
    }

    /// Consider one event: dispatch it to the handler of the earliest
    /// matching rule and adopt the returned transition, or — when no rule
    /// matches the current (state, event tag) pair — drop it silently:
    /// state, timer, published log and context are left exactly as they
    /// were, and no error is reported.
    pub fn process_event<C, P, H: Handlers<C, P>>(
        &mut self,
        context: &mut C,
        event: Event<P>,
        handlers: &mut H,
    ) -> (r: Step)
        ensures
            dispatch_step(old(self)@, event.tag, final(self)@),
            r == (if spec_lookup(old(self)@.table, old(self)@.state, event.tag) is Some {
                Step::Handled
            } else {
                Step::Ignored
            }),
            spec_lookup(old(self)@.table, old(self)@.state, event.tag) is None ==> *final(context)
                == *old(context),
    {
        let tag = event.tag;
        self.seen = Ghost(self.seen@.push(tag));
        match self.lookup(tag) {
            Some(rule) => {
                proof {
                    lemma_lookup_props(self@.table.rules@, 0, self@.state, tag);
                }
                let state = self.state;
                let tr = handlers.on_event(context, state, event);
                let ghost mid = self@;
                let _ = self.adopt(rule, tr);
                proof {
                    assert(self@ == adopted(mid, rule as int, tr));
                }
                Step::Handled
            },
            None => Step::Ignored,
        }
    }

    /// Consider expiry of the state timeout: dispatch to the wildcard
    /// timeout handler when one is registered — its transition is adopted
    /// and the timer disarmed — and preserve the state untouched when none
    /// is.
    pub fn on_timer_expired<C, P, H: Handlers<C, P>>(
        &mut self,
        context: &mut C,
        handlers: &mut H,
    ) -> (r: Step)
        ensures
            final(self)@.table == old(self)@.table,
            final(self)@.shutdown == old(self)@.shutdown,
            final(self)@.seen == old(self)@.seen,
            match old(self)@.table.timeout_target {
                None => {
                    &&& r == Step::Ignored
                    &&& final(self)@.state == old(self)@.state
                    &&& final(self)@.timer == old(self)@.timer
                    &&& final(self)@.error == old(self)@.error
                    &&& final(self)@.log == old(self)@.log
                    &&& *final(context) == *old(context)
                },
                Some(_) => {
                    &&& r == Step::Handled
                    &&& final(self)@.timer is None
                    &&& exists|tr: Transition<u64>|
                        {
                            &&& final(self)@.state == #[trigger] tr.spec_state()
                            &&& final(self)@.error == tr.spec_error()
                            &&& final(self)@.log == old(self)@.log.push(tr.spec_state())
                        }
                },
            },
    {
        match self.table.timeout_handler_target() {
            Some(_) => {
                let tr = handlers.on_timeout(context);
                self.adopt_timeout(tr);
                Step::Handled
            },
            None => Step::Ignored,
        }
    }

    /// Dispatch, in order, every event of `queued`: the graceful-shutdown
    /// drain. Each queued event is dispatched exactly as in steady state —
    /// unmatched ones silently ignored, matched ones through the earliest
    /// matching rule — and the event history grows by precisely the queued
    /// tags. Nothing beyond the queue is waited for.
    pub fn drain<C, P, H: Handlers<C, P>>(
        &mut self,
        context: &mut C,
        queued: Vec<Event<P>>,
        handlers: &mut H,
    )
        ensures
            dispatched(old(self)@, queued@.map_values(|e: Event<P>| e.tag), final(self)@),
            final(self)@.table == old(self)@.table,
            final(self)@.shutdown == old(self)@.shutdown,
            final(self)@.seen == old(self)@.seen + queued@.map_values(|e: Event<P>| e.tag),
    {
        let ghost view0 = self@;
        let ghost seen0 = self@.seen;
        let ghost tags = queued@.map_values(|e: Event<P>| e.tag);
        let ghost table0 = self@.table;
        let ghost shutdown0 = self@.shutdown;
        let ghost mut done: Seq<u64> = Seq::empty();
        proof {
            assert(dispatched(view0, done, view0));
        }
        let mut queued = queued;
        while queued.len() > 0
            invariant
                self@.table == table0,
                self@.shutdown == shutdown0,
                seen0 + tags == self@.seen + queued@.map_values(|e: Event<P>| e.tag),
                done + queued@.map_values(|e: Event<P>| e.tag) == tags,
                dispatched(view0, done, self@),
            decreases queued@.len(),
        {
            let ghost qpre = queued@;
            let ghost seen_pre = self@.seen;
            let ghost cur = self@;
            let e = queued.remove(0);
            let ghost etag = e.tag;
            let _ = self.process_event(context, e, handlers);
            proof {
                assert(qpre.map_values(|ev: Event<P>| ev.tag)[0] == etag);
                assert(seen_pre.push(etag) + queued@.map_values(|ev: Event<P>| ev.tag) =~= seen_pre
                    + qpre.map_values(|ev: Event<P>| ev.tag));
                assert(dispatch_step(cur, etag, self@));
                lemma_dispatched_snoc(view0, done, cur, etag, self@);
                done = done.push(etag);
                assert(queued@ =~= qpre.drop_first());
                assert(done + queued@.map_values(|ev: Event<P>| ev.tag) =~= tags);
            }
        }
        proof {
            assert(queued@.map_values(|e: Event<P>| e.tag) =~= Seq::<u64>::empty());
            assert(self@.seen =~= seen0 + tags);
            assert(done =~= tags);
        }
    }
}

} // verus!
