use tokio_fsm::Duration;
use tokio_fsm::Engine;
use tokio_fsm::Event;
use tokio_fsm::FsmArgs;
use tokio_fsm::Handlers;
use tokio_fsm::Rule;
use tokio_fsm::ShutdownAction;
use tokio_fsm::ShutdownMode;
use tokio_fsm::Step;
use tokio_fsm::Table;
use tokio_fsm::TimerCmd;
use tokio_fsm::Transition;
use tokio_fsm::ValidTable;

const IDLE: u64 = 0;
const PENDING: u64 = 1;
const ACTIVE: u64 = 2;
const DONE: u64 = 3;
const FAILED: u64 = 4;

const START: u64 = 10;
const PROCESS: u64 = 11;
const FINISH: u64 = 12;
const BREAK: u64 = 13;

struct TestContext {
    transition_count: usize,
    job_data: Vec<String>,
}

impl TestContext {
    fn new() -> TestContext {
        TestContext {
            transition_count: 0,
            job_data: Vec::new(),
        }
    }
}

struct TestHandlers;

impl Handlers<TestContext, String> for TestHandlers {
    fn on_event(
        &mut self,
        context: &mut TestContext,
        state: u64,
        event: Event<String>,
    ) -> Transition<u64> {
        context.transition_count += 1;
        match (state, event.tag) {
            (IDLE, START) => Transition::to(PENDING),
            (PENDING, PROCESS) | (ACTIVE, PROCESS) => {
                context.job_data.push(event.payload);
                Transition::to(ACTIVE)
            }
            (ACTIVE, FINISH) => Transition::to(DONE),
            (ACTIVE, BREAK) => Transition::to_with_data(FAILED, "broke".to_string()),
            _ => panic!("dispatched an event no rule declares"),
        }
    }

    fn on_timeout(&mut self, context: &mut TestContext) -> Transition<u64> {
        context.transition_count += 1;
        Transition::to(FAILED)
    }
}

fn integration_table() -> ValidTable {
    let mut t = Table::new(FsmArgs {
        initial: IDLE,
        channel_size: 32,
    });
    let timeout = tokio_fsm::parse_duration("100ms").unwrap();
    t.add_rule(Rule::with_timeout(IDLE, START, PENDING, timeout));
    t.add_rule(Rule::with_timeout(PENDING, PROCESS, ACTIVE, timeout));
    t.add_rule(Rule::with_timeout(ACTIVE, PROCESS, ACTIVE, timeout));
    t.add_rule(Rule::new(ACTIVE, FINISH, DONE));
    t.add_rule(Rule::with_timeout(ACTIVE, BREAK, FAILED, timeout));
    t.set_timeout_handler(FAILED);
    t.validate().unwrap()
}

fn ev(tag: u64) -> Event<String> {
    Event::new(tag, String::new())
}

fn ev_with(tag: u64, payload: &str) -> Event<String> {
    Event::new(tag, payload.to_string())
}

#[test]
fn engine_full_lifecycle() {
    let mut engine = Engine::new(integration_table());
    let mut context = TestContext::new();
    let mut handlers = TestHandlers;

    assert_eq!(engine.current_state(), IDLE);

    let step = engine.process_event(&mut context, ev(START), &mut handlers);
    assert_eq!(step, Step::Handled);
    assert_eq!(engine.current_state(), PENDING);

    let step = engine.process_event(&mut context, ev_with(PROCESS, "task1"), &mut handlers);
    assert_eq!(step, Step::Handled);
    assert_eq!(engine.current_state(), ACTIVE);

    let step = engine.process_event(&mut context, ev(FINISH), &mut handlers);
    assert_eq!(step, Step::Handled);
    assert_eq!(engine.current_state(), DONE);

    engine.request_shutdown(ShutdownMode::Graceful);
    assert_eq!(engine.shutdown_action(), ShutdownAction::DrainThenStop);

    assert_eq!(context.transition_count, 3);
    assert_eq!(context.job_data, vec!["task1"]);
}

#[test]
fn unmatched_event_is_ignored_silently() {
    let mut engine = Engine::new(integration_table());
    let mut context = TestContext::new();
    let mut handlers = TestHandlers;

    // No rule handles FINISH in IDLE: the event is dropped, nothing changes,
    // and no error is reported.
    let step = engine.process_event(&mut context, ev(FINISH), &mut handlers);
    assert_eq!(step, Step::Ignored);
    assert_eq!(engine.current_state(), IDLE);
    assert_eq!(context.transition_count, 0);
    assert!(context.job_data.is_empty());

    // The machine still works afterwards.
    let step = engine.process_event(&mut context, ev(START), &mut handlers);
    assert_eq!(step, Step::Handled);
    assert_eq!(engine.current_state(), PENDING);
}

#[test]
fn graceful_drain_processes_all_queued_events() {
    let mut engine = Engine::new(integration_table());
    let mut context = TestContext::new();
    let mut handlers = TestHandlers;

    // Events A then B are queued, then a graceful shutdown is requested:
    // the final context must reflect both.
    let queued = vec![ev(START), ev_with(PROCESS, "queued")];
    engine.request_shutdown(ShutdownMode::Graceful);
    match engine.shutdown_action() {
        ShutdownAction::DrainThenStop => {
            engine.drain(&mut context, queued, &mut handlers);
        }
        other => panic!("expected a draining stop, got {:?}", other),
    }
    assert_eq!(context.transition_count, 2);
    assert_eq!(context.job_data, vec!["queued"]);
    assert_eq!(engine.current_state(), ACTIVE);
}

#[test]
fn immediate_shutdown_processes_nothing() {
    let mut engine = Engine::new(integration_table());
    let context = TestContext::new();

    // The same queue under an immediate shutdown: the host stops at once
    // and no queued event reaches a handler.
    engine.request_shutdown(ShutdownMode::Immediate);
    assert_eq!(engine.shutdown_action(), ShutdownAction::StopNow);
    assert_eq!(context.transition_count, 0);
    assert!(context.job_data.is_empty());
    assert_eq!(engine.current_state(), IDLE);
}

#[test]
fn shutdown_is_set_once() {
    let mut engine = Engine::new(integration_table());

    engine.request_shutdown(ShutdownMode::Graceful);
    assert_eq!(engine.shutdown_action(), ShutdownAction::DrainThenStop);

    // A second request of either mode changes nothing.
    engine.request_shutdown(ShutdownMode::Graceful);
    assert_eq!(engine.shutdown_action(), ShutdownAction::DrainThenStop);
    engine.request_shutdown(ShutdownMode::Immediate);
    assert_eq!(engine.shutdown_action(), ShutdownAction::DrainThenStop);
}

#[test]
fn timeout_arms_fires_and_disarms() {
    let mut engine = Engine::new(integration_table());
    let mut context = TestContext::new();
    let mut handlers = TestHandlers;

    assert_eq!(engine.armed_timeout(), None);

    // Entering PENDING through the START rule arms its 100ms timeout.
    engine.process_event(&mut context, ev(START), &mut handlers);
    assert_eq!(engine.armed_timeout(), Some(Duration::from_millis(100)));

    // Expiry dispatches the wildcard timeout handler: the machine moves to
    // FAILED and the timer is disarmed.
    let step =
        engine.on_timer_expired::<TestContext, String, TestHandlers>(&mut context, &mut handlers);
    assert_eq!(step, Step::Handled);
    assert_eq!(engine.current_state(), FAILED);
    assert_eq!(engine.armed_timeout(), None);
    assert_eq!(context.transition_count, 2);
}

#[test]
fn expiry_without_handler_preserves_state() {
    let mut t = Table::new(FsmArgs::new(IDLE));
    t.add_rule(Rule::with_timeout(IDLE, START, IDLE, Duration::from_millis(50)));
    let mut engine = Engine::new(t.validate().unwrap());
    let mut context = TestContext::new();
    let mut handlers = TestHandlers;

    let step =
        engine.on_timer_expired::<TestContext, String, TestHandlers>(&mut context, &mut handlers);
    assert_eq!(step, Step::Ignored);
    assert_eq!(engine.current_state(), IDLE);
    assert_eq!(context.transition_count, 0);
}

#[test]
fn error_transition_disarms_the_timer() {
    let mut engine = Engine::new(integration_table());
    let mut context = TestContext::new();
    let mut handlers = TestHandlers;

    engine.process_event(&mut context, ev(START), &mut handlers);
    engine.process_event(&mut context, ev_with(PROCESS, "x"), &mut handlers);
    assert_eq!(engine.armed_timeout(), Some(Duration::from_millis(100)));

    // The BREAK handler reports a transition-with-error: the machine adopts
    // the target state, records the payload alongside it, keeps running,
    // and the timer is disarmed even though the rule declares a timeout.
    let step = engine.process_event(&mut context, ev(BREAK), &mut handlers);
    assert_eq!(step, Step::Handled);
    assert_eq!(engine.current_state(), FAILED);
    assert_eq!(engine.armed_timeout(), None);
    assert_eq!(engine.last_error(), &Some("broke".to_string()));

    // A later clean transition clears the recorded payload.
    let step = engine.on_timer_expired::<TestContext, String, TestHandlers>(
        &mut context,
        &mut handlers,
    );
    assert_eq!(step, Step::Handled);
    assert_eq!(engine.last_error(), &None);
}

#[test]
fn timer_reuse_over_ten_thousand_transitions() {
    let mut engine = Engine::new(integration_table());
    let mut context = TestContext::new();
    let mut handlers = TestHandlers;

    engine.process_event(&mut context, ev(START), &mut handlers);
    engine.process_event(&mut context, ev_with(PROCESS, "first"), &mut handlers);
    let first_timer = engine.armed_timeout();
    let first_state = engine.current_state();

    // Re-entering the timed state ten thousand times arms exactly the same
    // timer programme as the first entry did.
    for _ in 0..10_000 {
        let step = engine.process_event(&mut context, ev_with(PROCESS, "again"), &mut handlers);
        assert_eq!(step, Step::Handled);
        assert_eq!(engine.current_state(), first_state);
        assert_eq!(engine.armed_timeout(), first_timer);
    }
    assert_eq!(context.transition_count, 2 + 10_000);
}

#[test]
fn adopt_returns_the_timer_command() {
    let mut engine = Engine::new(integration_table());

    // The host path: look the rule up, then adopt the handler's outcome.
    let rule = engine.lookup(START).expect("START is handled in IDLE");
    let cmd = engine.adopt(rule, Transition::to(PENDING));
    assert_eq!(cmd, TimerCmd::Arm(Duration::from_millis(100)));
    assert_eq!(engine.current_state(), PENDING);

    let rule = engine.lookup(PROCESS).expect("PROCESS is handled in PENDING");
    let cmd = engine.adopt(rule, Transition::to_with_data(ACTIVE, "oops".to_string()));
    assert_eq!(cmd, TimerCmd::Disarm);
    assert_eq!(engine.current_state(), ACTIVE);
}

#[test]
fn lookup_is_state_gated() {
    let engine = Engine::new(integration_table());
    assert!(engine.lookup(START).is_some());
    assert!(engine.lookup(PROCESS).is_none());
    assert!(engine.lookup(FINISH).is_none());
    assert!(engine.lookup(99).is_none());
}

#[test]
fn published_state_reads_are_stable() {
    let mut engine = Engine::new(integration_table());
    let mut context = TestContext::new();
    let mut handlers = TestHandlers;

    // Every observer reads the one published value: two reads with no
    // transition in between agree, before and after a transition.
    assert_eq!(engine.current_state(), engine.current_state());
    engine.process_event(&mut context, ev(START), &mut handlers);
    assert_eq!(engine.current_state(), engine.current_state());
    assert_eq!(engine.current_state(), PENDING);
}
