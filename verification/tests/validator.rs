use tokio_fsm::ConfigError;
use tokio_fsm::Engine;
use tokio_fsm::FsmArgs;
use tokio_fsm::Rule;
use tokio_fsm::Table;
use tokio_fsm::Transition;
use tokio_fsm::default_channel_size;

#[test]
fn validator_accepts_connected_table() {
    let mut t = Table::new(FsmArgs::new(0));
    t.add_rule(Rule::new(0, 10, 1));
    t.add_rule(Rule::new(1, 11, 2));
    t.add_rule(Rule::new(2, 12, 0));
    assert!(t.validate().is_ok());
}

#[test]
fn validator_accepts_single_state_table() {
    let t = Table::new(FsmArgs::new(5));
    assert!(t.validate().is_ok());
}

#[test]
fn validator_names_unreachable_state() {
    let mut t = Table::new(FsmArgs::new(0));
    t.add_rule(Rule::new(0, 10, 1));
    // State 7 has an outgoing edge but nothing ever reaches it.
    t.add_rule(Rule::new(7, 12, 0));
    match t.validate() {
        Err(ConfigError::UnreachableState(s)) => assert_eq!(s, 7),
        Ok(_) => panic!("expected state 7 to be reported unreachable"),
    }
}

#[test]
fn validator_rejects_island_pair() {
    let mut t = Table::new(FsmArgs::new(0));
    t.add_rule(Rule::new(0, 10, 1));
    // States 8 and 9 only reach each other.
    t.add_rule(Rule::new(8, 11, 9));
    t.add_rule(Rule::new(9, 11, 8));
    assert!(t.validate().is_err());
}

#[test]
fn wildcard_timeout_edge_makes_target_reachable() {
    let mut t = Table::new(FsmArgs::new(0));
    t.add_rule(Rule::new(0, 10, 1));
    // The timeout handler's target is entered from any state by the
    // wildcard edge, so it is always reachable.
    t.set_timeout_handler(9);
    assert!(t.validate().is_ok());
}

#[test]
fn default_args_use_default_channel_size() {
    assert_eq!(default_channel_size(), 100);
    let args = FsmArgs::new(3);
    assert_eq!(args.initial, 3);
    assert_eq!(args.channel_size, 100);
}

#[test]
fn earliest_matching_rule_wins() {
    let mut t = Table::new(FsmArgs::new(0));
    t.add_rule(Rule::new(0, 10, 1));
    t.add_rule(Rule::new(0, 10, 2));
    let mut engine = Engine::new(t.validate().unwrap());
    let rule = engine.lookup(10).unwrap();
    assert_eq!(rule, 0);
    engine.adopt(rule, Transition::to(1));
    assert_eq!(engine.current_state(), 1);
}
