use scan2blob::gate::{ConfigGate, Gate, Gates};

fn test_gate(default_open: bool) -> Gate {
    let cfg = ConfigGate {
        default_open,
        timed_assertion_lifetime: 3600,
        name_hint_lifetime: 600,
    };
    Gate::new("scanner", &cfg)
}

const SEC: u64 = 1000;

#[test]
fn timed_assertion_with_hint_transitions() {
    // default_open=false, timed_lifetime=3600, hint_lifetime=600.
    let mut gate = test_gate(false);
    assert_eq!(gate.get_current_state(0), None);
    gate.assert_gate_open_timed_with_name_hint(0, Some("jane".to_string()));
    assert_eq!(gate.get_current_state(500 * SEC), Some(Some("jane".to_string())));
    assert_eq!(gate.get_current_state(700 * SEC), Some(None));
    assert_eq!(gate.get_current_state(3700 * SEC), None);
}

#[test]
fn guarded_hint_lifecycle() {
    let mut gate = test_gate(false);
    let guard = gate.assert_gate_open_guarded_with_name_hint(0, Some("k".to_string()));
    assert_eq!(gate.get_current_state(0), Some(Some("k".to_string())));
    gate.drop_guard(guard);
    assert_eq!(gate.get_current_state(0), None);
    assert!(gate.inner.name_hint.is_none());
}

#[test]
fn closed_gate_stays_closed_even_with_default_open() {
    let mut gate = test_gate(true);
    assert_eq!(gate.get_current_state(0), Some(None));
    gate.assert_gate_closed();
    assert_eq!(gate.get_current_state(0), None);
    assert_eq!(gate.get_current_state(1_000_000_000), None);
}

#[test]
fn open_assertion_restores_the_default_sentinel() {
    // Re-opening after an explicit close resets the sentinel to the
    // configured default, so a default-open gate stays open even after the
    // timed assertion expires.
    let mut gate = test_gate(true);
    gate.assert_gate_closed();
    assert_eq!(gate.get_current_state(0), None);
    gate.assert_gate_open_timed(0);
    assert_eq!(gate.get_current_state(10_000_000 * SEC), Some(None));
}

#[test]
fn dropping_an_unrelated_guard_keeps_the_hint() {
    let mut gate = test_gate(false);
    let first = gate.assert_gate_open_guarded();
    let second = gate.assert_gate_open_guarded_with_name_hint(0, Some("keep".to_string()));
    gate.drop_guard(first);
    assert_eq!(gate.get_current_state(0), Some(Some("keep".to_string())));
    gate.drop_guard(second);
    assert_eq!(gate.get_current_state(0), None);
}

#[test]
fn guard_drop_after_close_is_a_no_op() {
    let mut gate = test_gate(false);
    let guard = gate.assert_gate_open_guarded();
    gate.assert_gate_closed();
    assert_eq!(gate.get_current_state(0), None);
    gate.drop_guard(guard);
    assert_eq!(gate.get_current_state(0), None);
}

#[test]
fn extended_state_reports_residual_times() {
    let mut gate = test_gate(false);
    gate.assert_gate_open_timed_with_name_hint(0, Some("jane".to_string()));
    let (state, next_change) = gate.get_current_state_extended(100 * SEC);
    assert_eq!(state, Some(Some("jane".to_string())));
    // The hint dies before the timed assertion: 600s - 100s.
    assert_eq!(next_change, Some(500 * SEC));
    let (state, next_change) = gate.get_current_state_extended(1000 * SEC);
    assert_eq!(state, Some(None));
    assert_eq!(next_change, Some(2600 * SEC));
}

#[test]
fn extended_state_with_guard_has_no_deadline() {
    let mut gate = test_gate(false);
    let _guard = gate.assert_gate_open_guarded();
    let (state, next_change) = gate.get_current_state_extended(0);
    assert_eq!(state, Some(None));
    assert_eq!(next_change, None);
}

#[test]
fn gates_are_looked_up_by_name() {
    let configs = vec![
        (
            "front".to_string(),
            ConfigGate { default_open: false, timed_assertion_lifetime: 10, name_hint_lifetime: 5 },
        ),
        (
            "back".to_string(),
            ConfigGate { default_open: true, timed_assertion_lifetime: 20, name_hint_lifetime: 9 },
        ),
    ];
    let gates = Gates::new(&configs).unwrap();
    assert!(gates.get("front").is_some());
    assert!(gates.get("back").is_some());
    assert!(gates.get("side").is_none());
    assert!(gates.get("back").unwrap().default_open);
    assert_eq!(gates.find("back"), Some(1));
}

#[test]
fn duplicate_gate_names_are_refused() {
    let cfg = ConfigGate { default_open: false, timed_assertion_lifetime: 10, name_hint_lifetime: 5 };
    let configs = vec![
        ("same".to_string(), cfg.clone()),
        ("same".to_string(), cfg),
    ];
    assert!(Gates::new(&configs).is_err());
}

#[test]
fn timed_assertion_overwrites_the_previous_deadline() {
    let mut gate = test_gate(false);
    gate.assert_gate_open_timed(0);
    gate.assert_gate_open_timed(1000 * SEC);
    // Open until 1000s + 3600s.
    assert_eq!(gate.get_current_state(4000 * SEC), Some(None));
    assert_eq!(gate.get_current_state(4700 * SEC), None);
}

#[test]
fn gate_defaults_match_the_documentation() {
    assert_eq!(scan2blob::gate::default_default_open(), false);
    assert_eq!(scan2blob::gate::default_timed_assertion_lifetime(), 3600);
    assert_eq!(scan2blob::gate::default_name_hint_lifetime(), 600);
}
