use chatproject::dispatcher::ServerState;
use chatproject::dispatcher::Target;

#[test]
fn broadcast_reaches_every_connection_once() {
    let mut state = ServerState::new();
    state.on_connect("a1").unwrap();
    state.on_connect("b2").unwrap();
    state.on_connect("c3").unwrap();
    let recips = state.recipients(&Target::All);
    assert_eq!(recips, vec!["a1".to_string(), "b2".to_string(), "c3".to_string()]);
}

#[test]
fn broadcast_except_skips_exactly_the_sender() {
    let mut state = ServerState::new();
    state.on_connect("a1").unwrap();
    state.on_connect("b2").unwrap();
    state.on_connect("c3").unwrap();
    let recips = state.recipients(&Target::Others("b2".to_string()));
    assert_eq!(recips, vec!["a1".to_string(), "c3".to_string()]);
}

#[test]
fn unicast_reaches_only_the_recipient() {
    let mut state = ServerState::new();
    state.on_connect("a1").unwrap();
    state.on_connect("b2").unwrap();
    let recips = state.recipients(&Target::One("b2".to_string()));
    assert_eq!(recips, vec!["b2".to_string()]);
    let recips = state.recipients(&Target::One("zz".to_string()));
    assert!(recips.is_empty());
}

#[test]
fn failed_writers_are_evicted_without_blocking_the_rest() {
    let mut state = ServerState::new();
    state.on_connect("a1").unwrap();
    state.on_connect("b2").unwrap();
    state.on_connect("c3").unwrap();
    let failed = vec!["b2".to_string()];
    state.evict_failed(&failed);
    let recips = state.recipients(&Target::All);
    assert_eq!(recips, vec!["a1".to_string(), "c3".to_string()]);
    let outs = state.handle_message("a1", ":list");
    assert_eq!(outs[0].text, "connected:\na1\nc3\n");
}

#[test]
fn evicting_nobody_changes_nothing() {
    let mut state = ServerState::new();
    state.on_connect("a1").unwrap();
    let failed: Vec<String> = Vec::new();
    state.evict_failed(&failed);
    let recips = state.recipients(&Target::All);
    assert_eq!(recips, vec!["a1".to_string()]);
}
