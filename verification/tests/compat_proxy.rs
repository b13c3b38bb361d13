use pika::compat_proxy::{
    bind_failure_action, forward_target, keeps_forwarding, start_compat_proxy, stop_compat_proxy,
    BindFailureAction, CompatProxyState, LEGACY_PORTS,
};

#[test]
fn legacy_ports_include_shadowrocket_http() {
    assert!(LEGACY_PORTS.contains(&1082));
}

#[test]
fn start_spawns_listeners_once() {
    let mut state = CompatProxyState::new();
    assert_eq!(state.target_port, 12080);
    assert!(start_compat_proxy(&mut state, 0).is_empty());
    assert!(!state.enabled);
    assert_eq!(start_compat_proxy(&mut state, 12080), vec![1082]);
    assert!(state.enabled && state.started);
    assert!(start_compat_proxy(&mut state, 7890).is_empty());
    assert_eq!(state.target_port, 7890);
    stop_compat_proxy(&mut state);
    assert!(!keeps_forwarding(&state));
    assert_eq!(start_compat_proxy(&mut state, 12080), vec![1082]);
}

#[test]
fn no_listener_on_own_port() {
    let mut state = CompatProxyState::new();
    assert!(start_compat_proxy(&mut state, 1082).is_empty());
    assert!(state.started);
}

#[test]
fn forwarding_decisions() {
    let mut state = CompatProxyState::new();
    start_compat_proxy(&mut state, 12080);
    assert_eq!(forward_target(&state, 1082), Some(12080));
    assert_eq!(forward_target(&state, 12080), None);
    state.target_port = 0;
    assert_eq!(forward_target(&state, 1082), None);
    assert_eq!(bind_failure_action(true), BindFailureAction::RetryWhenFree);
    assert_eq!(bind_failure_action(false), BindFailureAction::GiveUp);
}
