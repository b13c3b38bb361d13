//! Decisions of the compatibility forwarder that takes over proxy ports
//! left behind by other clients (such as Shadowrocket's 1082) and forwards
//! them to this program's mixed inbound.

use vstd::prelude::*;

verus! {

/// Ports that other clients leave in the environment of programs.
pub const LEGACY_PORTS: [u16; 1] = [1082];

/// Port of the mixed inbound before one is known.
pub const DEFAULT_TARGET_PORT: u16 = 12080;

/// State of the forwarder.
pub struct CompatProxyState {
    /// Forwarding is wanted.
    pub enabled: bool,
    /// The listeners have been started.
    pub started: bool,
    /// Port that connections are forwarded to.
    pub target_port: u16,
}

/// The forwarder's state in mathematical form.
pub struct CompatState {
    pub enabled: bool,
    pub started: bool,
    pub target_port: u16,
}

impl CompatProxyState {
    pub open spec fn model(&self) -> CompatState {
        CompatState { enabled: self.enabled, started: self.started, target_port: self.target_port }
    }

    /// The initial state: disabled, nothing started, forwarding to the
    /// default port.
    pub fn new() -> (s: Self)
        ensures
            s.model() == (CompatState { enabled: false, started: false, target_port: DEFAULT_TARGET_PORT }),
    {
        CompatProxyState { enabled: false, started: false, target_port: DEFAULT_TARGET_PORT }
    }
}

/// The legacy ports other than `our_port`.
pub open spec fn legacy_ports_except(our_port: u16) -> Seq<u16> {
    if LEGACY_PORTS[0] == our_port {
        seq![]
    } else {
        seq![LEGACY_PORTS[0]]
    }
}

/// Starting the forwarder for `our_port`: the new state, and the ports on
/// which listeners are to be started.  Port 0 changes nothing; otherwise
/// forwarding is enabled towards `our_port`, and listeners are started
/// only the first time.
pub open spec fn start_spec(s: CompatState, our_port: u16) -> (CompatState, Seq<u16>) {
    if our_port == 0 {
        (s, seq![])
    } else {
        (
            CompatState { enabled: true, started: true, target_port: our_port },
            if s.started {
                seq![]
            } else {
                legacy_ports_except(our_port)
            },
        )
    }
}

/// Stopping the forwarder: forwarding is disabled, and the next start
/// starts listeners again.
pub open spec fn stop_spec(s: CompatState) -> CompatState {
    CompatState { enabled: false, started: false, target_port: s.target_port }
}

/// Starts forwarding legacy ports to `our_port`; returns the ports on which
/// listeners are to be started.
pub fn start_compat_proxy(state: &mut CompatProxyState, our_port: u16) -> (ports: Vec<u16>)
    ensures
        (final(state).model(), ports@) == start_spec(old(state).model(), our_port),
{
    let mut ports: Vec<u16> = Vec::new();
    if our_port == 0 {
        return ports;
    }
    state.target_port = our_port;
    state.enabled = true;
    let was_started = state.started;
    state.started = true;
    if was_started {
        return ports;
    }
    let port = LEGACY_PORTS[0];
    if port != our_port {
        ports.push(port);
    }
    assert(ports@ =~= legacy_ports_except(our_port));
    ports
}

/// Stops forwarding.
pub fn stop_compat_proxy(state: &mut CompatProxyState)
    ensures
        final(state).model() == stop_spec(old(state).model()),
{
    state.enabled = false;
    state.started = false;
}

/// Where a connection accepted on `listen_port` is forwarded in state `s`.
pub open spec fn forward_spec(s: CompatState, listen_port: u16) -> Option<u16> {
    if s.target_port == 0 || s.target_port == listen_port {
        None
    } else {
        Some(s.target_port)
    }
}

/// Where a connection accepted on `listen_port` is forwarded: the target
/// port, unless it is unset or the listening port itself.
pub fn forward_target(state: &CompatProxyState, listen_port: u16) -> (r: Option<u16>)
    ensures
        r == if state.target_port == 0 || state.target_port == listen_port {
            None::<u16>
        } else {
            Some(state.target_port)
        },
        r == forward_spec(state.model(), listen_port),
{
    let target = state.target_port;
    if target == 0 || target == listen_port {
        None
    } else {
        Some(target)
    }
}

/// What to do when a legacy port cannot be bound.
#[derive(Debug, PartialEq, Eq)]
pub enum BindFailureAction {
    /// Another program holds the port: retry until it lets go.
    RetryWhenFree,
    /// Any other failure: give the port up.
    GiveUp,
}

/// The action for a failed bind, given whether the port was in use.
pub fn bind_failure_action(addr_in_use: bool) -> (a: BindFailureAction)
    ensures
        a == if addr_in_use {
            BindFailureAction::RetryWhenFree
        } else {
            BindFailureAction::GiveUp
        },
{
    if addr_in_use {
        BindFailureAction::RetryWhenFree
    } else {
        BindFailureAction::GiveUp
    }
}

/// Whether listeners keep accepting and retrying: while forwarding is
/// enabled.
pub fn keeps_forwarding(state: &CompatProxyState) -> (r: bool)
    ensures
        r == state.enabled,
{
    state.enabled
}

// ---------------------------------------------------------------------------
// Laws
// ---------------------------------------------------------------------------

/// Starting twice starts the listeners once: the second start only moves
/// the target.
pub proof fn law_start_twice(s: CompatState, p: u16, q: u16)
    requires
        p != 0,
        q != 0,
    ensures
        start_spec(start_spec(s, p).0, q).1 == Seq::<u16>::empty(),
        start_spec(start_spec(s, p).0, q).0.target_port == q,
{
}

/// After a stop, the next start starts the listeners again.
pub proof fn law_restart_after_stop(s: CompatState, p: u16)
    requires
        p != 0,
    ensures
        start_spec(stop_spec(s), p).1 == legacy_ports_except(p),
        start_spec(stop_spec(s), p).0.enabled,
{
}

/// A connection is never forwarded to port 0 or back to its own port.
pub proof fn law_no_forwarding_loop(s: CompatState, listen_port: u16)
    ensures
        (if s.target_port == 0 || s.target_port == listen_port {
            None::<u16>
        } else {
            Some(s.target_port)
        }) matches Some(t) ==> t != 0 && t != listen_port,
{
}

/// A listener is never started on the port it forwards to.
pub proof fn law_no_listener_on_target(s: CompatState, p: u16)
    ensures
        !start_spec(s, p).1.contains(p),
{
    if start_spec(s, p).1.contains(p) {
        let i = choose|i: int| 0 <= i < start_spec(s, p).1.len() && start_spec(s, p).1[i] == p;
    }
}

/// Every start with a non-zero port retargets the forwarder at that port,
/// whether or not its listeners were already running (a later start with
/// a new port, or a restart after a stop, moves the target too); a
/// connection on any other port is then forwarded there.
pub proof fn law_start_retargets(s: CompatState, our_port: u16, listen_port: u16)
    requires
        our_port != 0,
        listen_port != our_port,
    ensures
        start_spec(s, our_port).0.target_port == our_port,
        start_spec(s, our_port).0.enabled,
        forward_spec(start_spec(s, our_port).0, listen_port) == Some(our_port),
        forward_spec(start_spec(stop_spec(s), our_port).0, listen_port) == Some(our_port),
{
}

/// The first start (or the first after a stop) listens on the legacy port
/// 1082, unless that is the forwarder's own target.
pub proof fn law_first_start_listens_on_1082(s: CompatState, our_port: u16)
    requires
        our_port != 0,
        !s.started,
    ensures
        our_port != 1082 ==> start_spec(s, our_port).1 == seq![1082u16],
        our_port == 1082 ==> start_spec(s, our_port).1 == Seq::<u16>::empty(),
        start_spec(s, our_port).0.started,
{
}

/// A start with port 0 changes nothing and starts nothing.
pub proof fn law_start_port_zero(s: CompatState)
    ensures
        start_spec(s, 0) == (s, Seq::<u16>::empty()),
{
}

/// After a stop the forwarder no longer forwards, and a start is due.
pub proof fn law_stop_disables(s: CompatState)
    ensures
        !stop_spec(s).enabled,
        !stop_spec(s).started,
{
}

} // verus!
