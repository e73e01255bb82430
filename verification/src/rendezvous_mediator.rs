//! The direct-access listener: which port it uses and how it reacts to configuration changes.
use vstd::prelude::*;
use crate::text::{
    decimal_digits, decimal_string, digits_up_to, lemma_decimal_digits, parse_i32, parse_i32_spec,
    unsigned_body,
};

verus! {

/// Port used when no valid positive port is configured.
pub const DEFAULT_DIRECT_PORT: i32 = 21118;

/// The port the direct server uses for the configured option value.
pub open spec fn direct_port_spec(option_value: Seq<char>) -> i32 {
    let p = match parse_i32_spec(option_value) {
        Some(v) => v,
        None => 0i32,
    };
    if p <= 0 {
        DEFAULT_DIRECT_PORT
    } else {
        p
    }
}

/// The port for the configured `direct-access-port` option value: the value when it is a
/// positive integer, otherwise the default port.
pub fn get_direct_port(option_value: &str) -> (port: i32)
    ensures
        port == direct_port_spec(option_value@),
        port > 0,
{
    let mut port = match parse_i32(option_value) {
        Some(v) => v,
        None => 0,
    };
    if port <= 0 {
        port = DEFAULT_DIRECT_PORT;
    }
    port
}

/// The decimal notation of a port, as the option value that stores it.
pub fn port_option_value(n: u16) -> (r: String)
    ensures
        r@ == decimal_digits(n as nat),
{
    decimal_string(n as usize)
}

/// A port stored as its decimal option value is the port the direct server then listens on.
pub proof fn lemma_port_option_roundtrip(p: u16)
    requires
        p > 0,
    ensures
        direct_port_spec(decimal_digits(p as nat)) == p as i32,
{
    lemma_decimal_digits(p as nat);
    let s = decimal_digits(p as nat);
    assert(unsigned_body(s) == s);
    assert(digits_up_to(s, i32::MAX as nat) == Some(p as nat));
}

/// State of the direct-access listener.
pub enum DirectServerState {
    /// No listener.
    Idle,
    /// Listening on `port`.
    Listening { port: i32 },
    /// Binding `port` failed; waiting for the configured port to change.
    ListenFailed { port: i32 },
}

/// What the direct-access loop does next.
pub enum DirectServerAction {
    /// Bind a listener on the port.
    Listen { port: i32 },
    /// Wait up to one second for a connection on the listener.
    Accept { port: i32 },
    /// Drop the listener (the configured port changed).
    CloseListener,
    /// Hand the accepted connection to the server.
    SpawnConnection,
    /// Sleep for the given number of milliseconds.
    Sleep { ms: u64 },
}

/// One step of the direct-access loop, given the state and the currently configured option
/// value: an idle loop binds the configured port; a failed bind waits (one second at a time)
/// until the configured port changes; a listener whose port is no longer the configured one is
/// dropped, otherwise it accepts.
pub fn direct_server_next(state: &DirectServerState, configured: &str) -> (r: (
    DirectServerState,
    DirectServerAction,
))
    ensures
        ({
            let p = direct_port_spec(configured@);
            match *state {
                DirectServerState::Idle => r.0 is Idle && r.1 == (DirectServerAction::Listen {
                    port: p,
                }),
                DirectServerState::ListenFailed { port } => if port != p {
                    r.0 is Idle && r.1 == (DirectServerAction::Sleep { ms: 1000 })
                } else {
                    r.0 == *state && r.1 == (DirectServerAction::Sleep { ms: 1000 })
                },
                DirectServerState::Listening { port } => if port != p {
                    r.0 is Idle && r.1 is CloseListener
                } else {
                    r.0 == *state && r.1 == (DirectServerAction::Accept { port })
                },
            }
        }),
{
    let p = get_direct_port(configured);
    match state {
        DirectServerState::Idle => (DirectServerState::Idle, DirectServerAction::Listen { port: p }),
        DirectServerState::ListenFailed { port } => {
            if *port != p {
                (DirectServerState::Idle, DirectServerAction::Sleep { ms: 1000 })
            } else {
                (DirectServerState::ListenFailed { port: *port }, DirectServerAction::Sleep { ms: 1000 })
            }
        },
        DirectServerState::Listening { port } => {
            if *port != p {
                (DirectServerState::Idle, DirectServerAction::CloseListener)
            } else {
                (DirectServerState::Listening { port: *port }, DirectServerAction::Accept { port: *port })
            }
        },
    }
}

/// The state after binding `port` succeeded or failed.
pub fn direct_server_on_listen(port: i32, ok: bool) -> (r: DirectServerState)
    ensures
        r == (if ok {
            DirectServerState::Listening { port }
        } else {
            DirectServerState::ListenFailed { port }
        }),
{
    if ok {
        DirectServerState::Listening { port }
    } else {
        DirectServerState::ListenFailed { port }
    }
}

/// After waiting for a connection: an accepted one is handed on at once, otherwise the loop
/// pauses for a tenth of a second.
pub fn direct_server_on_accept(accepted: bool) -> (r: DirectServerAction)
    ensures
        r == (if accepted {
            DirectServerAction::SpawnConnection
        } else {
            DirectServerAction::Sleep { ms: 100 }
        }),
{
    if accepted {
        DirectServerAction::SpawnConnection
    } else {
        DirectServerAction::Sleep { ms: 100 }
    }
}

/// The listener accepts connections only on the currently configured port, and binds only
/// positive ports.
pub proof fn lemma_direct_server_uses_configured_port(state: DirectServerState, configured: Seq<
    char,
>, next: DirectServerState, action: DirectServerAction)
    requires
        match state {
            DirectServerState::Idle => next is Idle && action == (DirectServerAction::Listen {
                port: direct_port_spec(configured),
            }),
            DirectServerState::ListenFailed { port } => if port != direct_port_spec(configured) {
                next is Idle && action == (DirectServerAction::Sleep { ms: 1000 })
            } else {
                next == state && action == (DirectServerAction::Sleep { ms: 1000 })
            },
            DirectServerState::Listening { port } => if port != direct_port_spec(configured) {
                next is Idle && action is CloseListener
            } else {
                next == state && action == (DirectServerAction::Accept { port })
            },
        },
    ensures
        action matches DirectServerAction::Accept { port } ==> port == direct_port_spec(configured),
        action matches DirectServerAction::Listen { port } ==> port > 0,
{
}

} // verus!
