//! The runtime lifecycle.
//!
//! The application's loop asks its transport runtime for the next status
//! and acts on the controller's decision: dispatch an event, re-run the
//! prepare step after a restart, keep waiting, or stop.  Binding and
//! awaiting live with the application; the decision itself is here.

use vstd::prelude::*;

use crate::models::OnebotEvent;

verus! {

/// Where the transport listener binds, and the handshake path it serves.
pub struct Config {
    pub host: String,
    pub port: u16,
    pub path: String,
    pub access_token: Option<String>,
}

impl Default for Config {
    /// The default listener: every interface, port 8080, the protocol's
    /// conventional path, no access token.
    fn default() -> (r: Self)
        ensures
            r.host@ == "0.0.0.0"@,
            r.port == 8080,
            r.path@ == "/onebot/v11"@,
            r.access_token is None,
    {
        Config {
            host: "0.0.0.0".to_owned(),
            port: 8080,
            path: "/onebot/v11".to_owned(),
            access_token: None,
        }
    }
}

/// What one turn of the transport runtime yielded.
pub enum RuntimeStatus {
    /// Nothing to act on; ask again.
    Next,
    /// The runtime wants the process to stop.
    Exit,
    /// The runtime wants its prepare step run again.
    Restart,
    /// An inbound event to dispatch.
    Event(OnebotEvent),
}

/// What the lifecycle controller does with one status.
pub enum LoopAction {
    /// Ask the runtime for the next status.
    Continue,
    /// Re-run the prepare step, then continue.
    Reprepare,
    /// Dispatch the event through the handler registry, then continue.
    Dispatch(OnebotEvent),
    /// Leave the loop.
    Stop,
}

/// The controller's decision for one runtime status.  An event is
/// dispatched, a restart re-prepares, an exit stops the loop, and anything
/// else keeps it waiting; no status is dropped or reordered.
pub fn run_step(status: RuntimeStatus) -> (a: LoopAction)
    ensures
        match status {
            RuntimeStatus::Next => a is Continue,
            RuntimeStatus::Exit => a is Stop,
            RuntimeStatus::Restart => a is Reprepare,
            RuntimeStatus::Event(e) => a == LoopAction::Dispatch(e),
        },
{
    match status {
        RuntimeStatus::Next => LoopAction::Continue,
        RuntimeStatus::Exit => LoopAction::Stop,
        RuntimeStatus::Restart => LoopAction::Reprepare,
        RuntimeStatus::Event(e) => LoopAction::Dispatch(e),
    }
}

} // verus!
