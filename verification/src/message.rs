//! Control messages sent from native-function handlers back to the host.

use vstd::prelude::*;

verus! {

/// A tagged control signal carried over the message channel from a
/// script-triggered handler to the host's control loop.  The one required
/// variant asks the host to stop the loop; its payload says whether the
/// request is in earnest.
pub enum Message {
    Exit(bool),
}

/// Whether a message asks the host to stop the control loop after the
/// current cycle.
pub open spec fn requests_termination(m: Message) -> bool {
    match m {
        Message::Exit(stop) => stop,
    }
}

/// The host's drain-step decision: stop the control loop exactly when the
/// message is a termination request with a true payload.
pub fn should_terminate(msg: &Message) -> (stop: bool)
    ensures
        stop == requests_termination(*msg),
{
    match msg {
        Message::Exit(stop) => *stop,
    }
}

} // verus!
