//! Shared vocabulary of the worker nodes: the processor run state and the
//! control-message contract every node's inbox follows.

use vstd::prelude::*;

verus! {

/// Whether a processor's worker loop should keep running.
#[derive(Clone, Copy, Debug, PartialEq, Eq, Structural)]
pub enum ProcessorState {
    Running,
    Finished,
}

/// Every processor's control vocabulary contains a distinguished shutdown
/// request that can be built without parameters.
pub trait ControlMessage: Sized {
    /// Whether this message asks the processor to stop.
    spec fn is_shutdown(self) -> bool;

    /// The parameterless shutdown request.
    fn shutdown_msg() -> (r: Self)
        ensures
            r.is_shutdown(),
    ;
}

} // verus!
