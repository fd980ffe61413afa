//! The serial terminal of a running VM: what state it is in, and when
//! input may be written to it.
use crate::lifecycle::VmState;
use vstd::prelude::*;

verus! {

/// What is known of the VM's child process, as the runtime holds it.
#[derive(Clone, Copy, Debug, PartialEq, Eq, Structural)]
pub enum ChildProbe {
    /// The runtime holds no child for the VM (it was restarted since, or the
    /// VM was not started by it).
    Missing,
    /// The child has exited.
    Exited,
    /// The child runs; `stdin` tells whether its input is still held.
    Alive { stdin: bool },
}

/// The terminal's state as reported.
#[derive(Clone, Copy, Debug, PartialEq, Eq, Structural)]
pub enum TerminalState {
    Disabled,
    NotRunning,
    Available,
    RestartRequired,
}

pub open spec fn terminal_state(enabled: bool, state: VmState, child: ChildProbe) -> TerminalState {
    if !enabled {
        TerminalState::Disabled
    } else if state != VmState::Running {
        TerminalState::NotRunning
    } else {
        match child {
            ChildProbe::Exited => TerminalState::NotRunning,
            ChildProbe::Alive { stdin } => if stdin {
                TerminalState::Available
            } else {
                TerminalState::RestartRequired
            },
            ChildProbe::Missing => TerminalState::RestartRequired,
        }
    }
}

/// Whether the child must be looked at to tell the terminal's state.
pub open spec fn status_probes_child(enabled: bool, state: VmState) -> bool {
    enabled && state == VmState::Running
}

/// The terminal's state, for a VM with the terminal `enabled`, recorded as
/// `state`, with the child process `child` (see `terminal_state`).
pub fn terminal_status(enabled: bool, state: VmState, child: ChildProbe) -> (r: TerminalState)
    ensures
        r == terminal_state(enabled, state, child),
{
    if !enabled {
        TerminalState::Disabled
    } else if state != VmState::Running {
        TerminalState::NotRunning
    } else {
        match child {
            ChildProbe::Exited => TerminalState::NotRunning,
            ChildProbe::Alive { stdin } => if stdin {
                TerminalState::Available
            } else {
                TerminalState::RestartRequired
            },
            ChildProbe::Missing => TerminalState::RestartRequired,
        }
    }
}

/// Why terminal input is refused.
#[derive(Clone, Copy, Debug, PartialEq, Eq, Structural)]
pub enum TerminalError {
    /// The terminal is off, or the VM uses an external Firecracker socket.
    Disabled,
    /// The VM is not running.
    NotRunning,
    /// The runtime holds no child for the VM: it must be stopped and started.
    Unavailable,
    /// The VM's process has stopped.
    ProcessStopped,
    /// The child's input is gone.
    NoInput,
}

pub open spec fn input_decision(
    enabled: bool,
    external_socket: bool,
    state: VmState,
    child: ChildProbe,
) -> Result<(), TerminalError> {
    if !(enabled && !external_socket) {
        Err(TerminalError::Disabled)
    } else if state != VmState::Running {
        Err(TerminalError::NotRunning)
    } else {
        match child {
            ChildProbe::Missing => Err(TerminalError::Unavailable),
            ChildProbe::Exited => Err(TerminalError::ProcessStopped),
            ChildProbe::Alive { stdin } => if stdin {
                Ok(())
            } else {
                Err(TerminalError::NoInput)
            },
        }
    }
}

/// Whether input may be written to the VM's terminal (see
/// `input_decision`); only the child's own input is ever written.
pub fn terminal_input(enabled: bool, external_socket: bool, state: VmState, child: ChildProbe) -> (r:
    Result<(), TerminalError>)
    ensures
        r == input_decision(enabled, external_socket, state, child),
{
    if !(enabled && !external_socket) {
        Err(TerminalError::Disabled)
    } else if state != VmState::Running {
        Err(TerminalError::NotRunning)
    } else {
        match child {
            ChildProbe::Missing => Err(TerminalError::Unavailable),
            ChildProbe::Exited => Err(TerminalError::ProcessStopped),
            ChildProbe::Alive { stdin } => if stdin {
                Ok(())
            } else {
                Err(TerminalError::NoInput)
            },
        }
    }
}

/// Input is accepted exactly when the terminal reports itself available,
/// on a VM without an external socket.
pub proof fn lemma_input_accepted_iff_available(
    enabled: bool,
    external_socket: bool,
    state: VmState,
    child: ChildProbe,
)
    ensures
        input_decision(enabled, external_socket, state, child) is Ok <==> (!external_socket
            && terminal_state(enabled, state, child) == TerminalState::Available),
{
}

} // verus!
