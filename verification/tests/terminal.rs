use firemage_runtime::lifecycle::VmState;
use firemage_runtime::terminal::{ChildProbe, TerminalError, TerminalState, terminal_input, terminal_status};

#[test]
fn terminal_states_follow_the_child() {
    let alive = ChildProbe::Alive { stdin: true };
    assert_eq!(terminal_status(false, VmState::Running, alive), TerminalState::Disabled);
    assert_eq!(terminal_status(true, VmState::Paused, alive), TerminalState::NotRunning);
    assert_eq!(terminal_status(true, VmState::Running, alive), TerminalState::Available);
    assert_eq!(
        terminal_status(true, VmState::Running, ChildProbe::Alive { stdin: false }),
        TerminalState::RestartRequired
    );
    assert_eq!(terminal_status(true, VmState::Running, ChildProbe::Missing), TerminalState::RestartRequired);
    assert_eq!(terminal_status(true, VmState::Running, ChildProbe::Exited), TerminalState::NotRunning);
}

#[test]
fn input_goes_only_to_a_live_child_of_a_managed_vm() {
    let alive = ChildProbe::Alive { stdin: true };
    assert_eq!(terminal_input(true, false, VmState::Running, alive), Ok(()));
    assert_eq!(terminal_input(false, false, VmState::Running, alive), Err(TerminalError::Disabled));
    assert_eq!(terminal_input(true, true, VmState::Running, alive), Err(TerminalError::Disabled));
    assert_eq!(terminal_input(true, false, VmState::Stopped, alive), Err(TerminalError::NotRunning));
    assert_eq!(
        terminal_input(true, false, VmState::Running, ChildProbe::Missing),
        Err(TerminalError::Unavailable)
    );
    assert_eq!(
        terminal_input(true, false, VmState::Running, ChildProbe::Exited),
        Err(TerminalError::ProcessStopped)
    );
    assert_eq!(
        terminal_input(true, false, VmState::Running, ChildProbe::Alive { stdin: false }),
        Err(TerminalError::NoInput)
    );
}
