use firemage_runtime::lifecycle::isolation_failure_text;
use firemage_runtime::lifecycle::{DiskOpening, GuestDiskError, guest_disk_access, output_extraction, output_size_allowed};
use firemage_runtime::egress::IsolationMode;
use firemage_runtime::lifecycle::{
    ActionError, LaunchPlan, LiveError, Probe, ProbeAction, Recovery, Refresh, Settlement, SocketProbe,
    StillRunning, StopError, StopPlan, VmAction, VmState, after_socket_probe, ensure_absolute,
    ensure_stopped, is_at_rest, is_live, is_recovery_pending, live_change_applies, may_modify,
    needs_probe, pid_after_action, process_stopped, state_from_record, state_name, plan_api_action, plan_launch, plan_recovery, plan_stop,
    records_snapshot_provenance, refresh, state_after_failure, state_from_firecracker,
};

#[test]
fn firecracker_states_map_to_records() {
    assert_eq!(state_from_firecracker("Running"), VmState::Running);
    assert_eq!(state_from_firecracker("Paused"), VmState::Paused);
    assert_eq!(state_from_firecracker("Not started"), VmState::Ready);
    assert_eq!(state_from_firecracker("running"), VmState::Unknown);
}

#[test]
fn refresh_settles_what_the_socket_reports() {
    assert!(!needs_probe(VmState::Failed, true));
    assert!(!needs_probe(VmState::Defined, false));
    assert!(needs_probe(VmState::Defined, true));
    let unreachable = Probe::Unreachable { process_stopped: false };
    assert_eq!(refresh(VmState::Failed, true, unreachable), Refresh::Unchanged);
    assert_eq!(
        refresh(VmState::Running, true, unreachable),
        Refresh::Settle(Settlement { state: VmState::Unknown, keep_error: false, keep_pid: true, release_network: false })
    );
    assert_eq!(
        refresh(VmState::Running, true, Probe::Unreachable { process_stopped: true }),
        Refresh::Settle(Settlement { state: VmState::Stopped, keep_error: false, keep_pid: false, release_network: true })
    );
    assert_eq!(
        refresh(VmState::Stopped, true, unreachable),
        Refresh::Settle(Settlement { state: VmState::Stopped, keep_error: true, keep_pid: false, release_network: false })
    );
    let paused = Probe::Answered { state: VmState::Paused, isolation_failed: false, process_stopped: false };
    assert_eq!(
        refresh(VmState::Paused, true, paused),
        Refresh::Settle(Settlement { state: VmState::Paused, keep_error: true, keep_pid: true, release_network: false })
    );
    let unverified = Probe::Answered { state: VmState::Running, isolation_failed: true, process_stopped: false };
    assert_eq!(refresh(VmState::Running, true, unverified), Refresh::IsolationFailed);
}

#[test]
fn launches_start_only_what_was_asked() {
    assert_eq!(
        plan_launch(VmState::Stopped, VmAction::Start, true, false),
        Ok(LaunchPlan { spawn: true, configure: true, start_instance: true, result: VmState::Running })
    );
    assert_eq!(
        plan_launch(VmState::Ready, VmAction::Start, true, false),
        Ok(LaunchPlan { spawn: false, configure: false, start_instance: true, result: VmState::Running })
    );
    assert_eq!(
        plan_launch(VmState::Defined, VmAction::Prepare, false, false),
        Ok(LaunchPlan { spawn: true, configure: true, start_instance: false, result: VmState::Ready })
    );
    assert_eq!(
        plan_launch(VmState::Defined, VmAction::Launch, false, false),
        Ok(LaunchPlan { spawn: true, configure: false, start_instance: false, result: VmState::Ready })
    );
    assert_eq!(
        plan_launch(VmState::Running, VmAction::Start, false, false),
        Err(ActionError::CannotLaunch(VmState::Running))
    );
    assert_eq!(
        plan_launch(VmState::Ready, VmAction::Prepare, false, false),
        Err(ActionError::CannotLaunch(VmState::Ready))
    );
    assert_eq!(plan_launch(VmState::Defined, VmAction::Launch, true, false), Err(ActionError::JailedManualLaunch));
    assert_eq!(plan_launch(VmState::Defined, VmAction::Launch, false, true), Err(ActionError::RestrictedManualLaunch));
}

#[test]
fn api_actions_need_the_right_reported_state() {
    assert_eq!(plan_api_action(VmAction::Pause, VmState::Running, VmState::Running), Ok(VmState::Paused));
    assert_eq!(plan_api_action(VmAction::Pause, VmState::Paused, VmState::Paused), Err(ActionError::NotRunning));
    assert_eq!(plan_api_action(VmAction::Resume, VmState::Paused, VmState::Paused), Ok(VmState::Running));
    assert_eq!(plan_api_action(VmAction::Resume, VmState::Running, VmState::Running), Err(ActionError::NotPaused));
    assert_eq!(plan_api_action(VmAction::Snapshot, VmState::Running, VmState::Running), Err(ActionError::NotPaused));
    assert_eq!(plan_api_action(VmAction::Stop, VmState::Running, VmState::Running), Ok(VmState::Stopped));
    assert_eq!(plan_api_action(VmAction::Restore, VmState::Ready, VmState::Stopped), Ok(VmState::Paused));
    assert_eq!(
        plan_api_action(VmAction::Restore, VmState::Ready, VmState::Ready),
        Err(ActionError::RestoreNeedsFreshVmm)
    );
    assert_eq!(plan_api_action(VmAction::Metadata, VmState::Paused, VmState::Paused), Ok(VmState::Paused));
}

#[test]
fn pids_and_failures_settle_the_record() {
    assert_eq!(pid_after_action(VmState::Stopped, Some(10), Some(9)), None);
    assert_eq!(pid_after_action(VmState::Running, Some(10), Some(9)), Some(10));
    assert_eq!(pid_after_action(VmState::Running, None, Some(9)), Some(9));
    assert_eq!(state_after_failure(VmState::Starting, true), Some(VmState::Failed));
    assert_eq!(state_after_failure(VmState::Starting, false), Some(VmState::Unknown));
    assert_eq!(state_after_failure(VmState::Running, false), None);
}

#[test]
fn snapshot_paths_must_be_absolute() {
    assert_eq!(ensure_absolute("/srv/snap.state"), Ok(()));
    assert_eq!(ensure_absolute("snap.state"), Err(ActionError::SnapshotPathNotAbsolute));
    assert_eq!(ensure_absolute(""), Err(ActionError::SnapshotPathNotAbsolute));
    assert_eq!(ensure_absolute("/srv/\0snap"), Err(ActionError::SnapshotPathNotAbsolute));
}

#[test]
fn live_changes_and_recovery_follow_the_state() {
    assert!(is_at_rest(VmState::Failed) && !is_at_rest(VmState::Paused));
    assert!(is_live(VmState::Paused) && !is_live(VmState::Unknown));
    assert_eq!(live_change_applies(VmState::Stopped), Ok(false));
    assert_eq!(live_change_applies(VmState::Running), Ok(true));
    assert_eq!(live_change_applies(VmState::Unknown), Err(LiveError::UnknownState));
    assert_eq!(plan_recovery(VmState::Stopped, VmState::Stopped, true, true), Recovery::ClearMarker);
    assert_eq!(plan_recovery(VmState::Running, VmState::Stopped, true, true), Recovery::Skip);
    assert_eq!(plan_recovery(VmState::Running, VmState::Running, false, false), Recovery::Skip);
    assert_eq!(plan_recovery(VmState::Running, VmState::Unknown, true, false), Recovery::Unverified);
    assert_eq!(plan_recovery(VmState::Running, VmState::Paused, false, true), Recovery::Recover { pending: true });
    assert!(is_recovery_pending(true, None));
    assert!(is_recovery_pending(false, Some("VM egress recovery failed: x")));
    assert!(!is_recovery_pending(false, Some("other")));
    assert!(may_modify(VmState::Defined, false) && !may_modify(VmState::Defined, true));
    assert!(records_snapshot_provenance(IsolationMode::Jailed, false));
    assert!(records_snapshot_provenance(IsolationMode::Trusted, true));
    assert!(!records_snapshot_provenance(IsolationMode::Trusted, false));
}

#[test]
fn stops_never_signal_an_unidentified_process() {
    assert_eq!(plan_stop(true, Some(5), false, false), Ok(StopPlan::KillChild));
    assert_eq!(plan_stop(false, None, false, false), Ok(StopPlan::ProbeSocket));
    assert_eq!(plan_stop(false, None, false, true), Err(StopError::AttachedProcess));
    assert_eq!(plan_stop(false, Some(5), false, true), Err(StopError::MissingIdentity));
    assert_eq!(plan_stop(false, Some(5), true, true), Ok(StopPlan::StopRecorded { pid: 5 }));
    assert_eq!(after_socket_probe(SocketProbe::Absent, true), ProbeAction::RemoveSocket);
    assert_eq!(after_socket_probe(SocketProbe::Answered, true), ProbeAction::StopPeer { confirm_jail: true });
}

#[test]
fn failed_vm_with_live_process_or_socket_keeps_its_disks_decision() {
    assert_eq!(ensure_stopped(None, false, SocketProbe::Absent), Ok(()));
    assert_eq!(ensure_stopped(Some(true), false, SocketProbe::Absent), Ok(()));
    assert_eq!(ensure_stopped(Some(false), false, SocketProbe::Absent), Err(StillRunning::Process));
    assert_eq!(ensure_stopped(None, true, SocketProbe::Absent), Err(StillRunning::Process));
    assert_eq!(ensure_stopped(None, false, SocketProbe::Answered), Err(StillRunning::Socket));
}

#[test]
fn recorded_state_names_read_back() {
    for state in [
        VmState::Defined, VmState::Starting, VmState::Ready, VmState::Running,
        VmState::Paused, VmState::Stopped, VmState::Failed, VmState::Unknown,
    ] {
        assert_eq!(state_from_record(state_name(state)), state);
    }
    assert_eq!(state_name(VmState::Paused), "paused");
    assert_eq!(state_from_record("Paused"), VmState::Unknown);
    assert_eq!(state_from_record(""), VmState::Unknown);
}

#[test]
fn stopped_processes_are_known_to_have_exited() {
    assert!(process_stopped(Some(true), Some(true)));
    assert!(!process_stopped(Some(false), Some(false)));
    assert!(process_stopped(None, Some(false)));
    assert!(!process_stopped(None, Some(true)));
    assert!(!process_stopped(None, None));
}

#[test]
fn guest_disks_open_only_for_stopped_vms() {
    assert_eq!(
        guest_disk_access(VmState::Running, None, false, SocketProbe::Absent, IsolationMode::Trusted),
        Err(GuestDiskError::NotStopped)
    );
    assert_eq!(
        guest_disk_access(VmState::Stopped, Some(false), false, SocketProbe::Absent, IsolationMode::Trusted),
        Err(GuestDiskError::StillRunning(StillRunning::Process))
    );
    assert_eq!(
        guest_disk_access(VmState::Stopped, None, false, SocketProbe::Answered, IsolationMode::Jailed),
        Err(GuestDiskError::StillRunning(StillRunning::Socket))
    );
    assert_eq!(
        guest_disk_access(VmState::Stopped, Some(true), false, SocketProbe::Absent, IsolationMode::Jailed),
        Ok(DiskOpening::Reclaim)
    );
    assert_eq!(
        guest_disk_access(VmState::Stopped, None, false, SocketProbe::Absent, IsolationMode::External),
        Ok(DiskOpening::Plain)
    );
}

#[test]
fn outputs_come_only_from_stopped_vms_and_up_to_64_mib() {
    assert_eq!(output_extraction(VmState::Paused, IsolationMode::Jailed), Err(GuestDiskError::NotStopped));
    assert_eq!(output_extraction(VmState::Stopped, IsolationMode::Jailed), Ok(DiskOpening::Reclaim));
    assert_eq!(output_extraction(VmState::Stopped, IsolationMode::Trusted), Ok(DiskOpening::Plain));
    assert!(output_size_allowed(64 * 1024 * 1024));
    assert!(!output_size_allowed(64 * 1024 * 1024 + 1));
}

#[test]
fn isolation_failures_tell_how_to_recover() {
    assert_eq!(
        isolation_failure_text("wrong cgroup"),
        "VM isolation verification failed: wrong cgroup; stop and restart after correcting host configuration"
    );
}
