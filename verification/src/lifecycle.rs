//! The VM lifecycle: the states a VM record moves through, what each action
//! requires and leads to, and how an observation of the Firecracker process
//! settles the recorded state.
use crate::egress::IsolationMode;
use crate::text::{chars_of, chars_equal};
use vstd::prelude::*;

verus! {

/// Recorded state of a VM.
#[derive(Clone, Copy, Debug, PartialEq, Eq, Structural)]
pub enum VmState {
    Defined,
    Starting,
    Ready,
    Running,
    Paused,
    Stopped,
    Failed,
    Unknown,
}

/// A VM with no live process: it may be edited, deleted, restored or
/// started.
pub open spec fn at_rest(state: VmState) -> bool {
    state == VmState::Defined || state == VmState::Stopped || state == VmState::Failed
}

pub fn is_at_rest(state: VmState) -> (r: bool)
    ensures
        r == at_rest(state),
{
    match state {
        VmState::Defined | VmState::Stopped | VmState::Failed => true,
        _ => false,
    }
}

/// A VM whose process the runtime has verified and can reconfigure live.
pub open spec fn live(state: VmState) -> bool {
    state == VmState::Running || state == VmState::Paused || state == VmState::Ready
}

pub fn is_live(state: VmState) -> (r: bool)
    ensures
        r == live(state),
{
    match state {
        VmState::Running | VmState::Paused | VmState::Ready => true,
        _ => false,
    }
}

/// What Firecracker reports as the VM state.
pub open spec fn firecracker_state(reported: Seq<char>) -> VmState {
    if reported == "Running"@ {
        VmState::Running
    } else if reported == "Paused"@ {
        VmState::Paused
    } else if reported == "Not started"@ {
        VmState::Ready
    } else {
        VmState::Unknown
    }
}

fn text_is(s: &[char], literal: &str) -> (r: bool)
    ensures
        r == (s@ == literal@),
{
    let l = chars_of(literal);
    chars_equal(s, &l)
}

pub fn state_from_firecracker(reported: &str) -> (r: VmState)
    ensures
        r == firecracker_state(reported@),
{
    let s = chars_of(reported);
    if text_is(&s, "Running") {
        VmState::Running
    } else if text_is(&s, "Paused") {
        VmState::Paused
    } else if text_is(&s, "Not started") {
        VmState::Ready
    } else {
        VmState::Unknown
    }
}

// ---------------------------------------------------------------------------
// Refresh
/// What the runtime learned about a VM's Firecracker process.
#[derive(Clone, Copy, Debug, PartialEq, Eq, Structural)]
pub enum Probe {
    /// The API socket did not answer; `process_stopped` tells whether the
    /// process is known to have exited.
    Unreachable { process_stopped: bool },
    /// The API answered with `state`; for a jailed VM `isolation_failed`
    /// tells whether its jail could not be verified, and `process_stopped`
    /// whether the process has exited meanwhile.
    Answered { state: VmState, isolation_failed: bool, process_stopped: bool },
}

/// How a refresh updates the record.
#[derive(Clone, Copy, Debug, PartialEq, Eq, Structural)]
pub struct Settlement {
    pub state: VmState,
    /// Whether the recorded error stays; otherwise it is cleared.
    pub keep_error: bool,
    /// Whether the recorded PID stays; otherwise it is cleared.
    pub keep_pid: bool,
    /// Whether the VM's egress registration and TAP device are released.
    pub release_network: bool,
}

/// The outcome of a refresh.
#[derive(Clone, Copy, Debug, PartialEq, Eq, Structural)]
pub enum Refresh {
    /// The record is left as it is.
    Unchanged,
    /// The record is updated as the settlement says.
    Settle(Settlement),
    /// The jail could not be verified while the process lives: the VM's
    /// network is suspended and it is recorded as unknown with an isolation
    /// error, keeping its PID.
    IsolationFailed,
}

/// Recording a stopped VM: no PID, the previous error only if it was
/// already stopped, and its network released on the transition.
pub open spec fn stopped_settlement(previous: VmState) -> Settlement {
    Settlement {
        state: VmState::Stopped,
        keep_error: previous == VmState::Stopped,
        keep_pid: false,
        release_network: previous != VmState::Stopped,
    }
}

/// Recording an observed state.
pub open spec fn settlement(previous: VmState, observed: VmState) -> Settlement {
    if observed == VmState::Stopped {
        stopped_settlement(previous)
    } else {
        Settlement {
            state: observed,
            keep_error: previous == observed,
            keep_pid: true,
            release_network: false,
        }
    }
}

/// How a refresh treats a VM recorded as `previous`. `socket_exists` tells
/// whether its API socket exists; `probe` is what was learned when the
/// socket was asked.
pub open spec fn refresh_decision(previous: VmState, socket_exists: bool, probe: Probe) -> Refresh {
    if previous == VmState::Failed || (previous == VmState::Defined && !socket_exists) {
        Refresh::Unchanged
    } else {
        match probe {
            Probe::Answered { state, isolation_failed, process_stopped } => if isolation_failed {
                if process_stopped {
                    Refresh::Settle(stopped_settlement(previous))
                } else {
                    Refresh::IsolationFailed
                }
            } else {
                Refresh::Settle(settlement(previous, state))
            },
            Probe::Unreachable { process_stopped } => if process_stopped || previous
                == VmState::Stopped {
                Refresh::Settle(stopped_settlement(previous))
            } else {
                Refresh::Settle(settlement(previous, VmState::Unknown))
            },
        }
    }
}

/// The error recorded for a jailed VM whose isolation could not be
/// verified during a refresh.
pub open spec fn isolation_failure_message(error: Seq<char>) -> Seq<char> {
    "VM isolation verification failed: "@ + error
        + "; stop and restart after correcting host configuration"@
}

pub fn isolation_failure_text(error: &str) -> (r: String)
    ensures
        r@ == isolation_failure_message(error@),
{
    let mut r = crate::text::owned_text("VM isolation verification failed: ");
    crate::text::push_text(&mut r, error);
    crate::text::push_text(&mut r, "; stop and restart after correcting host configuration");
    r
}

/// Whether a refresh asks the API socket at all.
pub open spec fn refresh_probes(previous: VmState, socket_exists: bool) -> bool {
    !(previous == VmState::Failed || (previous == VmState::Defined && !socket_exists))
}

pub fn needs_probe(previous: VmState, socket_exists: bool) -> (r: bool)
    ensures
        r == refresh_probes(previous, socket_exists),
{
    !(previous == VmState::Failed || (previous == VmState::Defined && !socket_exists))
}

fn stopped(previous: VmState) -> (s: Settlement)
    ensures
        s == stopped_settlement(previous),
{
    Settlement {
        state: VmState::Stopped,
        keep_error: previous == VmState::Stopped,
        keep_pid: false,
        release_network: previous != VmState::Stopped,
    }
}

fn settle(previous: VmState, observed: VmState) -> (s: Settlement)
    ensures
        s == settlement(previous, observed),
{
    if observed == VmState::Stopped {
        stopped(previous)
    } else {
        Settlement {
            state: observed,
            keep_error: previous == observed,
            keep_pid: true,
            release_network: false,
        }
    }
}

/// Decides a refresh (see `refresh_decision`).
pub fn refresh(previous: VmState, socket_exists: bool, probe: Probe) -> (r: Refresh)
    ensures
        r == refresh_decision(previous, socket_exists, probe),
{
    if !needs_probe(previous, socket_exists) {
        return Refresh::Unchanged;
    }
    match probe {
        Probe::Answered { state, isolation_failed, process_stopped } => {
            if isolation_failed {
                if process_stopped {
                    Refresh::Settle(stopped(previous))
                } else {
                    Refresh::IsolationFailed
                }
            } else {
                Refresh::Settle(settle(previous, state))
            }
        },
        Probe::Unreachable { process_stopped } => {
            if process_stopped || previous == VmState::Stopped {
                Refresh::Settle(stopped(previous))
            } else {
                Refresh::Settle(settle(previous, VmState::Unknown))
            }
        },
    }
}

/// A refreshed record never keeps a PID for a stopped VM, releases the
/// network only on the transition to stopped, keeps the error only while
/// the state is unchanged, and never touches a failed VM. A stopped VM
/// whose stale socket does not answer stays stopped with its error; a
/// jailed process that cannot be verified is recorded stopped once it has
/// exited, and otherwise stays unverified.
pub proof fn lemma_refresh_settles_consistently(previous: VmState, socket_exists: bool, probe: Probe)
    ensures
        previous == VmState::Stopped && (probe is Unreachable) ==> refresh_decision(
            previous,
            socket_exists,
            probe,
        ) == Refresh::Settle(
            Settlement {
                state: VmState::Stopped,
                keep_error: true,
                keep_pid: false,
                release_network: false,
            },
        ),
        previous != VmState::Failed && previous != VmState::Defined && probe is Answered
            && probe->Answered_isolation_failed ==> refresh_decision(previous, socket_exists, probe)
            == if probe->Answered_process_stopped {
            Refresh::Settle(stopped_settlement(previous))
        } else {
            Refresh::IsolationFailed
        },
        refresh_decision(previous, socket_exists, probe) matches Refresh::Settle(s) ==> {
            &&& (s.state == VmState::Stopped <==> !s.keep_pid)
            &&& (s.release_network ==> s.state == VmState::Stopped && previous
                != VmState::Stopped)
            &&& (s.keep_error ==> s.state == previous)
        },
        previous == VmState::Failed ==> refresh_decision(previous, socket_exists, probe)
            == Refresh::Unchanged,
{
}

/// A refresh records what Firecracker reports: when the API socket answers
/// with a state and the jail checks pass, a VM that is not failed is
/// recorded in exactly that state; it keeps its process id unless the
/// reported state is stopped, keeps its error only when the state did not
/// change, and its network is released only on the move to stopped.
pub proof fn lemma_refresh_records_the_reported_state(
    previous: VmState,
    reported: VmState,
    process_stopped: bool,
)
    requires
        previous != VmState::Failed,
    ensures
        ({
            let r = refresh_decision(
                previous,
                true,
                Probe::Answered { state: reported, isolation_failed: false, process_stopped },
            );
            &&& r is Settle
            &&& r->Settle_0.state == reported
            &&& r->Settle_0.keep_pid == (reported != VmState::Stopped)
            &&& r->Settle_0.keep_error == (previous == reported)
            &&& r->Settle_0.release_network == (reported == VmState::Stopped && previous
                != VmState::Stopped)
        }),
{
}

// ---------------------------------------------------------------------------
// Actions
/// A lifecycle action requested for a VM.
#[derive(Clone, Copy, Debug, PartialEq, Eq, Structural)]
pub enum VmAction {
    Launch,
    Prepare,
    Start,
    Pause,
    Resume,
    Shutdown,
    Stop,
    Snapshot,
    Restore,
    Metadata,
    Refresh,
}

/// Why an action is refused.
#[derive(Clone, Copy, Debug, PartialEq, Eq, Structural)]
pub enum ActionError {
    /// The VM cannot launch from its recorded state.
    CannotLaunch(VmState),
    /// Jailed VMs need prepare or start; a manual launch needs trusted mode.
    JailedManualLaunch,
    /// VMs on a Firemage-only network need prepare or start.
    RestrictedManualLaunch,
    /// The action needs a running VM.
    NotRunning,
    /// The action needs a paused VM.
    NotPaused,
    /// Restore needs a fresh VMM: a defined or stopped VM.
    RestoreNeedsFreshVmm,
    /// Snapshot paths must be absolute host paths without NUL bytes.
    SnapshotPathNotAbsolute,
}

/// What launching, preparing or starting a VM does.
#[derive(Clone, Copy, Debug, PartialEq, Eq, Structural)]
pub struct LaunchPlan {
    /// Record `starting` and spawn Firecracker (not needed from `ready`).
    pub spawn: bool,
    /// Configure machine, boot source, drives and network.
    pub configure: bool,
    /// Send `InstanceStart`.
    pub start_instance: bool,
    /// The state recorded on success.
    pub result: VmState,
}

pub open spec fn launch_action(action: VmAction) -> bool {
    action == VmAction::Launch || action == VmAction::Prepare || action == VmAction::Start
}

/// The plan for `action` (launch, prepare or start) on a VM in `state`;
/// `jailed` and `restricted_network` describe the VM.
pub open spec fn launch_decision(
    state: VmState,
    action: VmAction,
    jailed: bool,
    restricted_network: bool,
) -> Result<LaunchPlan, ActionError> {
    let start = action == VmAction::Start;
    let launch = action == VmAction::Launch;
    if !(at_rest(state) || (start && state == VmState::Ready)) {
        Err(ActionError::CannotLaunch(state))
    } else if launch && jailed {
        Err(ActionError::JailedManualLaunch)
    } else if launch && restricted_network {
        Err(ActionError::RestrictedManualLaunch)
    } else {
        Ok(
            LaunchPlan {
                spawn: state != VmState::Ready,
                configure: state != VmState::Ready && !launch,
                start_instance: start,
                result: if start {
                    VmState::Running
                } else {
                    VmState::Ready
                },
            },
        )
    }
}

/// Plans a launch, prepare or start (see `launch_decision`).
pub fn plan_launch(state: VmState, action: VmAction, jailed: bool, restricted_network: bool) -> (r:
    Result<LaunchPlan, ActionError>)
    requires
        launch_action(action),
    ensures
        r == launch_decision(state, action, jailed, restricted_network),
{
    let start = action == VmAction::Start;
    let launch = action == VmAction::Launch;
    if !(is_at_rest(state) || (start && state == VmState::Ready)) {
        return Err(ActionError::CannotLaunch(state));
    }
    if launch && jailed {
        return Err(ActionError::JailedManualLaunch);
    }
    if launch && restricted_network {
        return Err(ActionError::RestrictedManualLaunch);
    }
    Ok(
        LaunchPlan {
            spawn: state != VmState::Ready,
            configure: state != VmState::Ready && !launch,
            start_instance: start,
            result: if start {
                VmState::Running
            } else {
                VmState::Ready
            },
        },
    )
}

/// The state recorded after an action on a VM with a live API, where
/// `reported` is the state Firecracker reports before the action and
/// `recorded` the state on record. `Ok` carries the state recorded on
/// success.
pub open spec fn api_action_decision(action: VmAction, reported: VmState, recorded: VmState) -> Result<
    VmState,
    ActionError,
> {
    match action {
        VmAction::Pause => if reported == VmState::Running {
            Ok(VmState::Paused)
        } else {
            Err(ActionError::NotRunning)
        },
        VmAction::Resume => if reported == VmState::Paused {
            Ok(VmState::Running)
        } else {
            Err(ActionError::NotPaused)
        },
        VmAction::Snapshot => if reported == VmState::Paused {
            Ok(VmState::Paused)
        } else {
            Err(ActionError::NotPaused)
        },
        VmAction::Shutdown => Ok(VmState::Running),
        VmAction::Stop => Ok(VmState::Stopped),
        VmAction::Metadata => Ok(recorded),
        VmAction::Restore => if recorded == VmState::Defined || recorded == VmState::Stopped {
            Ok(VmState::Paused)
        } else {
            Err(ActionError::RestoreNeedsFreshVmm)
        },
        _ => Ok(recorded),
    }
}

/// Decides an action other than launch, prepare, start or refresh (see
/// `api_action_decision`).
pub fn plan_api_action(action: VmAction, reported: VmState, recorded: VmState) -> (r: Result<
    VmState,
    ActionError,
>)
    ensures
        r == api_action_decision(action, reported, recorded),
{
    match action {
        VmAction::Pause => if reported == VmState::Running {
            Ok(VmState::Paused)
        } else {
            Err(ActionError::NotRunning)
        },
        VmAction::Resume => if reported == VmState::Paused {
            Ok(VmState::Running)
        } else {
            Err(ActionError::NotPaused)
        },
        VmAction::Snapshot => if reported == VmState::Paused {
            Ok(VmState::Paused)
        } else {
            Err(ActionError::NotPaused)
        },
        VmAction::Shutdown => Ok(VmState::Running),
        VmAction::Stop => Ok(VmState::Stopped),
        VmAction::Metadata => Ok(recorded),
        VmAction::Restore => if recorded == VmState::Defined || recorded == VmState::Stopped {
            Ok(VmState::Paused)
        } else {
            Err(ActionError::RestoreNeedsFreshVmm)
        },
        _ => Ok(recorded),
    }
}

/// What the live actions do to the VM: pausing needs a running VM and
/// leaves it paused; resuming needs a paused VM and leaves it running; a
/// snapshot needs a paused VM and leaves it paused (it neither pauses nor
/// resumes); stopping always leaves it stopped; a shutdown request leaves
/// it running; metadata leaves the recorded state as it was.
pub proof fn lemma_live_actions_move_as_asked(reported: VmState, recorded: VmState)
    ensures
        api_action_decision(VmAction::Pause, reported, recorded) is Ok <==> reported
            == VmState::Running,
        api_action_decision(VmAction::Pause, reported, recorded) matches Ok(s) ==> s
            == VmState::Paused,
        api_action_decision(VmAction::Resume, reported, recorded) is Ok <==> reported
            == VmState::Paused,
        api_action_decision(VmAction::Resume, reported, recorded) matches Ok(s) ==> s
            == VmState::Running,
        api_action_decision(VmAction::Snapshot, reported, recorded) is Ok <==> reported
            == VmState::Paused,
        api_action_decision(VmAction::Snapshot, reported, recorded) matches Ok(s) ==> s
            == reported && s == VmState::Paused,
        api_action_decision(VmAction::Stop, reported, recorded) == Ok::<VmState, ActionError>(
            VmState::Stopped,
        ),
        api_action_decision(VmAction::Shutdown, reported, recorded) == Ok::<VmState, ActionError>(
            VmState::Running,
        ),
        api_action_decision(VmAction::Metadata, reported, recorded) == Ok::<VmState, ActionError>(
            recorded,
        ),
{
}

/// The PID recorded after a successful action: the spawned child's, else
/// the recorded one, and none once the VM is stopped.
pub open spec fn settled_pid(state: VmState, child: Option<i32>, recorded: Option<i32>) -> Option<
    i32,
> {
    if state == VmState::Stopped {
        None
    } else if child is Some {
        child
    } else {
        recorded
    }
}

pub fn pid_after_action(state: VmState, child: Option<i32>, recorded: Option<i32>) -> (r: Option<
    i32,
>)
    ensures
        r == settled_pid(state, child, recorded),
{
    if state == VmState::Stopped {
        None
    } else if child.is_some() {
        child
    } else {
        recorded
    }
}

/// The state recorded when an action failed on a VM recorded as `state`:
/// a VM caught while starting is `failed` when its process could be
/// stopped and `unknown` otherwise; other VMs keep their record.
pub open spec fn failed_action_state(state: VmState, process_stopped: bool) -> Option<VmState> {
    if state == VmState::Starting {
        Some(
            if process_stopped {
                VmState::Failed
            } else {
                VmState::Unknown
            },
        )
    } else {
        None
    }
}

pub fn state_after_failure(state: VmState, process_stopped: bool) -> (r: Option<VmState>)
    ensures
        r == failed_action_state(state, process_stopped),
{
    if state == VmState::Starting {
        Some(
            if process_stopped {
                VmState::Failed
            } else {
                VmState::Unknown
            },
        )
    } else {
        None
    }
}

/// A launch never starts a VM it was not asked to start, and every plan
/// ends in `ready` or `running`.
pub proof fn lemma_launch_plans(state: VmState, action: VmAction, jailed: bool, restricted: bool)
    requires
        launch_action(action),
    ensures
        launch_decision(state, action, jailed, restricted) matches Ok(p) ==> {
            &&& (p.start_instance <==> action == VmAction::Start)
            &&& (p.result == VmState::Running || p.result == VmState::Ready)
            &&& (p.configure ==> p.spawn)
            &&& (action == VmAction::Launch ==> !jailed && !restricted && !p.configure)
        },
        launch_decision(state, action, jailed, restricted) is Ok ==> at_rest(state) || state
            == VmState::Ready,
{
}

// ---------------------------------------------------------------------------
// Paths handed to Firecracker for snapshots
/// `Path::is_absolute` on Unix: the path starts at the root.
pub open spec fn absolute_path(path: Seq<char>) -> bool {
    path.len() > 0 && path[0] == '/'
}

pub open spec fn snapshot_path_ok(path: Seq<char>) -> bool {
    absolute_path(path) && !path.contains('\0')
}

/// Snapshot paths must be absolute host paths without NUL bytes.
pub fn ensure_absolute(path: &str) -> (r: Result<(), ActionError>)
    ensures
        r is Ok <==> snapshot_path_ok(path@),
        r matches Err(e) ==> e == ActionError::SnapshotPathNotAbsolute,
{
    let v = chars_of(path);
    if v.len() == 0 || v[0] != '/' {
        return Err(ActionError::SnapshotPathNotAbsolute);
    }
    let mut i: usize = 0;
    while i < v.len()
        invariant
            i <= v.len(),
            v@ == path@,
            forall|j: int| 0 <= j < i ==> v@[j] != '\0',
        decreases v.len() - i,
    {
        if v[i] == '\0' {
            return Err(ActionError::SnapshotPathNotAbsolute);
        }
        i += 1;
    }
    Ok(())
}

// ---------------------------------------------------------------------------
// Live reconfiguration and recovery
/// Why a VM's egress cannot be changed or recovered live.
#[derive(Clone, Copy, Debug, PartialEq, Eq, Structural)]
pub enum LiveError {
    /// The VM's runtime state is unknown; it must be repaired first.
    UnknownState,
}

/// Whether a change to a VM's egress applies live: `Ok(false)` for a VM at
/// rest (the change takes effect at its next start), `Ok(true)` for a live
/// VM, an error for any other state.
pub open spec fn live_change_decision(state: VmState) -> Result<bool, LiveError> {
    if at_rest(state) {
        Ok(false)
    } else if live(state) {
        Ok(true)
    } else {
        Err(LiveError::UnknownState)
    }
}

pub fn live_change_applies(state: VmState) -> (r: Result<bool, LiveError>)
    ensures
        r == live_change_decision(state),
{
    if is_at_rest(state) {
        Ok(false)
    } else if is_live(state) {
        Ok(true)
    } else {
        Err(LiveError::UnknownState)
    }
}

/// What recovery does for a VM at startup.
#[derive(Clone, Copy, Debug, PartialEq, Eq, Structural)]
pub enum Recovery {
    /// The VM is at rest: its recovery marker is removed.
    ClearMarker,
    /// Nothing to recover.
    Skip,
    /// Restore its egress routes, and when recovery was pending, its
    /// rules and network too.
    Recover { pending: bool },
    /// Its process is unverified: recovery fails and blocks the VM.
    Unverified,
}

/// Recovery before a refresh, from the recorded state, and after it, from
/// the refreshed state and whether the VM has egress configured or pending.
pub open spec fn recovery_decision(
    recorded: VmState,
    refreshed: VmState,
    has_egress: bool,
    pending: bool,
) -> Recovery {
    if at_rest(recorded) {
        Recovery::ClearMarker
    } else if refreshed == VmState::Stopped {
        Recovery::Skip
    } else if !has_egress && !pending {
        Recovery::Skip
    } else if !live(refreshed) {
        Recovery::Unverified
    } else {
        Recovery::Recover { pending }
    }
}

pub fn plan_recovery(recorded: VmState, refreshed: VmState, has_egress: bool, pending: bool) -> (r:
    Recovery)
    ensures
        r == recovery_decision(recorded, refreshed, has_egress, pending),
{
    if is_at_rest(recorded) {
        Recovery::ClearMarker
    } else if refreshed == VmState::Stopped {
        Recovery::Skip
    } else if !has_egress && !pending {
        Recovery::Skip
    } else if !is_live(refreshed) {
        Recovery::Unverified
    } else {
        Recovery::Recover { pending }
    }
}

/// Whether a VM counts as pending egress recovery: a marker file exists or
/// its recorded error is an egress failure.
pub open spec fn recovery_pending(marker_exists: bool, error: Option<Seq<char>>) -> bool {
    marker_exists || (error matches Some(e) && crate::egress::egress_error(e))
}

pub fn is_recovery_pending(marker_exists: bool, error: Option<&str>) -> (r: bool)
    ensures
        r == recovery_pending(
            marker_exists,
            match error {
                Some(e) => Some(e@),
                None => None,
            },
        ),
{
    marker_exists || match error {
        Some(e) => crate::egress::is_egress_error(e),
        None => false,
    }
}

/// Editing or deleting a VM needs it at rest with no child process.
pub fn may_modify(state: VmState, has_child: bool) -> (r: bool)
    ensures
        r == (at_rest(state) && !has_child),
{
    is_at_rest(state) && !has_child
}

/// Which isolation modes record snapshot provenance: jailed VMs and VMs on
/// Firemage-only networks.
pub fn records_snapshot_provenance(mode: IsolationMode, restricted_network: bool) -> (r: bool)
    ensures
        r == (mode == IsolationMode::Jailed || restricted_network),
{
    mode == IsolationMode::Jailed || restricted_network
}


// ---------------------------------------------------------------------------
// Stopping a VM's process
/// How the process of a VM is stopped.
#[derive(Clone, Copy, Debug, PartialEq, Eq, Structural)]
pub enum StopPlan {
    /// Kill and reap the child the runtime holds.
    KillChild,
    /// No process is recorded: probe the VM's socket to find one.
    ProbeSocket,
    /// Stop the recorded process, if its identity still matches.
    StopRecorded { pid: i32 },
}

/// Why a VM's process cannot be stopped.
#[derive(Clone, Copy, Debug, PartialEq, Eq, Structural)]
pub enum StopError {
    /// The VM uses an external Firecracker socket: it can only be shut down.
    AttachedProcess,
    /// A process id is recorded without its identity.
    MissingIdentity,
}

pub open spec fn stop_decision(
    has_child: bool,
    pid: Option<i32>,
    has_identity: bool,
    external_socket: bool,
) -> Result<StopPlan, StopError> {
    if has_child {
        Ok(StopPlan::KillChild)
    } else if pid is None && !external_socket {
        Ok(StopPlan::ProbeSocket)
    } else {
        match pid {
            None => Err(StopError::AttachedProcess),
            Some(p) => if has_identity {
                Ok(StopPlan::StopRecorded { pid: p })
            } else {
                Err(StopError::MissingIdentity)
            },
        }
    }
}

/// Decides how to stop a VM's process (see `stop_decision`).
pub fn plan_stop(has_child: bool, pid: Option<i32>, has_identity: bool, external_socket: bool) -> (r:
    Result<StopPlan, StopError>)
    ensures
        r == stop_decision(has_child, pid, has_identity, external_socket),
{
    if has_child {
        Ok(StopPlan::KillChild)
    } else if pid.is_none() && !external_socket {
        Ok(StopPlan::ProbeSocket)
    } else {
        match pid {
            None => Err(StopError::AttachedProcess),
            Some(p) => if has_identity {
                Ok(StopPlan::StopRecorded { pid: p })
            } else {
                Err(StopError::MissingIdentity)
            },
        }
    }
}

/// What probing a VM's socket found.
#[derive(Clone, Copy, Debug, PartialEq, Eq, Structural)]
pub enum SocketProbe {
    /// Nothing listens: the socket is missing or refuses connections.
    Absent,
    /// A process answers on it.
    Answered,
}

/// What to do after probing the socket.
#[derive(Clone, Copy, Debug, PartialEq, Eq, Structural)]
pub enum ProbeAction {
    /// Remove the stale socket file; nothing runs.
    RemoveSocket,
    /// Stop the socket's peer process, confirming its jail first when the VM
    /// is jailed.
    StopPeer { confirm_jail: bool },
}

pub open spec fn probe_action(probe: SocketProbe, jailed: bool) -> ProbeAction {
    match probe {
        SocketProbe::Absent => ProbeAction::RemoveSocket,
        SocketProbe::Answered => ProbeAction::StopPeer { confirm_jail: jailed },
    }
}

pub fn after_socket_probe(probe: SocketProbe, jailed: bool) -> (r: ProbeAction)
    ensures
        r == probe_action(probe, jailed),
{
    match probe {
        SocketProbe::Absent => ProbeAction::RemoveSocket,
        SocketProbe::Answered => ProbeAction::StopPeer { confirm_jail: jailed },
    }
}

/// A process that the runtime does not hold and did not record is never
/// signalled blindly: without a child and a recorded id the only ways to a
/// stop go through the socket's peer or fail.
pub proof fn lemma_no_blind_stop(has_child: bool, pid: Option<i32>, has_identity: bool, external_socket: bool)
    ensures
        stop_decision(has_child, pid, has_identity, external_socket) matches Ok(
            StopPlan::StopRecorded { pid: p },
        ) ==> pid == Some(p) && has_identity && !has_child,
        external_socket && !has_child ==> !(stop_decision(
            has_child,
            pid,
            has_identity,
            external_socket,
        ) matches Ok(StopPlan::ProbeSocket)),
{
}


// ---------------------------------------------------------------------------
// A VM whose disks may be read
/// Why a VM's disks may not be touched yet.
#[derive(Clone, Copy, Debug, PartialEq, Eq, Structural)]
pub enum StillRunning {
    /// The process the runtime holds, or the recorded one, still runs.
    Process,
    /// Something still answers on the VM's socket.
    Socket,
}

/// Whether a VM's process is really gone: the held child, if any, has
/// exited (`child_exited`), the recorded process is not alive, and nothing
/// answers on its socket.
pub open spec fn stopped_decision(
    child_exited: Option<bool>,
    recorded_alive: bool,
    socket: SocketProbe,
) -> Result<(), StillRunning> {
    if child_exited == Some(false) || recorded_alive {
        Err(StillRunning::Process)
    } else if socket == SocketProbe::Answered {
        Err(StillRunning::Socket)
    } else {
        Ok(())
    }
}

pub fn ensure_stopped(child_exited: Option<bool>, recorded_alive: bool, socket: SocketProbe) -> (r:
    Result<(), StillRunning>)
    ensures
        r == stopped_decision(child_exited, recorded_alive, socket),
{
    if child_exited == Some(false) || recorded_alive {
        Err(StillRunning::Process)
    } else if socket == SocketProbe::Answered {
        Err(StillRunning::Socket)
    } else {
        Ok(())
    }
}


/// How the root disk of a stopped VM is opened for browsing.
#[derive(Clone, Copy, Debug, PartialEq, Eq, Structural)]
pub enum DiskOpening {
    /// A jailed VM's disk belongs to its jail UID: reclaim it for the host.
    Reclaim,
    /// Open the disk as it is, refusing links and anything but a file.
    Plain,
}

/// Why a VM's disk cannot be browsed.
#[derive(Clone, Copy, Debug, PartialEq, Eq, Structural)]
pub enum GuestDiskError {
    /// Browsing needs the (refreshed) record to say `stopped`.
    NotStopped,
    /// The process or its socket is still alive.
    StillRunning(StillRunning),
}

/// Whether and how a VM's disk may be opened for browsing: its refreshed
/// state must be `stopped`, its process must be really gone, and a jailed
/// VM's disk is reclaimed.
pub open spec fn guest_disk_decision(
    state: VmState,
    child_exited: Option<bool>,
    recorded_alive: bool,
    socket: SocketProbe,
    mode: IsolationMode,
) -> Result<DiskOpening, GuestDiskError> {
    if state != VmState::Stopped {
        Err(GuestDiskError::NotStopped)
    } else {
        match stopped_decision(child_exited, recorded_alive, socket) {
            Err(e) => Err(GuestDiskError::StillRunning(e)),
            Ok(_) => Ok(if mode == IsolationMode::Jailed {
                DiskOpening::Reclaim
            } else {
                DiskOpening::Plain
            }),
        }
    }
}

/// Decides a guest disk access (see `guest_disk_decision`).
pub fn guest_disk_access(
    state: VmState,
    child_exited: Option<bool>,
    recorded_alive: bool,
    socket: SocketProbe,
    mode: IsolationMode,
) -> (r: Result<DiskOpening, GuestDiskError>)
    ensures
        r == guest_disk_decision(state, child_exited, recorded_alive, socket, mode),
{
    if state != VmState::Stopped {
        return Err(GuestDiskError::NotStopped);
    }
    match ensure_stopped(child_exited, recorded_alive, socket) {
        Err(e) => Err(GuestDiskError::StillRunning(e)),
        Ok(_) => Ok(if mode == IsolationMode::Jailed {
            DiskOpening::Reclaim
        } else {
            DiskOpening::Plain
        }),
    }
}

/// The largest file extracted from a stopped guest: 64 MiB.
pub const OUTPUT_FILE_LIMIT: u64 = 67108864;

/// How a file is extracted from a VM's disk: only a stopped VM's, and a
/// jailed VM's disk is reclaimed first.
pub fn output_extraction(state: VmState, mode: IsolationMode) -> (r: Result<DiskOpening, GuestDiskError>)
    ensures
        r == if state != VmState::Stopped {
            Err(GuestDiskError::NotStopped)
        } else if mode == IsolationMode::Jailed {
            Ok::<DiskOpening, GuestDiskError>(DiskOpening::Reclaim)
        } else {
            Ok(DiskOpening::Plain)
        },
{
    if state != VmState::Stopped {
        Err(GuestDiskError::NotStopped)
    } else if mode == IsolationMode::Jailed {
        Ok(DiskOpening::Reclaim)
    } else {
        Ok(DiskOpening::Plain)
    }
}

/// Whether an extracted file of `size` bytes may be returned.
pub fn output_size_allowed(size: u64) -> (r: bool)
    ensures
        r == (size <= OUTPUT_FILE_LIMIT),
{
    size <= OUTPUT_FILE_LIMIT
}

// ---------------------------------------------------------------------------
// Recorded states as text
/// The name under which a state is recorded.
pub open spec fn state_text(state: VmState) -> Seq<char> {
    match state {
        VmState::Defined => "defined"@,
        VmState::Starting => "starting"@,
        VmState::Ready => "ready"@,
        VmState::Running => "running"@,
        VmState::Paused => "paused"@,
        VmState::Stopped => "stopped"@,
        VmState::Failed => "failed"@,
        VmState::Unknown => "unknown"@,
    }
}

pub fn state_name(state: VmState) -> (r: &'static str)
    ensures
        r@ == state_text(state),
{
    match state {
        VmState::Defined => "defined",
        VmState::Starting => "starting",
        VmState::Ready => "ready",
        VmState::Running => "running",
        VmState::Paused => "paused",
        VmState::Stopped => "stopped",
        VmState::Failed => "failed",
        VmState::Unknown => "unknown",
    }
}

/// The state a recorded name stands for; any other text is `Unknown`.
pub open spec fn recorded_state(text: Seq<char>) -> VmState {
    if text == "defined"@ {
        VmState::Defined
    } else if text == "starting"@ {
        VmState::Starting
    } else if text == "ready"@ {
        VmState::Ready
    } else if text == "running"@ {
        VmState::Running
    } else if text == "paused"@ {
        VmState::Paused
    } else if text == "stopped"@ {
        VmState::Stopped
    } else if text == "failed"@ {
        VmState::Failed
    } else {
        VmState::Unknown
    }
}

pub fn state_from_record(text: &str) -> (r: VmState)
    ensures
        r == recorded_state(text@),
{
    let s = chars_of(text);
    if text_is(&s, "defined") {
        VmState::Defined
    } else if text_is(&s, "starting") {
        VmState::Starting
    } else if text_is(&s, "ready") {
        VmState::Ready
    } else if text_is(&s, "running") {
        VmState::Running
    } else if text_is(&s, "paused") {
        VmState::Paused
    } else if text_is(&s, "stopped") {
        VmState::Stopped
    } else if text_is(&s, "failed") {
        VmState::Failed
    } else {
        VmState::Unknown
    }
}

/// Reading back the name a state is recorded under gives the state.
pub proof fn lemma_recorded_states_read_back(state: VmState)
    ensures
        recorded_state(state_text(state)) == state,
{
    reveal_strlit("defined");
    reveal_strlit("starting");
    reveal_strlit("ready");
    reveal_strlit("running");
    reveal_strlit("paused");
    reveal_strlit("stopped");
    reveal_strlit("failed");
    reveal_strlit("unknown");
    assert("defined"@[0] != "starting"@[0]);
    assert("defined"@.len() != "ready"@.len());
    assert("defined"@[0] != "running"@[0]);
    assert("defined"@.len() != "paused"@.len());
    assert("defined"@[0] != "stopped"@[0]);
    assert("defined"@[0] != "failed"@[0]);
    assert("starting"@.len() != "ready"@.len());
    assert("starting"@.len() != "running"@.len());
    assert("starting"@.len() != "paused"@.len());
    assert("starting"@.len() != "stopped"@.len());
    assert("starting"@.len() != "failed"@.len());
    assert("ready"@.len() != "running"@.len());
    assert("ready"@.len() != "paused"@.len());
    assert("ready"@.len() != "stopped"@.len());
    assert("ready"@.len() != "failed"@.len());
    assert("running"@.len() != "paused"@.len());
    assert("running"@[0] != "stopped"@[0]);
    assert("running"@.len() != "failed"@.len());
    assert("paused"@[0] != "stopped"@[0]);
    assert("paused"@[0] != "failed"@[0]);
    assert("stopped"@[0] != "failed"@[0]);
    assert("unknown"@[0] != "defined"@[0]);
    assert("unknown"@[0] != "starting"@[0]);
    assert("unknown"@[0] != "ready"@[0]);
    assert("unknown"@[0] != "running"@[0]);
    assert("unknown"@[0] != "paused"@[0]);
    assert("unknown"@[0] != "stopped"@[0]);
    assert("unknown"@[0] != "failed"@[0]);
}

/// Whether a VM's process has stopped: the held child has exited, or, with
/// no child held, the recorded process is known and no longer alive
/// (`recorded_alive`).
pub fn process_stopped(child_exited: Option<bool>, recorded_alive: Option<bool>) -> (r: bool)
    ensures
        r == match child_exited {
            Some(exited) => exited,
            None => recorded_alive == Some(false),
        },
{
    match child_exited {
        Some(exited) => exited,
        None => match recorded_alive {
            Some(alive) => !alive,
            None => false,
        },
    }
}

} // verus!
