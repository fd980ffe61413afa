//! Egress policy decisions: which raw Firecracker API requests a VM owner
//! may send, and the error messages that mark a VM whose egress must be
//! recovered.
use crate::addressing::NetworkPolicy;
use crate::text::{chars_of, chars_equal, chars_start_with, owned_text, push_text, starts_with};
use vstd::prelude::*;

verus! {

/// Isolation mode of a VM.
#[derive(Clone, Copy, Debug, PartialEq, Eq, Structural)]
pub enum IsolationMode {
    /// Firecracker runs inside the jailer with a reserved UID and cgroup.
    Jailed,
    /// Firecracker runs directly as the host service user.
    Trusted,
    /// The VM's Firecracker process is managed outside the runtime.
    External,
}

/// Host policy switches that govern isolation and the raw API.
#[derive(Clone, Copy, Debug, PartialEq, Eq, Structural)]
pub struct HostPolicy {
    pub allow_trusted_vms: Option<bool>,
    pub allow_external_vms: Option<bool>,
    pub allow_unrestricted_raw_api: Option<bool>,
}

/// Message prefix recorded when a shared egress update failed.
pub open spec fn update_failed_prefix() -> Seq<char> {
    "Egress update failed"@
}

/// Message prefix recorded when egress recovery after a restart failed.
pub open spec fn recovery_failed_prefix() -> Seq<char> {
    "VM egress recovery failed"@
}

pub open spec fn has_prefix(s: Seq<char>, prefix: Seq<char>) -> bool {
    prefix.len() <= s.len() && s.take(prefix.len() as int) == prefix
}

/// Whether a VM error message records failed egress (update or recovery),
/// which leaves the VM blocked until its egress is recovered.
pub open spec fn egress_error(message: Seq<char>) -> bool {
    has_prefix(message, update_failed_prefix()) || has_prefix(message, recovery_failed_prefix())
}

pub fn is_egress_error(message: &str) -> (r: bool)
    ensures
        r == egress_error(message@),
{
    starts_with(message, "Egress update failed") || starts_with(
        message,
        "VM egress recovery failed",
    )
}

/// The error recorded on a VM whose egress recovery failed. `blocked` tells
/// whether its network interface could be disabled; `marker_error` is the
/// failure to persist the recovery marker, if any.
pub open spec fn recovery_failure_message(
    error: Seq<char>,
    blocked: bool,
    marker_error: Option<Seq<char>>,
) -> Seq<char> {
    let message = if blocked {
        "VM egress recovery failed; its network interface is disabled: "@ + error
            + ". Repair its configuration and retry or restart the VM."@
    } else {
        "VM egress recovery failed and its network interface could not be disabled: "@ + error
            + ". Inspect host networking before restarting the VM."@
    };
    match marker_error {
        Some(m) => message + " Could not persist egress recovery marker: "@ + m,
        None => message,
    }
}

pub fn recovery_failure_text(error: &str, blocked: bool, marker_error: Option<&str>) -> (r: String)
    ensures
        r@ == recovery_failure_message(
            error@,
            blocked,
            match marker_error {
                Some(m) => Some(m@),
                None => None,
            },
        ),
{
    let mut message = String::new();
    if blocked {
        push_text(&mut message, "VM egress recovery failed; its network interface is disabled: ");
        push_text(&mut message, error);
        push_text(&mut message, ". Repair its configuration and retry or restart the VM.");
    } else {
        push_text(
            &mut message,
            "VM egress recovery failed and its network interface could not be disabled: ",
        );
        push_text(&mut message, error);
        push_text(&mut message, ". Inspect host networking before restarting the VM.");
    }
    match marker_error {
        Some(m) => {
            push_text(&mut message, " Could not persist egress recovery marker: ");
            push_text(&mut message, m);
        },
        None => {},
    }
    message
}

/// The error recorded on each VM of a shared egress update that failed.
pub open spec fn update_failure_message(error: Seq<char>) -> Seq<char> {
    "Egress update failed: "@ + error
        + "; retry the policy update or restart Firemage to recover network access"@
}

pub fn update_failure_text(error: &str) -> (r: String)
    ensures
        r@ == update_failure_message(error@),
{
    let mut message = String::new();
    push_text(&mut message, "Egress update failed: ");
    push_text(&mut message, error);
    push_text(
        &mut message,
        "; retry the policy update or restart Firemage to recover network access",
    );
    message
}

/// The messages the runtime records on failed egress are exactly the ones
/// that later mark the VM for recovery.
pub proof fn lemma_failure_messages_mark_recovery(
    error: Seq<char>,
    blocked: bool,
    marker_error: Option<Seq<char>>,
)
    ensures
        egress_error(recovery_failure_message(error, blocked, marker_error)),
        egress_error(update_failure_message(error)),
{
    reveal_strlit("VM egress recovery failed");
    reveal_strlit("Egress update failed");
    reveal_strlit("Egress update failed: ");
    reveal_strlit("VM egress recovery failed; its network interface is disabled: ");
    reveal_strlit("VM egress recovery failed and its network interface could not be disabled: ");
    let m = recovery_failure_message(error, blocked, marker_error);
    let p = recovery_failed_prefix();
    if blocked {
        let head = "VM egress recovery failed; its network interface is disabled: "@;
        assert(m.take(p.len() as int) =~= head.take(p.len() as int));
    } else {
        let head = "VM egress recovery failed and its network interface could not be disabled: "@;
        assert(m.take(p.len() as int) =~= head.take(p.len() as int));
    }
    assert(m.take(p.len() as int) =~= p);
    let u = update_failure_message(error);
    let q = update_failed_prefix();
    assert(u.take(q.len() as int) =~= q);
}

// ---------------------------------------------------------------------------
// Raw Firecracker API requests
/// Why a raw API request is refused.
#[derive(Clone, Copy, Debug, PartialEq, Eq, Structural)]
pub enum RawRequestError {
    /// Changes to `/boot-source` are never passed through.
    BootSourceMutation,
    /// The request changes host resources, which needs an unrestricted VM.
    HostResourceMutation,
    /// The VM's Firemage-only network forbids raw NIC, vsock and snapshot
    /// loading requests.
    RestrictedNetwork,
}

pub open spec fn is_under(path: Seq<char>, root: Seq<char>) -> bool {
    path == root || has_prefix(path, root + seq!['/'])
}

/// Whether the host allows raw changes for a VM in `mode`.
pub open spec fn unrestricted_raw_api(policy: HostPolicy, mode: IsolationMode) -> bool {
    policy.allow_unrestricted_raw_api == Some(true) && match mode {
        IsolationMode::Jailed => false,
        IsolationMode::Trusted => policy.allow_trusted_vms == Some(true),
        IsolationMode::External => policy.allow_external_vms == Some(true),
    }
}

/// The changes every VM may make: metadata, actions and the balloon.
pub open spec fn managed_mutation(method: Seq<char>, path: Seq<char>) -> bool {
    ||| method == "PUT"@ && (path == "/mmds"@ || path == "/actions"@ || path == "/balloon"@)
    ||| method == "PATCH"@ && (path == "/mmds"@ || path == "/vm"@ || path == "/balloon"@ || path
        == "/balloon/statistics"@)
}

pub open spec fn network_device_path(path: Seq<char>) -> bool {
    is_under(path, "/network-interfaces"@) || is_under(path, "/vsock"@) || is_under(
        path,
        "/snapshot/load"@,
    )
}

/// The decision on a raw request with `method` and `path` to the Firecracker
/// API of a VM in `mode`; `restricted_network` tells whether the VM is on a
/// Firemage-only network.
pub open spec fn raw_request_decision(
    method: Seq<char>,
    path: Seq<char>,
    mode: IsolationMode,
    policy: HostPolicy,
    restricted_network: bool,
) -> Result<(), RawRequestError> {
    if method != "GET"@ && is_under(path, "/boot-source"@) {
        Err(RawRequestError::BootSourceMutation)
    } else if method != "GET"@ && !unrestricted_raw_api(policy, mode) && !managed_mutation(
        method,
        path,
    ) {
        Err(RawRequestError::HostResourceMutation)
    } else if method != "GET"@ && restricted_network && network_device_path(path) {
        Err(RawRequestError::RestrictedNetwork)
    } else {
        Ok(())
    }
}

fn text_is(s: &[char], literal: &str) -> (r: bool)
    ensures
        r == (s@ == literal@),
{
    let l = chars_of(literal);
    chars_equal(s, &l)
}

fn is_under_of(path: &[char], root: &str) -> (r: bool)
    ensures
        r == is_under(path@, root@),
{
    if text_is(path, root) {
        return true;
    }
    let mut prefix = chars_of(root);
    prefix.push('/');
    assert(prefix@ =~= root@ + seq!['/']);
    chars_start_with(path, &prefix)
}

/// Decides a raw API request (see `raw_request_decision`).
pub fn ensure_raw_request(
    method: &str,
    path: &str,
    mode: IsolationMode,
    policy: &HostPolicy,
    restricted_network: bool,
) -> (r: Result<(), RawRequestError>)
    ensures
        r == raw_request_decision(method@, path@, mode, *policy, restricted_network),
{
    let m = chars_of(method);
    let p = chars_of(path);
    let is_get = text_is(&m, "GET");
    if !is_get && is_under_of(&p, "/boot-source") {
        return Err(RawRequestError::BootSourceMutation);
    }
    let unrestricted = policy.allow_unrestricted_raw_api == Some(true) && match mode {
        IsolationMode::Jailed => false,
        IsolationMode::Trusted => policy.allow_trusted_vms == Some(true),
        IsolationMode::External => policy.allow_external_vms == Some(true),
    };
    if !is_get && !unrestricted {
        let managed = (text_is(&m, "PUT") && (text_is(&p, "/mmds") || text_is(&p, "/actions")
            || text_is(&p, "/balloon"))) || (text_is(&m, "PATCH") && (text_is(&p, "/mmds")
            || text_is(&p, "/vm") || text_is(&p, "/balloon") || text_is(
            &p,
            "/balloon/statistics",
        )));
        if !managed {
            return Err(RawRequestError::HostResourceMutation);
        }
    }
    if !is_get && restricted_network && (is_under_of(&p, "/network-interfaces") || is_under_of(
        &p,
        "/vsock",
    ) || is_under_of(&p, "/snapshot/load")) {
        return Err(RawRequestError::RestrictedNetwork);
    }
    Ok(())
}

/// A read never changes the VM, so it is refused by no rule.
pub proof fn lemma_reads_are_always_allowed(
    path: Seq<char>,
    mode: IsolationMode,
    policy: HostPolicy,
    restricted_network: bool,
)
    ensures
        raw_request_decision("GET"@, path, mode, policy, restricted_network) is Ok,
{
}

/// Jailed VMs get only managed changes, whatever the host allows.
pub proof fn lemma_jailed_vms_get_only_managed_changes(
    method: Seq<char>,
    path: Seq<char>,
    policy: HostPolicy,
    restricted_network: bool,
)
    ensures
        raw_request_decision(method, path, IsolationMode::Jailed, policy, restricted_network) is Ok
            ==> method == "GET"@ || managed_mutation(method, path),
{
}


// ---------------------------------------------------------------------------
// Moving inline egress definitions into the catalog
/// The catalog alias under which a VM's inline egress definition (policy
/// and upstream proxy) is imported; `key` is the VM's id.
pub open spec fn legacy_alias(key: Seq<char>) -> Seq<char> {
    "vm-"@ + key
}

pub fn legacy_alias_text(key: &str) -> (r: String)
    ensures
        r@ == legacy_alias(key@),
{
    let mut r = owned_text("vm-");
    push_text(&mut r, key);
    r
}

/// Each VM's definition is imported under an alias of its own, so that
/// unrelated VMs never share an imported policy or proxy: different keys
/// give different aliases.
pub proof fn lemma_legacy_aliases_are_distinct(a: Seq<char>, b: Seq<char>)
    ensures
        legacy_alias(a) == legacy_alias(b) ==> a == b,
{
    reveal_strlit("vm-");
    if legacy_alias(a) == legacy_alias(b) {
        assert(a =~= legacy_alias(a).skip(3));
        assert(b =~= legacy_alias(b).skip(3));
    }
}

/// The default guest-facing HTTP proxy port.
pub const DEFAULT_HTTP_PORT: u16 = 3128;

/// The VM's guest-facing proxy port after its inline definition moved to
/// the catalog: the inline HTTP proxy's port, else the default.
pub fn migrated_http_port(inline_http_port: Option<u16>) -> (r: u16)
    ensures
        r == match inline_http_port {
            Some(p) => p,
            None => DEFAULT_HTTP_PORT,
        },
{
    match inline_http_port {
        Some(p) => p,
        None => DEFAULT_HTTP_PORT,
    }
}

/// The upstream proxy a catalog policy resolves to: the catalog proxy it
/// references, else the host's default when it inherits one, else the
/// upstream its own definition names.
pub open spec fn catalog_upstream<U>(
    referenced: Option<U>,
    inherit_upstream: bool,
    own: Option<U>,
    host_default: Option<U>,
) -> Option<U> {
    if referenced is Some {
        referenced
    } else if inherit_upstream {
        host_default
    } else {
        own
    }
}

/// Resolves a catalog policy's upstream proxy (see `catalog_upstream`).
pub fn resolve_upstream<U>(
    referenced: Option<U>,
    inherit_upstream: bool,
    own: Option<U>,
    host_default: Option<U>,
) -> (r: Option<U>)
    ensures
        r == catalog_upstream(referenced, inherit_upstream, own, host_default),
{
    match referenced {
        Some(proxy) => Some(proxy),
        None => if inherit_upstream {
            host_default
        } else {
            own
        },
    }
}

/// What the runtime reads of an egress policy: the port of its HTTP proxy
/// (`None` when it has none), whether it inherits the host's upstream
/// proxy, and the upstream it names.
#[derive(Clone, Copy, Debug, PartialEq, Eq, Structural)]
pub struct EgressSettings<U> {
    pub http_port: Option<u16>,
    pub inherit_upstream: bool,
    pub upstream: Option<U>,
}

/// The policy a VM runs under: the resolved catalog policy it references,
/// whose HTTP proxy listens on the VM's own port, else its inline policy;
/// either way an inheriting policy with no upstream takes the host's.
pub open spec fn effective_policy<U>(
    catalog: Option<EgressSettings<U>>,
    inline: Option<EgressSettings<U>>,
    vm_http_port: u16,
    host_default: Option<U>,
) -> Option<EgressSettings<U>> {
    let chosen = match catalog {
        Some(p) => Some(
            EgressSettings {
                http_port: match p.http_port {
                    Some(_) => Some(vm_http_port),
                    None => None,
                },
                ..p
            },
        ),
        None => inline,
    };
    match chosen {
        Some(p) => if p.inherit_upstream && p.upstream is None {
            Some(EgressSettings { upstream: host_default, ..p })
        } else {
            Some(p)
        },
        None => None,
    }
}

/// Decides a VM's effective egress policy (see `effective_policy`).
pub fn effective_egress<U>(
    catalog: Option<EgressSettings<U>>,
    inline: Option<EgressSettings<U>>,
    vm_http_port: u16,
    host_default: Option<U>,
) -> (r: Option<EgressSettings<U>>)
    ensures
        r == effective_policy(catalog, inline, vm_http_port, host_default),
{
    let chosen = match catalog {
        Some(p) => {
            let http_port = match p.http_port {
                Some(_) => Some(vm_http_port),
                None => None,
            };
            Some(EgressSettings { http_port, inherit_upstream: p.inherit_upstream, upstream: p.upstream })
        },
        None => inline,
    };
    match chosen {
        Some(p) => {
            if p.inherit_upstream && p.upstream.is_none() {
                Some(EgressSettings { http_port: p.http_port, inherit_upstream: true, upstream: host_default })
            } else {
                Some(p)
            }
        },
        None => None,
    }
}

/// What a stored VM holds of its egress: the catalog policy it references,
/// its inline definition if any (by the port of that definition's HTTP
/// proxy, `None` when it has none), and its guest-facing proxy port.
#[derive(Clone, Debug, PartialEq, Eq)]
pub struct EgressBinding {
    pub policy: Option<String>,
    pub inline: Option<Option<u16>>,
    pub http_port: u16,
}

/// What the catalog migration makes of a stored VM's binding, `policy_id`
/// being the catalog policy its inline definition was imported as (under
/// the alias `legacy_alias` of the VM's id): a VM with an inline definition
/// and no reference is bound to that policy, keeps the inline proxy port
/// (see `migrated_http_port`) and loses its inline definition; any other
/// binding stays as it is.
pub open spec fn migrated_binding(b: EgressBinding, policy_id: String) -> EgressBinding {
    match (b.policy, b.inline) {
        (None, Some(port)) => EgressBinding {
            policy: Some(policy_id),
            inline: None,
            http_port: match port {
                Some(p) => p,
                None => DEFAULT_HTTP_PORT,
            },
        },
        _ => b,
    }
}

/// Migrates a stored VM's binding (see `migrated_binding`).
pub fn migrate_binding(b: EgressBinding, policy_id: String) -> (r: EgressBinding)
    ensures
        r == migrated_binding(b, policy_id),
{
    if needs_catalog_import(b.policy.is_some(), b.inline.is_some()) {
        match b.inline {
            Some(port) => EgressBinding {
                policy: Some(policy_id),
                inline: None,
                http_port: migrated_http_port(port),
            },
            None => b,
        }
    } else {
        b
    }
}

/// Running the migration again changes nothing: a migrated binding needs no
/// import, and migrating it once more, whatever policy id the second run
/// found, gives it back unchanged.
pub proof fn lemma_migration_is_a_fixed_point(b: EgressBinding, first: String, second: String)
    ensures
        !(migrated_binding(b, first).policy is None && migrated_binding(b, first).inline is Some),
        migrated_binding(migrated_binding(b, first), second) == migrated_binding(b, first),
{
}

/// Whether a stored VM still carries an inline egress definition to
/// import: it has one and no catalog reference.
pub fn needs_catalog_import(has_reference: bool, has_inline: bool) -> (r: bool)
    ensures
        r == (!has_reference && has_inline),
{
    !has_reference && has_inline
}

/// Why an egress definition is refused.
#[derive(Clone, Copy, Debug, PartialEq, Eq, Structural)]
pub enum EgressChoiceError {
    /// A VM names both a catalog policy and an inline definition.
    Both,
}

/// A VM given to the runtime names a catalog policy or an inline
/// definition, not both; `Ok(true)` when its inline definition must be
/// imported.
pub fn inline_import_needed(has_reference: bool, has_inline: bool) -> (r: Result<
    bool,
    EgressChoiceError,
>)
    ensures
        r == if has_inline && has_reference {
            Err(EgressChoiceError::Both)
        } else {
            Ok::<bool, EgressChoiceError>(has_inline)
        },
{
    if has_inline && has_reference {
        Err(EgressChoiceError::Both)
    } else {
        Ok(has_inline)
    }
}

/// How an imported definition lands in the catalog.
#[derive(Clone, Copy, Debug, PartialEq, Eq, Structural)]
pub enum CatalogEntry {
    /// An earlier import under the same alias holds the same definition:
    /// reuse it.
    Reuse,
    /// Nothing is registered under the alias: insert the definition.
    Insert,
}

/// The alias is taken by a different definition.
#[derive(Clone, Copy, Debug, PartialEq, Eq, Structural)]
pub enum AliasConflict {
    Conflict,
}

/// Decides how to import a definition given what is registered under its
/// alias: nothing (`None`), the same definition (`Some(true)`) or another
/// one (`Some(false)`). Importing again what was imported before is thus
/// harmless.
pub fn catalog_entry(existing: Option<bool>) -> (r: Result<CatalogEntry, AliasConflict>)
    ensures
        r == match existing {
            None => Ok(CatalogEntry::Insert),
            Some(true) => Ok(CatalogEntry::Reuse),
            Some(false) => Err(AliasConflict::Conflict),
        },
{
    match existing {
        None => Ok(CatalogEntry::Insert),
        Some(same) => if same {
            Ok(CatalogEntry::Reuse)
        } else {
            Err(AliasConflict::Conflict)
        },
    }
}


// ---------------------------------------------------------------------------
// What egress and Firemage-only networks require of a VM
/// Why a VM definition does not fit its network.
#[derive(Clone, Copy, Debug, PartialEq, Eq, Structural)]
pub enum DependencyError {
    /// A Firemage-only network needs a VM whose Firecracker the runtime
    /// manages (no external socket).
    RestrictedNeedsManagedVm,
    /// Egress filtering needs the VM on a Firemage-only network.
    EgressNeedsFiremageOnly,
}

/// The decision on a VM attached to a network with `policy` (`None` when it
/// has no network), with an external socket or not, and with an egress
/// policy or not.
pub open spec fn network_requirements(
    policy: Option<NetworkPolicy>,
    external_socket: bool,
    has_egress: bool,
) -> Result<(), DependencyError> {
    if policy == Some(NetworkPolicy::FiremageOnly) && external_socket {
        Err(DependencyError::RestrictedNeedsManagedVm)
    } else if has_egress && policy != Some(NetworkPolicy::FiremageOnly) {
        Err(DependencyError::EgressNeedsFiremageOnly)
    } else {
        Ok(())
    }
}

pub fn ensure_network_requirements(
    policy: Option<NetworkPolicy>,
    external_socket: bool,
    has_egress: bool,
) -> (r: Result<(), DependencyError>)
    ensures
        r == network_requirements(policy, external_socket, has_egress),
{
    let restricted = match policy {
        Some(NetworkPolicy::FiremageOnly) => true,
        _ => false,
    };
    if restricted && external_socket {
        Err(DependencyError::RestrictedNeedsManagedVm)
    } else if has_egress && !restricted {
        Err(DependencyError::EgressNeedsFiremageOnly)
    } else {
        Ok(())
    }
}

/// Whether a network restricts its guests to Firemage (`FiremageOnly`).
pub fn is_restricted_policy(policy: Option<NetworkPolicy>) -> (r: bool)
    ensures
        r == (policy == Some(NetworkPolicy::FiremageOnly)),
{
    match policy {
        Some(NetworkPolicy::FiremageOnly) => true,
        _ => false,
    }
}

/// Egress is only ever filtered on a Firemage-only network, and only a
/// managed VM sits on one.
pub proof fn lemma_egress_stays_on_restricted_networks(
    policy: Option<NetworkPolicy>,
    external_socket: bool,
    has_egress: bool,
)
    ensures
        network_requirements(policy, external_socket, has_egress) is Ok ==> (has_egress ==> policy
            == Some(NetworkPolicy::FiremageOnly)) && (policy == Some(NetworkPolicy::FiremageOnly)
            ==> !external_socket),
{
}


// ---------------------------------------------------------------------------
// Shared catalog updates
/// How a catalog policy or proxy update proceeds.
#[derive(Clone, Copy, Debug, PartialEq, Eq, Structural)]
pub enum UpdatePlan {
    /// The definition is unchanged and no VM waits for recovery: store the
    /// update without touching live VMs.
    Store,
    /// Apply the change to each live VM that uses the entry.
    Apply,
}

/// The update's revision is not the stored one.
#[derive(Clone, Copy, Debug, PartialEq, Eq, Structural)]
pub enum RevisionConflict {
    Conflict,
}

pub open spec fn update_decision(
    stored_revision: i64,
    revision: u64,
    unchanged: bool,
    any_pending: bool,
) -> Result<UpdatePlan, RevisionConflict> {
    if stored_revision < 0 || stored_revision != revision {
        Err(RevisionConflict::Conflict)
    } else if unchanged && !any_pending {
        Ok(UpdatePlan::Store)
    } else {
        Ok(UpdatePlan::Apply)
    }
}

/// Plans an update of a catalog entry (see `update_decision`): a stale
/// revision is refused; an unchanged definition is re-applied while some VM
/// using it waits for egress recovery.
pub fn plan_catalog_update(stored_revision: i64, revision: u64, unchanged: bool, any_pending: bool) -> (r:
    Result<UpdatePlan, RevisionConflict>)
    ensures
        r == update_decision(stored_revision, revision, unchanged, any_pending),
{
    if stored_revision < 0 || stored_revision as u64 != revision {
        Err(RevisionConflict::Conflict)
    } else if unchanged && !any_pending {
        Ok(UpdatePlan::Store)
    } else {
        Ok(UpdatePlan::Apply)
    }
}

/// Assigning a VM the policy it already has, with no inline definition
/// left and no recovery pending, changes nothing.
pub fn assignment_unchanged(same_policy: bool, has_inline: bool, pending: bool) -> (r: bool)
    ensures
        r == (same_policy && !has_inline && !pending),
{
    same_policy && !has_inline && !pending
}

/// A live VM may gain an HTTP proxy only if its guest was prepared with the
/// proxy bootstrap.
pub fn http_change_allowed(after_http: bool, before_http: bool, bootstrap_exists: bool) -> (r: bool)
    ensures
        r == (!(after_http && !before_http) || bootstrap_exists),
{
    !(after_http && !before_http) || bootstrap_exists
}

/// How a shared egress change ends for the VMs it touched.
#[derive(Clone, Copy, Debug, PartialEq, Eq, Structural)]
pub enum ChangeEnd {
    /// The change is live and stored.
    Applied,
    /// The change is stored but could not be activated: the VMs stay blocked
    /// until their egress is recovered.
    ActivationFailed,
    /// The change failed and the previous egress is back.
    RolledBack,
    /// The change failed and the previous egress could not be restored: the
    /// VMs stay blocked.
    RollbackFailed,
}

pub open spec fn change_end_of(staged: bool, follow_up: bool) -> ChangeEnd {
    if staged {
        if follow_up {
            ChangeEnd::Applied
        } else {
            ChangeEnd::ActivationFailed
        }
    } else if follow_up {
        ChangeEnd::RolledBack
    } else {
        ChangeEnd::RollbackFailed
    }
}

/// Classifies a shared egress change from whether it was staged and stored
/// (`staged`) and whether what followed (activation, or else the rollback)
/// succeeded.
pub fn change_end(staged: bool, follow_up: bool) -> (r: ChangeEnd)
    ensures
        r == change_end_of(staged, follow_up),
{
    if staged {
        if follow_up {
            ChangeEnd::Applied
        } else {
            ChangeEnd::ActivationFailed
        }
    } else if follow_up {
        ChangeEnd::RolledBack
    } else {
        ChangeEnd::RollbackFailed
    }
}

impl ChangeEnd {
    /// Whether the VMs' traffic stays blocked, pending recovery.
    pub fn blocks(self) -> (r: bool)
        ensures
            r == (self == ChangeEnd::ActivationFailed || self == ChangeEnd::RollbackFailed),
    {
        match self {
            ChangeEnd::ActivationFailed | ChangeEnd::RollbackFailed => true,
            _ => false,
        }
    }

    /// Whether the request succeeds.
    pub fn succeeds(self) -> (r: bool)
        ensures
            r == (self == ChangeEnd::Applied),
    {
        match self {
            ChangeEnd::Applied => true,
            _ => false,
        }
    }
}

/// A VM's egress is never left in an unknown state unnoticed: whenever the
/// activation or the rollback fails, its traffic stays blocked, and a change
/// only succeeds when it is live.
pub proof fn lemma_failed_changes_block(staged: bool, follow_up: bool)
    ensures
        (change_end_of(staged, follow_up) == ChangeEnd::ActivationFailed || change_end_of(
            staged,
            follow_up,
        ) == ChangeEnd::RollbackFailed) <==> !follow_up,
        change_end_of(staged, follow_up) == ChangeEnd::Applied <==> (staged && follow_up),
{
}

} // verus!
