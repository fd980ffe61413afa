use firemage_runtime::addressing::NetworkPolicy;
use firemage_runtime::egress::{
    ChangeEnd, DependencyError, RevisionConflict, UpdatePlan, assignment_unchanged, change_end,
    ensure_network_requirements, http_change_allowed, is_restricted_policy, plan_catalog_update,
};
use firemage_runtime::egress::{
    AliasConflict, CatalogEntry, EgressChoiceError, HostPolicy, IsolationMode, RawRequestError,
    catalog_entry, ensure_raw_request, inline_import_needed, is_egress_error, legacy_alias_text,
    migrated_http_port, needs_catalog_import, recovery_failure_text, update_failure_text,
};

fn closed() -> HostPolicy {
    HostPolicy { allow_trusted_vms: None, allow_external_vms: None, allow_unrestricted_raw_api: None }
}

#[test]
fn failure_messages_mark_recovery() {
    let blocked = recovery_failure_text("boom", true, None);
    assert_eq!(
        blocked,
        "VM egress recovery failed; its network interface is disabled: boom. Repair its configuration and retry or restart the VM."
    );
    assert!(is_egress_error(&blocked));
    let open = recovery_failure_text("boom", false, Some("disk full"));
    assert_eq!(
        open,
        "VM egress recovery failed and its network interface could not be disabled: boom. Inspect host networking before restarting the VM. Could not persist egress recovery marker: disk full"
    );
    assert!(is_egress_error(&open));
    let update = update_failure_text("x");
    assert_eq!(
        update,
        "Egress update failed: x; retry the policy update or restart Firemage to recover network access"
    );
    assert!(is_egress_error(&update));
    assert!(!is_egress_error("egress update failed"));
    assert!(!is_egress_error(""));
}

#[test]
fn raw_requests_are_limited_to_managed_changes() {
    let policy = closed();
    assert_eq!(ensure_raw_request("GET", "/boot-source", IsolationMode::Jailed, &policy, true), Ok(()));
    assert_eq!(
        ensure_raw_request("PUT", "/boot-source", IsolationMode::Trusted, &policy, false),
        Err(RawRequestError::BootSourceMutation)
    );
    assert_eq!(
        ensure_raw_request("PUT", "/boot-source/x", IsolationMode::Trusted, &policy, false),
        Err(RawRequestError::BootSourceMutation)
    );
    assert_eq!(ensure_raw_request("PUT", "/actions", IsolationMode::Jailed, &policy, false), Ok(()));
    assert_eq!(ensure_raw_request("PATCH", "/vm", IsolationMode::Jailed, &policy, false), Ok(()));
    assert_eq!(
        ensure_raw_request("PUT", "/drives/rootfs", IsolationMode::Jailed, &policy, false),
        Err(RawRequestError::HostResourceMutation)
    );
    let open = HostPolicy {
        allow_trusted_vms: Some(true),
        allow_external_vms: None,
        allow_unrestricted_raw_api: Some(true),
    };
    assert_eq!(ensure_raw_request("PUT", "/drives/rootfs", IsolationMode::Trusted, &open, false), Ok(()));
    assert_eq!(
        ensure_raw_request("PUT", "/drives/rootfs", IsolationMode::Jailed, &open, false),
        Err(RawRequestError::HostResourceMutation)
    );
    assert_eq!(
        ensure_raw_request("PUT", "/network-interfaces/eth0", IsolationMode::Trusted, &open, true),
        Err(RawRequestError::RestrictedNetwork)
    );
    assert_eq!(
        ensure_raw_request("PUT", "/vsockx", IsolationMode::Trusted, &open, true),
        Ok(())
    );
}

#[test]
fn inline_definitions_move_to_per_vm_catalog_entries() {
    assert_eq!(legacy_alias_text("0b5c"), "vm-0b5c");
    assert_ne!(legacy_alias_text("a"), legacy_alias_text("b"));
    assert_eq!(migrated_http_port(Some(8080)), 8080);
    assert_eq!(migrated_http_port(None), 3128);
    assert!(needs_catalog_import(false, true));
    assert!(!needs_catalog_import(true, true));
    assert!(!needs_catalog_import(false, false));
    assert_eq!(inline_import_needed(true, true), Err(EgressChoiceError::Both));
    assert_eq!(inline_import_needed(false, true), Ok(true));
    assert_eq!(inline_import_needed(true, false), Ok(false));
    assert_eq!(catalog_entry(None), Ok(CatalogEntry::Insert));
    assert_eq!(catalog_entry(Some(true)), Ok(CatalogEntry::Reuse));
    assert_eq!(catalog_entry(Some(false)), Err(AliasConflict::Conflict));
}

#[test]
fn egress_needs_a_firemage_only_network_and_a_managed_vm() {
    let only = Some(NetworkPolicy::FiremageOnly);
    assert_eq!(ensure_network_requirements(only, false, true), Ok(()));
    assert_eq!(ensure_network_requirements(only, true, false), Err(DependencyError::RestrictedNeedsManagedVm));
    assert_eq!(
        ensure_network_requirements(Some(NetworkPolicy::Isolated), false, true),
        Err(DependencyError::EgressNeedsFiremageOnly)
    );
    assert_eq!(ensure_network_requirements(None, false, true), Err(DependencyError::EgressNeedsFiremageOnly));
    assert_eq!(ensure_network_requirements(None, true, false), Ok(()));
    assert!(is_restricted_policy(only));
    assert!(!is_restricted_policy(None));
}

#[test]
fn unchanged_definitions_are_reapplied_while_recovery_is_pending() {
    assert_eq!(plan_catalog_update(3, 3, true, false), Ok(UpdatePlan::Store));
    assert_eq!(plan_catalog_update(3, 3, true, true), Ok(UpdatePlan::Apply));
    assert_eq!(plan_catalog_update(3, 3, false, false), Ok(UpdatePlan::Apply));
    assert_eq!(plan_catalog_update(3, 2, true, false), Err(RevisionConflict::Conflict));
    assert_eq!(plan_catalog_update(-1, 0, true, false), Err(RevisionConflict::Conflict));
    assert!(assignment_unchanged(true, false, false));
    assert!(!assignment_unchanged(true, false, true));
    assert!(!assignment_unchanged(true, true, false));
    assert!(http_change_allowed(true, true, false));
    assert!(!http_change_allowed(true, false, false));
    assert!(http_change_allowed(true, false, true));
    assert!(http_change_allowed(false, false, false));
}

#[test]
fn failed_egress_changes_keep_vms_blocked() {
    assert_eq!(change_end(true, true), ChangeEnd::Applied);
    assert!(change_end(true, true).succeeds() && !change_end(true, true).blocks());
    assert_eq!(change_end(true, false), ChangeEnd::ActivationFailed);
    assert!(change_end(true, false).blocks() && !change_end(true, false).succeeds());
    assert_eq!(change_end(false, true), ChangeEnd::RolledBack);
    assert!(!change_end(false, true).blocks() && !change_end(false, true).succeeds());
    assert_eq!(change_end(false, false), ChangeEnd::RollbackFailed);
    assert!(change_end(false, false).blocks());
}
