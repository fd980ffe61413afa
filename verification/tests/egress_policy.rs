use firemage_runtime::egress::{EgressBinding, migrate_binding};
use firemage_runtime::egress::{EgressSettings, effective_egress, resolve_upstream};

fn policy(http_port: Option<u16>, inherit: bool, upstream: Option<&'static str>) -> EgressSettings<&'static str> {
    EgressSettings { http_port, inherit_upstream: inherit, upstream }
}

#[test]
fn catalog_upstream_prefers_the_referenced_proxy() {
    assert_eq!(resolve_upstream(Some("catalog"), true, Some("own"), Some("host")), Some("catalog"));
    assert_eq!(resolve_upstream(None, true, Some("own"), Some("host")), Some("host"));
    assert_eq!(resolve_upstream(None, true, Some("own"), None), None);
    assert_eq!(resolve_upstream(None, false, Some("own"), Some("host")), Some("own"));
    assert_eq!(resolve_upstream::<&str>(None, false, None, Some("host")), None);
}

#[test]
fn catalog_policy_listens_on_the_vm_port() {
    let catalog = policy(Some(3128), false, Some("up"));
    let r = effective_egress(Some(catalog), Some(policy(Some(1), false, None)), 9128, Some("host"));
    assert_eq!(r, Some(policy(Some(9128), false, Some("up"))));
    let no_http = policy(None, false, None);
    assert_eq!(effective_egress(Some(no_http), None, 9128, Some("host")), Some(no_http));
}

#[test]
fn inline_policy_keeps_its_own_port_and_inherits_the_host_upstream() {
    let inline = policy(Some(8080), true, None);
    assert_eq!(effective_egress(None, Some(inline), 9128, Some("host")), Some(policy(Some(8080), true, Some("host"))));
    let named = policy(Some(8080), true, Some("mine"));
    assert_eq!(effective_egress(None, Some(named), 9128, Some("host")), Some(named));
    assert_eq!(effective_egress::<&str>(None, None, 9128, Some("host")), None);
}

#[test]
fn migrating_inline_egress_twice_changes_nothing_more() {
    let inline = EgressBinding { policy: None, inline: Some(Some(9128)), http_port: 3128 };
    let once = migrate_binding(inline, "p1".to_string());
    assert_eq!(once, EgressBinding { policy: Some("p1".to_string()), inline: None, http_port: 9128 });
    assert_eq!(migrate_binding(once.clone(), "p2".to_string()), once);
    let no_http = EgressBinding { policy: None, inline: Some(None), http_port: 9128 };
    assert_eq!(migrate_binding(no_http, "p3".to_string()).http_port, 3128);
    let plain = EgressBinding { policy: None, inline: None, http_port: 3128 };
    assert_eq!(migrate_binding(plain.clone(), "p4".to_string()), plain);
}
