use firemage_runtime::process::{IdentityError, identity, is_alive, socket_peer_serves};

fn stat(command: &str, start: &str) -> String {
    let mut fields = vec!["S".to_string()];
    fields.extend((1..=18).map(|n| n.to_string()));
    fields.push(start.to_string());
    fields.push("4096".to_string());
    format!("4242 ({command}) {}\n", fields.join(" "))
}

#[test]
fn identities_pin_boot_and_start_time() {
    let boot = "5b2f1d3e-0000-4000-8000-000000000001\n";
    assert_eq!(
        identity(4242, &stat("firecracker", "98765"), boot).unwrap(),
        "5b2f1d3e-0000-4000-8000-000000000001:98765"
    );
    assert_eq!(
        identity(4242, &stat("fc ) tricky", "98765"), boot).unwrap(),
        "5b2f1d3e-0000-4000-8000-000000000001:98765"
    );
    assert_eq!(identity(1, &stat("init", "1"), boot), Err(IdentityError::InvalidPid));
    assert_eq!(identity(4242, "4242 firecracker S 1", boot), Err(IdentityError::InvalidStat));
    assert_eq!(identity(4242, "4242 (fc) S 1 2 3", boot), Err(IdentityError::MissingStartTime));
}

#[test]
fn liveness_compares_identities() {
    let boot = "b\n";
    let s = stat("firecracker", "77");
    assert!(is_alive(4242, Some(&s), Some(boot), "b:77"));
    assert!(!is_alive(4242, Some(&s), Some(boot), "b:78"));
    assert!(!is_alive(4242, None, Some(boot), "b:77"));
    assert!(!is_alive(4242, Some(&s), None, "b:77"));
}

#[test]
fn socket_peers_must_name_the_socket() {
    assert!(socket_peer_serves(b"firecracker\0--api-sock\0/run/vm.sock\0", "/run/vm.sock"));
    assert!(!socket_peer_serves(b"firecracker\0--api-sock\0/run/other.sock\0", "/run/vm.sock"));
    assert!(!socket_peer_serves(b"firecracker\0--api-sock=/run/vm.sock\0", "/run/vm.sock"));
    assert!(!socket_peer_serves(b"--api-sock", "/run/vm.sock"));
}
