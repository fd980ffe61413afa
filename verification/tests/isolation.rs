use firemage_runtime::isolation::allowed_root;
use firemage_runtime::egress::{HostPolicy, IsolationMode};
use firemage_runtime::isolation::{
    FileLimitError, IdentityFiles, IsolationError, JailError, JailLimits, RangeError, UidError, allocate_uid, jail_uid,
    check_id_database, check_subordinate_ids, ensure_mode_allowed, ensure_reserved_range,
    is_plain_absolute_path, is_root_owned_private, jail_file_limit, jailer_command, keeps_managed_socket,
    socket_path_fits, verify_confinement,
};

const MIB: u64 = 1024 * 1024;

#[test]
fn host_policy_governs_isolation_modes() {
    let closed = HostPolicy { allow_trusted_vms: None, allow_external_vms: Some(false), allow_unrestricted_raw_api: None };
    assert_eq!(ensure_mode_allowed(IsolationMode::Jailed, &closed, false), Ok(()));
    assert_eq!(ensure_mode_allowed(IsolationMode::Jailed, &closed, true), Err(IsolationError::JailedCustomArguments));
    assert_eq!(ensure_mode_allowed(IsolationMode::Trusted, &closed, false), Err(IsolationError::TrustedDisabled));
    assert_eq!(ensure_mode_allowed(IsolationMode::External, &closed, false), Err(IsolationError::ExternalDisabled));
    let open = HostPolicy { allow_trusted_vms: Some(true), allow_external_vms: Some(true), allow_unrestricted_raw_api: None };
    assert_eq!(ensure_mode_allowed(IsolationMode::Trusted, &open, true), Ok(()));
    assert_eq!(ensure_mode_allowed(IsolationMode::External, &open, false), Ok(()));
}

#[test]
fn host_paths_are_absolute_without_traversal() {
    assert!(is_plain_absolute_path("/srv/assets/kernel"));
    assert!(is_plain_absolute_path("/srv/./a..b"));
    assert!(!is_plain_absolute_path("srv/kernel"));
    assert!(!is_plain_absolute_path("/srv/../etc/shadow"));
    assert!(!is_plain_absolute_path("/srv/.."));
    assert!(is_root_owned_private(0, 0o755));
    assert!(!is_root_owned_private(0, 0o775));
    assert!(!is_root_owned_private(1000, 0o700));
    assert!(socket_path_fits(107));
    assert!(!socket_path_fits(108));
}

#[test]
fn file_limit_covers_disks_and_snapshot_memory() {
    assert_eq!(jail_file_limit(128, &[], None), Ok(192 * MIB));
    assert_eq!(jail_file_limit(128, &[500 * MIB, 100], None), Ok(500 * MIB));
    assert_eq!(jail_file_limit(128, &[500 * MIB], Some(600)), Ok(600 * MIB));
    assert_eq!(jail_file_limit(128, &[500 * MIB], Some(400)), Err(FileLimitError::TooSmall));
    assert_eq!(jail_file_limit(128, &[], Some(191)), Err(FileLimitError::TooSmall));
}

#[test]
fn jailer_command_line_carries_the_limits() {
    let limits = JailLimits { memory_mib: 256, memory_overhead_mib: 64, vcpus: 2, cpu_percent: None, pids_max: 512, open_files: 2048 };
    let args = jailer_command("vm1", "/usr/bin/firecracker", 900001, "/srv/jailer", "firemage", &limits, 1 << 30);
    assert_eq!(
        args,
        vec![
            "--id", "vm1", "--exec-file", "/usr/bin/firecracker", "--uid", "900001", "--gid", "900001",
            "--chroot-base-dir", "/srv/jailer", "--cgroup-version", "2", "--parent-cgroup", "firemage",
            "--cgroup", "memory.max=335544320", "--cgroup", "memory.swap.max=0", "--cgroup", "pids.max=512",
            "--cgroup", "cpu.max=200000 100000", "--resource-limit", "no-file=2048", "--resource-limit",
            "fsize=1073741824", "--", "--api-sock", "/api.sock",
        ]
    );
    let capped = JailLimits { cpu_percent: Some(50), ..limits };
    let args = jailer_command("vm1", "/usr/bin/firecracker", 900001, "/srv/jailer", "firemage", &capped, 1);
    assert!(args.contains(&"cpu.max=50000 100000".to_string()));
}

#[test]
fn managed_firecracker_keeps_its_api_socket() {
    let args = |v: &[&str]| v.iter().map(|s| s.to_string()).collect::<Vec<String>>();
    assert!(keeps_managed_socket(&args(&["--level", "Info"])));
    assert!(!keeps_managed_socket(&args(&["--api-sock", "/tmp/x"])));
    assert!(!keeps_managed_socket(&args(&["--api-sock=/tmp/x"])));
    assert!(!keeps_managed_socket(&args(&["--no-api"])));
}

#[test]
fn jail_uids_come_from_the_reserved_range() {
    assert_eq!(allocate_uid(900000, 3, &[900000, 900002]), Some(900001));
    assert_eq!(allocate_uid(900000, 2, &[900000, 900001]), None);
    assert_eq!(allocate_uid(900000, 0, &[]), None);
}

#[test]
fn reserved_range_must_be_unused_on_the_host() {
    let passwd = "root:x:0:0:root:/root:/bin/bash\nsvc:x:1000:1000::/home/svc:/bin/sh\n";
    assert_eq!(check_id_database(passwd, 900000, 100), Ok(()));
    assert_eq!(check_id_database("vm:x:900050:1::/:/bin/false", 900000, 100), Err(RangeError::Overlap));
    assert_eq!(check_id_database("broken line\n::x", 900000, 100), Ok(()));
    assert_eq!(check_subordinate_ids("svc:100000:65536\n\n", 900000, 100), Ok(()));
    assert_eq!(check_subordinate_ids("svc:899990:20", 900000, 100), Err(RangeError::Overlap));
    assert_eq!(check_subordinate_ids("svc:100000", 900000, 100), Err(RangeError::InvalidSubordinateLine));
    assert_eq!(check_subordinate_ids("svc:abc:10", 900000, 100), Err(RangeError::InvalidNumber));
    let files = IdentityFiles {
        passwd: passwd.to_string(),
        group: "root:x:0:\n".to_string(),
        subuid: Some("svc:100000:65536".to_string()),
        subgid: None,
    };
    assert_eq!(ensure_reserved_range(&files, 900000, 100), Ok(()));
    let clash = IdentityFiles { subgid: Some("svc:900099:1".to_string()), ..files };
    assert_eq!(ensure_reserved_range(&clash, 900000, 100), Err(RangeError::Overlap));
}

#[test]
fn confined_processes_drop_identity_capabilities_and_filter_threads() {
    let status = "Name:\tfirecracker\nUid:\t900001\t900001\t900001\t900001\nGid:\t900001\t900001\t900001\t900001\nCapEff:\t0000000000000000\nNoNewPrivs:\t1\nSeccomp:\t2\n";
    let open_thread = "Name:\tfc_vcpu 0\nNoNewPrivs:\t0\nSeccomp:\t0\n";
    let threads = vec![status.to_string()];
    assert_eq!(verify_confinement("0::/firemage/vm1\n", status, &threads, "firemage", "vm1", 900001, true), Ok(()));
    assert_eq!(
        verify_confinement("0::/other/vm1\n", status, &threads, "firemage", "vm1", 900001, true),
        Err(JailError::WrongCgroup)
    );
    assert_eq!(
        verify_confinement("0::/firemage/vm1\n", status, &threads, "firemage", "vm1", 0, true),
        Err(JailError::IdentityNotDropped)
    );
    assert_eq!(
        verify_confinement("0::/firemage/vm1\n", "Name:\tx\n", &threads, "firemage", "vm1", 900001, true),
        Err(JailError::MissingIdentity)
    );
    let caps = status.replace("CapEff:\t0000000000000000", "CapEff:\t0000003fffffffff");
    assert_eq!(
        verify_confinement("0::/firemage/vm1\n", &caps, &threads, "firemage", "vm1", 900001, true),
        Err(JailError::CapabilitiesRetained)
    );
    let mixed = vec![status.to_string(), open_thread.to_string()];
    assert_eq!(
        verify_confinement("0::/firemage/vm1\n", status, &mixed, "firemage", "vm1", 900001, true),
        Err(JailError::UnfilteredThread)
    );
    assert_eq!(verify_confinement("0::/firemage/vm1\n", status, &mixed, "firemage", "vm1", 900001, false), Ok(()));
    let unfiltered = vec![open_thread.to_string()];
    assert_eq!(
        verify_confinement("0::/firemage/vm1\n", status, &unfiltered, "firemage", "vm1", 900001, false),
        Err(JailError::NoFilteredThread)
    );
}

#[test]
fn recorded_uids_stay_and_new_ones_are_free() {
    assert_eq!(jail_uid(Some(900005), 900000, 10, &[900005]), Ok(900005));
    assert_eq!(jail_uid(Some(800000), 900000, 10, &[]), Err(UidError::OutsideRange));
    assert_eq!(jail_uid(None, 900000, 3, &[900000, 900001]), Ok(900002));
    assert_eq!(jail_uid(None, 900000, 2, &[900000, 900001]), Err(UidError::Exhausted));
}

#[test]
fn host_paths_must_lie_under_a_configured_root() {
    let roots = vec!["/srv/assets".to_string(), "/srv".to_string()];
    assert_eq!(allowed_root("/srv/assets/rootfs.ext4", &roots), Some(0));
    assert_eq!(allowed_root("/srv/other/disk.img", &roots), Some(1));
    assert_eq!(allowed_root("/srv/assets-old/disk.img", &roots[..1]), None);
    assert_eq!(allowed_root("/etc/passwd", &roots), None);
    assert_eq!(allowed_root("/srv/assets", &[]), None);
}
