use firemage_runtime::snapshots::{RestoreOutcome, RestoreStage, next_restore_stage};
use firemage_runtime::snapshots::{LibraryError, check_library_manifest, check_library_snapshot, snapshots_of_vm};
use firemage_runtime::snapshots::restored_seed_matches;
use firemage_runtime::snapshots::{CaptureRefusal, ensure_capture_allowed, tap_matches};
use firemage_runtime::snapshots::state_size_allowed;
use firemage_runtime::addressing::{NetworkPolicy, NetworkSpec, Subnet, ipv4};
use firemage_runtime::egress::IsolationMode;
use firemage_runtime::lifecycle::VmState;
use firemage_runtime::snapshots::{
    CaptureError, CaptureExtras, ConfigError, DeviceConfig, DriveConfig, DriveSpec, GuestNic,
    JsonScalar, MachineSpec, NicConfig, Pmem, RestoreFailure, SnapshotSource, TargetError,
    capture_file_names, check_capture_estimate, check_capture_total, classify_restore_failure,
    ensure_config, ensure_target, network_matches,
};

const ARCH: &str = "x86_64";

fn machine() -> MachineSpec {
    MachineSpec {
        mode: IsolationMode::Jailed,
        external_socket: false,
        web_terminal: false,
        vcpus: 1,
        memory_mib: 128,
        initrd: false,
        drives: Vec::new(),
        network: None,
        egress_http_port: 3128,
        inline_http_port: None,
        egress_policy: false,
    }
}

fn manifest() -> SnapshotSource {
    SnapshotSource { architecture: ARCH.to_string(), egress_bootstrap: false, spec: machine() }
}

fn text(s: &str) -> JsonScalar {
    JsonScalar::Text(s.to_string())
}

fn drive(id: &str, path: &str, read_only: bool, root: bool) -> DriveConfig {
    DriveConfig {
        drive_id: text(id),
        path_on_host: text(path),
        is_read_only: JsonScalar::Bool(read_only),
        is_root_device: JsonScalar::Bool(root),
        socket: JsonScalar::Null,
    }
}

fn config(spec: &MachineSpec) -> DeviceConfig {
    DeviceConfig {
        is_object: true,
        vsock: JsonScalar::Null,
        vsock_uds_path: JsonScalar::Null,
        balloon: JsonScalar::Null,
        cpu_config: JsonScalar::Null,
        memory_hotplug: JsonScalar::Null,
        pmem: Pmem::Absent,
        vcpu_count: JsonScalar::Unsigned(spec.vcpus as u64),
        mem_size_mib: JsonScalar::Unsigned(spec.memory_mib as u64),
        smt: JsonScalar::Bool(false),
        huge_pages: text("None"),
        kernel_image_path: text("/resources/kernel"),
        initrd_path: JsonScalar::Null,
        drives: Some(vec![drive("rootfs", "/resources/rootfs.ext4", false, true)]),
        network_interfaces: Some(Vec::new()),
    }
}

#[test]
fn restore_allows_names_and_app_changes_but_rejects_hardware_network_mismatch() {
    let manifest = manifest();
    let mut target = manifest.spec.clone();
    assert_eq!(ensure_target(&manifest, &target, ARCH), Ok(()));
    target.vcpus += 1;
    assert!(ensure_target(&manifest, &target, ARCH).is_err());
    target.vcpus -= 1;
    target.memory_mib += 1;
    assert!(ensure_target(&manifest, &target, ARCH).is_err());
    target.memory_mib -= 1;
    target.network = Some(GuestNic { address: ipv4(10, 1, 0, 2), mac: "02:00:00:00:00:01".to_string() });
    assert!(ensure_target(&manifest, &target, ARCH).is_err());
}

#[test]
fn actual_devices_must_use_exact_managed_disks_and_supported_nics() {
    let spec = manifest().spec;
    let valid = config(&spec);
    assert_eq!(ensure_config(&valid, &spec), Ok(()));
    let mut changed = valid.clone();
    changed.vsock = JsonScalar::Other;
    assert!(ensure_config(&changed, &spec).is_err(), "vsock");
    let mut changed = valid.clone();
    changed.balloon = JsonScalar::Other;
    assert!(ensure_config(&changed, &spec).is_err(), "balloon");
    let mut changed = valid.clone();
    changed.pmem = Pmem::Devices;
    assert!(ensure_config(&changed, &spec).is_err(), "pmem");
    let mut changed = valid.clone();
    changed.drives = Some(vec![drive("rootfs", "/etc/shadow", false, true)]);
    assert!(ensure_config(&changed, &spec).is_err());
    let mut changed = valid.clone();
    changed.drives.as_mut().unwrap().push(drive("rootfs", "/resources/rootfs.ext4", false, true));
    assert!(ensure_config(&changed, &spec).is_err());
    let mut changed = valid.clone();
    changed.network_interfaces =
        Some(vec![NicConfig { iface_id: text("unexpected"), guest_mac: text("02:00:00:00:00:01") }]);
    assert!(ensure_config(&changed, &spec).is_err());
    let mut changed = valid;
    changed.drives.as_mut().unwrap().push(drive("seed", "/resources/seed.ext4", true, false));
    assert_eq!(ensure_config(&changed, &spec), Ok(()));
    changed.drives.as_mut().unwrap()[1].is_read_only = JsonScalar::Bool(false);
    assert!(ensure_config(&changed, &spec).is_err());
}

#[test]
fn snapshots_accept_only_the_assigned_web_terminal_device() {
    let mut manifest = manifest();
    manifest.spec.web_terminal = true;
    let mut actual = config(&manifest.spec);
    actual.vsock = JsonScalar::Other;
    actual.vsock_uds_path = text("/shell/vsock.sock");
    assert_eq!(ensure_config(&actual, &manifest.spec), Ok(()));
    actual.vsock_uds_path = text("/another.sock");
    assert!(ensure_config(&actual, &manifest.spec).is_err());
    let mut target = manifest.spec.clone();
    assert_eq!(ensure_target(&manifest, &target, ARCH), Ok(()));
    target.web_terminal = false;
    assert!(ensure_target(&manifest, &target, ARCH).is_err());
}

#[test]
fn every_target_refusal_names_its_reason() {
    let source = manifest();
    let mut t = source.spec.clone();
    t.mode = IsolationMode::Trusted;
    assert_eq!(ensure_target(&source, &t, ARCH), Err(TargetError::NotManagedJailed));
    let mut t = source.spec.clone();
    t.external_socket = true;
    assert_eq!(ensure_target(&source, &t, ARCH), Err(TargetError::NotManagedJailed));
    assert_eq!(ensure_target(&source, &source.spec, "aarch64"), Err(TargetError::Architecture));
    let mut proxied = manifest();
    proxied.egress_bootstrap = true;
    let mut t = source.spec.clone();
    t.egress_http_port = 8080;
    assert_eq!(ensure_target(&proxied, &t, ARCH), Err(TargetError::ProxyPort));
    assert_eq!(ensure_target(&source, &t, ARCH), Ok(()));
    let mut inline = manifest();
    inline.spec.inline_http_port = Some(8080);
    assert_eq!(ensure_target(&inline, &t, ARCH), Ok(()));
    let mut t = source.spec.clone();
    t.initrd = true;
    assert_eq!(ensure_target(&source, &t, ARCH), Err(TargetError::Initrd));
    let mut with_drives = manifest();
    with_drives.spec.drives = vec![
        DriveSpec { id: "data".to_string(), read_only: false },
        DriveSpec { id: "logs".to_string(), read_only: true },
    ];
    let mut t = source.spec.clone();
    t.drives = vec![
        DriveSpec { id: "logs".to_string(), read_only: true },
        DriveSpec { id: "data".to_string(), read_only: false },
    ];
    assert_eq!(ensure_target(&with_drives, &t, ARCH), Ok(()));
    t.drives[0].read_only = false;
    assert_eq!(ensure_target(&with_drives, &t, ARCH), Err(TargetError::Drives));
    let mut networked = manifest();
    networked.spec.network = Some(GuestNic { address: ipv4(192, 0, 2, 2), mac: "02:aa:00:00:00:02".to_string() });
    let mut t = networked.spec.clone();
    t.network.as_mut().unwrap().mac = "02:AA:00:00:00:02".to_string();
    assert_eq!(ensure_target(&networked, &t, ARCH), Ok(()));
    t.network.as_mut().unwrap().address = ipv4(192, 0, 2, 3);
    assert_eq!(ensure_target(&networked, &t, ARCH), Err(TargetError::NetworkAddress));
    t.network = None;
    assert_eq!(ensure_target(&networked, &t, ARCH), Err(TargetError::NetworkInterface));
}

#[test]
fn every_configuration_refusal_names_its_reason() {
    let mut spec = manifest().spec;
    let valid = config(&spec);
    let mut c = valid.clone();
    c.is_object = false;
    assert_eq!(ensure_config(&c, &spec), Err(ConfigError::InvalidConfiguration));
    let mut c = valid.clone();
    c.cpu_config = JsonScalar::Other;
    assert_eq!(ensure_config(&c, &spec), Err(ConfigError::UnmanagedCpuConfig));
    let mut c = valid.clone();
    c.memory_hotplug = JsonScalar::Other;
    assert_eq!(ensure_config(&c, &spec), Err(ConfigError::UnmanagedMemoryHotplug));
    let mut c = valid.clone();
    c.pmem = Pmem::NoDevices;
    assert_eq!(ensure_config(&c, &spec), Ok(()));
    let mut c = valid.clone();
    c.mem_size_mib = JsonScalar::Unsigned(256);
    assert_eq!(ensure_config(&c, &spec), Err(ConfigError::MachineMismatch));
    let mut c = valid.clone();
    c.smt = JsonScalar::Bool(true);
    assert_eq!(ensure_config(&c, &spec), Err(ConfigError::Smt));
    let mut c = valid.clone();
    c.huge_pages = text("2M");
    assert_eq!(ensure_config(&c, &spec), Err(ConfigError::HugePages));
    let mut c = valid.clone();
    c.kernel_image_path = text("/boot/vmlinuz");
    assert_eq!(ensure_config(&c, &spec), Err(ConfigError::KernelOutsideResources));
    let mut c = valid.clone();
    c.initrd_path = text("/resources/initrd");
    assert_eq!(ensure_config(&c, &spec), Err(ConfigError::UnexpectedInitrd));
    let mut c = valid.clone();
    c.drives = None;
    assert_eq!(ensure_config(&c, &spec), Err(ConfigError::MissingDrives));
    let mut c = valid.clone();
    c.drives = Some(vec![drive("data", "/resources/drive-data.img", false, false)]);
    assert_eq!(ensure_config(&c, &spec), Err(ConfigError::UnexpectedDrive));
    let mut c = valid.clone();
    c.drives.as_mut().unwrap()[0].drive_id = JsonScalar::Null;
    assert_eq!(ensure_config(&c, &spec), Err(ConfigError::MissingDriveId));
    let mut c = valid.clone();
    c.drives.as_mut().unwrap()[0].socket = text("/tmp/vhost.sock");
    assert_eq!(ensure_config(&c, &spec), Err(ConfigError::DiskMismatch));
    let mut c = valid.clone();
    c.network_interfaces = None;
    assert_eq!(ensure_config(&c, &spec), Err(ConfigError::MissingNetworkInterfaces));
    spec.initrd = true;
    assert_eq!(ensure_config(&valid, &spec), Err(ConfigError::InitrdOutsideResources));
    spec.initrd = false;
    spec.drives = vec![DriveSpec { id: "data".to_string(), read_only: true }];
    assert_eq!(ensure_config(&valid, &spec), Err(ConfigError::DiskCount));
    let mut c = valid.clone();
    c.drives.as_mut().unwrap().push(drive("data", "/resources/drive-data.img", true, false));
    assert_eq!(ensure_config(&c, &spec), Ok(()));
    spec.network = Some(GuestNic { address: ipv4(10, 0, 0, 2), mac: "02:AB:00:00:00:01".to_string() });
    c.network_interfaces = Some(vec![NicConfig { iface_id: text("eth0"), guest_mac: text("02:ab:00:00:00:01") }]);
    assert_eq!(ensure_config(&c, &spec), Ok(()));
    c.network_interfaces = Some(Vec::new());
    assert_eq!(ensure_config(&c, &spec), Err(ConfigError::NetworkInterfaceMismatch));
    spec.network = None;
    c.network_interfaces = Some(vec![NicConfig { iface_id: text("eth0"), guest_mac: text("02:ab:00:00:00:01") }]);
    assert_eq!(ensure_config(&c, &spec), Err(ConfigError::UnexpectedNetworkInterface));
}

#[test]
fn snapshot_of_a_vm_fits_the_vm_itself() {
    let mut source = manifest();
    source.spec.drives = vec![DriveSpec { id: "data".to_string(), read_only: false }];
    source.spec.network = Some(GuestNic { address: ipv4(10, 0, 0, 2), mac: "02:ab:00:00:00:01".to_string() });
    assert_eq!(ensure_target(&source, &source.spec, ARCH), Ok(()));
}

#[test]
fn restore_networks_compare_subnet_gateway_and_policy() {
    let saved = NetworkSpec {
        name: "source-network".to_string(),
        subnet: Subnet { address: ipv4(192, 0, 2, 0), prefix_len: 24 },
        gateway: ipv4(192, 0, 2, 1),
        policy: NetworkPolicy::FiremageOnly,
    };
    let mut current = saved.clone();
    current.name = "target-network".to_string();
    current.subnet.address = ipv4(192, 0, 2, 77);
    assert!(network_matches(&current, &saved));
    let mut changed = current.clone();
    changed.subnet.prefix_len = 25;
    assert!(!network_matches(&changed, &saved));
    let mut changed = current.clone();
    changed.gateway = ipv4(192, 0, 2, 254);
    assert!(!network_matches(&changed, &saved));
    let mut changed = current.clone();
    changed.policy = NetworkPolicy::Unrestricted;
    assert!(!network_matches(&changed, &saved));
    let mut host_saved = saved.clone();
    host_saved.policy = NetworkPolicy::HostOnly { address: ipv4(198, 51, 100, 10) };
    let mut host_current = current.clone();
    host_current.policy = NetworkPolicy::HostOnly { address: ipv4(198, 51, 100, 11) };
    assert!(!network_matches(&host_current, &host_saved));
}

#[test]
fn captures_pack_the_vm_files_in_order() {
    let extras = CaptureExtras { initrd: true, oci_init_version: false, egress_bootstrap: true };
    let mut spec = machine();
    spec.drives = vec![DriveSpec { id: "data".to_string(), read_only: false }];
    let mut devices = config(&spec);
    let names = capture_file_names(&extras, &devices, &spec.drives);
    assert_eq!(names, vec!["kernel", "rootfs.ext4", "initrd", "egress-bootstrap", "drive-data.img"]);
    devices.drives.as_mut().unwrap().push(drive("seed", "/resources/seed.ext4", true, false));
    let names = capture_file_names(&extras, &devices, &spec.drives);
    assert_eq!(
        names,
        vec!["kernel", "rootfs.ext4", "initrd", "egress-bootstrap", "seed.ext4", "drive-data.img"]
    );
}

#[test]
fn captures_respect_the_size_limit() {
    assert_eq!(check_capture_estimate(&[100, 200], 1, 300 + 1024 * 1024), Ok(()));
    assert_eq!(
        check_capture_estimate(&[100, 200], 1, 299 + 1024 * 1024),
        Err(CaptureError::TooLarge)
    );
    assert_eq!(check_capture_estimate(&[u64::MAX, 1], 0, u64::MAX), Err(CaptureError::SizeOverflow));
    assert_eq!(check_capture_estimate(&[u64::MAX], 1, u64::MAX), Err(CaptureError::TooLarge));
    assert_eq!(check_capture_total(10, 20, &[30], 60), Ok(()));
    assert_eq!(check_capture_total(10, 20, &[31], 60), Err(CaptureError::TooLarge));
    assert_eq!(check_capture_total(u64::MAX, 1, &[], u64::MAX), Err(CaptureError::SizeOverflow));
    assert_eq!(check_capture_total(1, 1, &[u64::MAX], u64::MAX), Err(CaptureError::SizeOverflow));
}

#[test]
fn failed_restores_are_never_reported_healthy() {
    let f = classify_restore_failure(true, true);
    assert_eq!(f, RestoreFailure::Failed);
    assert_eq!(f.vm_state(), VmState::Failed);
    assert!(!f.keeps_pid());
    let f = classify_restore_failure(true, false);
    assert_eq!(f, RestoreFailure::RollbackFailed);
    assert_eq!(f.vm_state(), VmState::Unknown);
    assert!(!f.keeps_pid());
    let f = classify_restore_failure(false, true);
    assert_eq!(f, RestoreFailure::ProcessRetained);
    assert_eq!(f.vm_state(), VmState::Unknown);
    assert!(f.keeps_pid());
}

#[test]
fn state_files_are_hashed_up_to_64_mib() {
    assert!(state_size_allowed(0));
    assert!(state_size_allowed(64 * 1024 * 1024));
    assert!(!state_size_allowed(64 * 1024 * 1024 + 1));
}

#[test]
fn only_paused_jailed_vms_are_captured_under_a_new_alias() {
    let aliases = vec!["nightly".to_string(), "base".to_string()];
    let alias = "weekly".to_string();
    assert_eq!(ensure_capture_allowed(&aliases, &alias, VmState::Paused, IsolationMode::Jailed), Ok(()));
    assert_eq!(
        ensure_capture_allowed(&aliases, &"base".to_string(), VmState::Paused, IsolationMode::Jailed),
        Err(CaptureRefusal::AliasTaken)
    );
    assert_eq!(
        ensure_capture_allowed(&aliases, &alias, VmState::Running, IsolationMode::Jailed),
        Err(CaptureRefusal::NotPaused)
    );
    assert_eq!(
        ensure_capture_allowed(&aliases, &alias, VmState::Paused, IsolationMode::Trusted),
        Err(CaptureRefusal::NotJailed)
    );
    assert!(tap_matches(Some("fm-1a2b"), "fm-1a2b"));
    assert!(!tap_matches(Some("tap0"), "fm-1a2b"));
    assert!(!tap_matches(None, "fm-1a2b"));
}

#[test]
fn failed_restore_errors_name_what_was_left_behind() {
    assert_eq!(RestoreFailure::Failed.recorded_error("boom", "x"), "boom");
    assert_eq!(RestoreFailure::Failed.reported_error("boom", "x", "/b"), "boom");
    assert_eq!(
        RestoreFailure::RollbackFailed.recorded_error("boom", "disk busy"),
        "boom; resource rollback failed: disk busy"
    );
    assert_eq!(
        RestoreFailure::RollbackFailed.reported_error("boom", "disk busy", "/b"),
        "boom; resource rollback failed: disk busy"
    );
    assert_eq!(RestoreFailure::ProcessRetained.recorded_error("boom", "x"), "boom");
    assert_eq!(
        RestoreFailure::ProcessRetained.reported_error("boom", "x", "/vm/restore-backup"),
        "boom; process cleanup failed, original resources retained at /vm/restore-backup"
    );
}

#[test]
fn restored_seed_disk_must_match_the_bundle() {
    let spec = machine();
    let mut c = config(&spec);
    assert!(restored_seed_matches(&c, false));
    assert!(!restored_seed_matches(&c, true));
    c.drives.as_mut().unwrap().push(drive("seed", "/resources/seed.ext4", true, false));
    assert!(restored_seed_matches(&c, true));
    assert!(!restored_seed_matches(&c, false));
    c.drives = None;
    assert!(restored_seed_matches(&c, false));
}

#[test]
fn library_snapshots_restore_only_when_trusted_and_intact() {
    assert_eq!(check_library_snapshot(false, "ab", "ab"), Err(LibraryError::Untrusted));
    assert_eq!(check_library_snapshot(true, "ab", "ac"), Err(LibraryError::IntegrityFailed));
    assert_eq!(check_library_snapshot(true, "ab", "ab"), Ok(()));
    assert_eq!(check_library_manifest("{\"a\":1}", "{\"a\":1}"), Ok(()));
    assert_eq!(check_library_manifest("{\"a\":1}", "{\"a\":2}"), Err(LibraryError::ManifestChanged));
}

#[test]
fn deleting_a_vm_with_its_snapshots_selects_only_its_own() {
    let rows = vec![
        ("s1".to_string(), Some("vm-a".to_string())),
        ("s2".to_string(), None),
        ("s3".to_string(), Some("vm-b".to_string())),
        ("s4".to_string(), Some("vm-a".to_string())),
    ];
    assert_eq!(snapshots_of_vm(&rows, "vm-a"), vec!["s1".to_string(), "s4".to_string()]);
    assert_eq!(snapshots_of_vm(&rows, "vm-c"), Vec::<String>::new());
}

fn run(results: &[bool]) -> RestoreStage {
    let mut stage = RestoreStage::Checks;
    for ok in results {
        stage = next_restore_stage(stage, *ok);
    }
    stage
}

#[test]
fn restores_check_first_and_roll_back_only_after_stopping() {
    assert_eq!(run(&[false]), RestoreStage::Done(RestoreOutcome::Refused));
    assert_eq!(run(&[true, false]), RestoreStage::Done(RestoreOutcome::Refused));
    assert_eq!(run(&[true, true, true]), RestoreStage::Done(RestoreOutcome::Restored));
    assert_eq!(run(&[true, true, false, false]), RestoreStage::Done(RestoreOutcome::Failed(RestoreFailure::ProcessRetained)));
    assert_eq!(run(&[true, true, false, true, true]), RestoreStage::Done(RestoreOutcome::Failed(RestoreFailure::Failed)));
    assert_eq!(run(&[true, true, false, true, false]), RestoreStage::Done(RestoreOutcome::Failed(RestoreFailure::RollbackFailed)));
    assert_eq!(run(&[true, true, true, false]), RestoreStage::Done(RestoreOutcome::Restored));
}
