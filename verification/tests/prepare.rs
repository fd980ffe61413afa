use firemage_runtime::prepare::{boot_argument_text, is_preparation_required, netmask_of, prepared_devices};
use firemage_runtime::snapshots::{DriveSpec, GuestNic, JsonScalar, MachineSpec, ensure_config};
use firemage_runtime::addressing::ipv4;
use firemage_runtime::egress::IsolationMode;

fn machine() -> MachineSpec {
    MachineSpec {
        mode: IsolationMode::Jailed,
        external_socket: false,
        web_terminal: false,
        vcpus: 2,
        memory_mib: 512,
        initrd: true,
        drives: vec![
            DriveSpec { id: "data".to_string(), read_only: false },
            DriveSpec { id: "ro".to_string(), read_only: true },
        ],
        network: Some(GuestNic { address: ipv4(10, 0, 0, 2), mac: "02:ab:cd:ef:00:01".to_string() }),
        egress_http_port: 3128,
        inline_http_port: None,
        egress_policy: false,
    }
}

#[test]
fn netmasks_follow_prefix_lengths() {
    assert_eq!(netmask_of(0), 0);
    assert_eq!(netmask_of(24), ipv4(255, 255, 255, 0));
    assert_eq!(netmask_of(30), ipv4(255, 255, 255, 252));
    assert_eq!(netmask_of(32), u32::MAX);
}

#[test]
fn kernel_command_line_adds_seed_init_and_address() {
    assert_eq!(boot_argument_text("console=ttyS0", false, false, None), "console=ttyS0");
    assert_eq!(
        boot_argument_text(
            "console=ttyS0",
            true,
            true,
            Some((ipv4(10, 0, 0, 2), ipv4(10, 0, 0, 1), 24))
        ),
        "console=ttyS0 firemage.seed=1 init=/firemage-init ip=10.0.0.2::10.0.0.1:255.255.255.0::eth0:off"
    );
}

#[test]
fn prepared_jailed_devices_pass_the_snapshot_check() {
    let spec = machine();
    for seed in [false, true] {
        let config = prepared_devices(&spec, seed, "/resources");
        assert_eq!(ensure_config(&config, &spec), Ok(()));
        assert!(!is_preparation_required(&config));
    }
    let host = prepared_devices(&spec, false, "/var/lib/firemage/vms/a");
    assert!(ensure_config(&host, &spec).is_err());
    match &host.kernel_image_path {
        JsonScalar::Text(p) => assert_eq!(p, "/var/lib/firemage/vms/a/kernel"),
        _ => panic!("kernel path"),
    }
}

#[test]
fn preparation_is_needed_without_kernel_or_root_disk() {
    let spec = machine();
    let mut config = prepared_devices(&spec, false, "/resources");
    config.kernel_image_path = JsonScalar::Text(String::new());
    assert!(is_preparation_required(&config));
    let mut config = prepared_devices(&spec, false, "/resources");
    config.drives.as_mut().unwrap().remove(0);
    assert!(is_preparation_required(&config));
    let mut config = prepared_devices(&spec, false, "/resources");
    config.drives = None;
    assert!(is_preparation_required(&config));
}

#[test]
fn metadata_service_needs_a_network_and_metadata() {
    assert!(firemage_runtime::prepare::configures_metadata(true, true));
    assert!(!firemage_runtime::prepare::configures_metadata(false, true));
    assert!(!firemage_runtime::prepare::configures_metadata(true, false));
}
