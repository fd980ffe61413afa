use firemage_runtime::naming::{KernelAsset, kernel_name};
use firemage_runtime::naming::is_firecracker_executable;
use firemage_runtime::naming::resolve_snapshot_files;
use firemage_runtime::naming::{
    KernelPathError, SnapshotPathError, diagnostics_backup_name, is_snapshot_file_name, is_within,
    jailed_snapshot_paths, join_path, kernel_file_name, managed_socket_path, new_uuid_text,
    resolve_snapshot_location, snapshot_name_stem, snapshot_record_name, uuid_text_of,
};

#[test]
fn uuid_text_is_hyphenated_lower_case() {
    let bytes: [u8; 16] = [
        0x67, 0xe5, 0x50, 0x44, 0x10, 0xb1, 0x42, 0x6f, 0x92, 0x47, 0xbb, 0x68, 0x0e, 0x5f, 0xe0, 0xc8,
    ];
    assert_eq!(uuid_text_of(&bytes), "67e55044-10b1-426f-9247-bb680e5fe0c8");
    let fresh = new_uuid_text().expect("random bytes");
    assert_eq!(fresh.len(), 36);
    assert_eq!(uuid::Uuid::parse_str(&fresh).unwrap().get_version_num(), 4);
}

#[test]
fn paths_join_like_path_join() {
    assert_eq!(join_path("/data", "sockets"), "/data/sockets");
    assert_eq!(join_path("/data/", "sockets"), "/data/sockets");
    assert_eq!(join_path("", "sockets"), "sockets");
    let socket = managed_socket_path("/var/lib/firemage").expect("random bytes");
    assert!(socket.starts_with("/var/lib/firemage/sockets/"));
    assert!(socket.ends_with(".sock"));
    assert_eq!(socket.len(), "/var/lib/firemage/sockets/".len() + 36 + ".sock".len());
}

#[test]
fn jailed_snapshot_files_share_one_fresh_name() {
    let (state, memory) = jailed_snapshot_paths().expect("random bytes");
    assert!(state.starts_with("/snapshots/") && state.ends_with(".state"));
    assert!(memory.starts_with("/snapshots/") && memory.ends_with(".memory"));
    assert_eq!(state.trim_end_matches(".state"), memory.trim_end_matches(".memory"));
}

#[test]
fn diagnostics_and_records_have_stable_names() {
    assert_eq!(
        diagnostics_backup_name("firecracker.log", "abc"),
        "firecracker.log.before-restore-abc"
    );
    assert_eq!(
        snapshot_record_name("abc"),
        "ba7816bf8f01cfea414140de5dae2223b00361a396177a9cb410ff61f20015ad.json"
    );
}

#[test]
fn snapshot_file_names_are_plain() {
    assert!(is_snapshot_file_name("vm-1.state"));
    assert!(is_snapshot_file_name("a_b-c.9"));
    assert!(!is_snapshot_file_name("."));
    assert!(!is_snapshot_file_name(".."));
    assert!(!is_snapshot_file_name("a/b"));
    assert!(!is_snapshot_file_name("é"));
    assert!(is_snapshot_file_name(&"a".repeat(128)));
    assert!(!is_snapshot_file_name(&"a".repeat(129)));
}

#[test]
fn snapshot_name_stems_drop_json_and_extensions() {
    assert_eq!(snapshot_name_stem("daily.state"), "daily");
    assert_eq!(snapshot_name_stem("daily.json"), "daily");
    assert_eq!(snapshot_name_stem("daily.v2.json"), "daily");
    assert_eq!(snapshot_name_stem(".json"), "");
    assert_eq!(snapshot_name_stem("plain"), "plain");
}

#[test]
fn managed_snapshots_reject_foreign_paths_and_traversal() {
    let base = "/var/lib/firemage/vms/a/snapshots";
    assert_eq!(resolve_snapshot_location(base, "daily.state").unwrap(), format!("{base}/daily.state"));
    assert_eq!(
        resolve_snapshot_location(base, &format!("{base}/daily.state")).unwrap(),
        format!("{base}/daily.state")
    );
    assert_eq!(
        resolve_snapshot_location(base, &format!("{base}//./daily.state")).unwrap(),
        format!("{base}/daily.state")
    );
    assert_eq!(resolve_snapshot_location(base, "/tmp/daily.state"), Err(SnapshotPathError::ForeignDirectory));
    assert_eq!(
        resolve_snapshot_location(base, &format!("{base}/../snapshots/daily.state")),
        Err(SnapshotPathError::ForeignDirectory)
    );
    assert_eq!(resolve_snapshot_location(base, "sub/daily.state"), Err(SnapshotPathError::HasDirectories));
    assert_eq!(resolve_snapshot_location(base, "./daily.state"), Err(SnapshotPathError::HasDirectories));
    assert_eq!(resolve_snapshot_location(base, ".."), Err(SnapshotPathError::InvalidName));
    assert_eq!(resolve_snapshot_location(base, "daily state"), Err(SnapshotPathError::InvalidName));
    assert_eq!(resolve_snapshot_location(base, ""), Err(SnapshotPathError::InvalidName));
}

#[test]
fn host_paths_compare_by_component() {
    assert!(is_within("/srv/assets/kernel", "/srv/assets"));
    assert!(is_within("/srv/assets", "/srv/assets/"));
    assert!(!is_within("/srv/assets-old/kernel", "/srv/assets"));
    assert!(is_within("/anything", "/"));
    assert!(!is_within("/srv", "/srv/assets"));
}

#[test]
fn local_kernels_come_from_the_kernel_directory() {
    assert_eq!(kernel_file_name("/var/lib/firemage/kernels/vmlinux", "/var/lib/firemage/kernels").unwrap(), "vmlinux");
    assert_eq!(
        kernel_file_name("/tmp/vmlinux", "/var/lib/firemage/kernels"),
        Err(KernelPathError::OutsideKernelDir)
    );
    assert_eq!(
        kernel_file_name("/var/lib/firemage/kernels/sub/vmlinux", "/var/lib/firemage/kernels"),
        Err(KernelPathError::OutsideKernelDir)
    );
    assert_eq!(
        kernel_file_name("/var/lib/firemage/kernels/..", "/var/lib/firemage/kernels"),
        Err(KernelPathError::InvalidFileName)
    );
    assert_eq!(kernel_file_name("vmlinux", "/var/lib/firemage/kernels"), Err(KernelPathError::OutsideKernelDir));
}

#[test]
fn snapshot_state_and_memory_must_be_different_files() {
    let base = "/var/lib/firemage/vms/a/snapshots";
    assert_eq!(
        resolve_snapshot_files(base, "daily.state", "daily.memory"),
        Ok((format!("{base}/daily.state"), format!("{base}/daily.memory")))
    );
    assert_eq!(
        resolve_snapshot_files(base, "daily.state", &format!("{base}/daily.state")),
        Err(SnapshotPathError::SameFile)
    );
    assert_eq!(
        resolve_snapshot_files(base, "daily.state", "sub/daily.memory"),
        Err(SnapshotPathError::HasDirectories)
    );
    assert_eq!(
        resolve_snapshot_files(base, "/tmp/x.state", "daily.memory"),
        Err(SnapshotPathError::ForeignDirectory)
    );
}

#[test]
fn jailed_vms_need_an_executable_named_firecracker() {
    assert!(is_firecracker_executable("/usr/bin/firecracker"));
    assert!(is_firecracker_executable("firecracker"));
    assert!(is_firecracker_executable("/opt/fc/firecracker/"));
    assert!(!is_firecracker_executable("/usr/bin/firecracker-v1.7"));
    assert!(!is_firecracker_executable("/usr/bin/.."));
    assert!(!is_firecracker_executable(""));
}

#[test]
fn kernels_are_selected_from_the_catalog_or_its_directory() {
    let dir = "/var/lib/firemage/kernels";
    assert_eq!(kernel_name(&KernelAsset::Kernel("vmlinux-6.1".to_string()), dir), Ok("vmlinux-6.1".to_string()));
    assert_eq!(kernel_name(&KernelAsset::Local(format!("{dir}/vmlinux")), dir), Ok("vmlinux".to_string()));
    assert_eq!(kernel_name(&KernelAsset::Local("/tmp/vmlinux".to_string()), dir), Err(KernelPathError::OutsideKernelDir));
    assert_eq!(kernel_name(&KernelAsset::Other, dir), Err(KernelPathError::NotImported));
}

#[test]
fn deleting_a_vm_removes_its_files_and_recovery_marker() {
    let paths = firemage_runtime::naming::vm_deletion_paths("/data", "vm1", "/data/sockets/x.sock", true);
    assert_eq!(
        paths,
        vec![
            "/data/jailer/firecracker/vm1/root".to_string(),
            "/data/jailer-identities/vm1".to_string(),
            "/data/vms/vm1".to_string(),
            "/data/egress-pending/vm1".to_string(),
            "/data/sockets/x.sock".to_string(),
        ]
    );
    assert_eq!(firemage_runtime::naming::vm_deletion_paths("/data", "vm1", "/run/fc.sock", false).len(), 4);
}
