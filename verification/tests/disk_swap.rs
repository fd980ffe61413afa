use firemage_runtime::disk_swap::{DiskSwap, SwapStep, bundle_resources, managed_resources};

fn texts(v: &[&str]) -> Vec<String> {
    v.iter().map(|s| s.to_string()).collect()
}

fn name(step: &SwapStep) -> (bool, String) {
    match step {
        SwapStep::Backup(n) => (false, n.clone()),
        SwapStep::Install(n) => (true, n.clone()),
    }
}

#[test]
fn bundle_resources_leave_out_state_and_memory() {
    let files = texts(&["kernel", "memory.bin", "rootfs.ext4", "state.bin"]);
    assert_eq!(bundle_resources(&files), texts(&["kernel", "rootfs.ext4"]));
    let names = texts(&["kernel", "rootfs.ext4", "seed.ext4"]);
    assert_eq!(
        managed_resources(&names),
        texts(&["kernel", "rootfs.ext4", "seed.ext4", "initrd", "oci-init-version", "egress-bootstrap"])
    );
}

#[test]
fn swap_backs_up_present_files_before_installing() {
    let files = texts(&["state.bin", "memory.bin", "kernel", "rootfs.ext4"]);
    let (_, names, managed) = DiskSwap::install(&files);
    assert_eq!(names, texts(&["kernel", "rootfs.ext4"]));
    let present: Vec<bool> = managed.iter().map(|m| m == "rootfs.ext4" || m == "seed.ext4").collect();
    let steps: Vec<(bool, String)> = DiskSwap::plan(&managed, &present, &names).iter().map(name).collect();
    assert_eq!(
        steps,
        vec![
            (false, "rootfs.ext4".to_string()),
            (false, "seed.ext4".to_string()),
            (true, "kernel".to_string()),
            (true, "rootfs.ext4".to_string()),
        ]
    );
}

#[test]
fn rollback_removes_installed_files_and_restores_backups_last_first() {
    let files = texts(&["kernel", "rootfs.ext4"]);
    let (mut swap, names, managed) = DiskSwap::install(&files);
    let present: Vec<bool> = managed.iter().map(|m| m == "rootfs.ext4" || m == "seed.ext4").collect();
    let steps = DiskSwap::plan(&managed, &present, &names);
    for step in &steps[..3] {
        swap.record(step);
    }
    let (remove, restore) = swap.rollback();
    assert_eq!(remove, texts(&["kernel"]));
    assert_eq!(restore, texts(&["seed.ext4", "rootfs.ext4"]));
    let (remove, restore) = swap.rollback();
    assert!(remove.is_empty() && restore.is_empty());
}

#[test]
fn interrupted_backups_roll_back_what_moved() {
    let files = texts(&["kernel", "rootfs.ext4"]);
    let (mut swap, names, managed) = DiskSwap::install(&files);
    let present = vec![true; managed.len()];
    let steps = DiskSwap::plan(&managed, &present, &names);
    swap.record(&steps[0]);
    let (remove, restore) = swap.rollback();
    assert!(remove.is_empty());
    assert_eq!(restore, texts(&["kernel"]));
}
