use firemage_runtime::assets::{
    BootFile, BudgetError, FileEncoding, alias_available, asset_vm_count, attachment_boot_file, check_boot_budget,
    checked_sum, is_content_intact, kernel_vm_count, secret_boot_file, seed_file, within_upload_limit,
};

fn inline(content: &str, encoding: FileEncoding) -> BootFile {
    BootFile {
        path: "file".to_string(),
        content: content.to_string(),
        encoding,
        destination: None,
        uid: 0,
        gid: 0,
        mode: 0o644,
    }
}

#[test]
fn attachments_are_seeded_in_base64() {
    let f = attachment_boot_file(3, "0b5c", b"hello", "/etc/app.conf", 1000, 1000, 0o640);
    assert_eq!(f.path, "firemage/attachments/3-0b5c");
    assert_eq!(f.content, "aGVsbG8=");
    assert_eq!(f.encoding, FileEncoding::Base64);
    assert_eq!(f.destination.as_deref(), Some("/etc/app.conf"));
    assert_eq!((f.uid, f.gid, f.mode), (1000, 1000, 0o640));
    let s = secret_boot_file(0, "token".to_string(), "/run/token", 0, 0, 0o400);
    assert_eq!(s.path, "firemage/secrets/0");
    assert_eq!(s.content, "token");
    assert_eq!(s.encoding, FileEncoding::Utf8);
    let g = seed_file("firemage/env.sh", "export A='b'\n".to_string());
    assert_eq!(g.path, "firemage/env.sh");
    assert!(g.destination.is_none());
    assert_eq!((g.uid, g.gid, g.mode), (0, 0, 0o600));
}

#[test]
fn full_size_inputs_fit_the_boot_budget_exactly() {
    let files = vec![inline("héllo", FileEncoding::Utf8), inline("aGVsbG8=", FileEncoding::Base64)];
    assert_eq!(check_boot_budget(&[10, 20], &files, Some("#!"), 1000), Ok(10 + 20 + 6 + 6 + 2));
    assert_eq!(check_boot_budget(&[10, 20], &files, Some("#!"), 44), Ok(44));
    assert_eq!(check_boot_budget(&[10, 20], &files, Some("#!"), 43), Err(BudgetError::Exceeds));
    assert_eq!(check_boot_budget(&[u64::MAX, 1], &[], None, u64::MAX), Err(BudgetError::TooLarge));
    assert_eq!(check_boot_budget(&[], &[inline("abcde", FileEncoding::Base64)], None, 100), Ok(6));
}

#[test]
fn sums_are_checked() {
    assert_eq!(checked_sum(&[]), Some(0));
    assert_eq!(checked_sum(&[1, 2, 3]), Some(6));
    assert_eq!(checked_sum(&[u64::MAX, 0]), Some(u64::MAX));
    assert_eq!(checked_sum(&[u64::MAX, 1]), None);
}

#[test]
fn stored_content_is_checked_against_size_and_digest() {
    let digest = "2cf24dba5fb0a30e26e83b2ac5b9e29e1b161e5c1fa7425e73043362938b9824";
    assert!(is_content_intact(b"hello", 5, 5, digest));
    assert!(!is_content_intact(b"hello", 4, 5, digest));
    assert!(!is_content_intact(b"hello", 5, 4, digest));
    assert!(!is_content_intact(b"hello", 5, -1, digest));
    assert!(!is_content_intact(b"hellO", 5, 5, digest));
    assert!(within_upload_limit(5, 5));
    assert!(!within_upload_limit(6, 5));
}

#[test]
fn references_count_each_vm_once() {
    let vms = vec![
        vec!["a".to_string(), "a".to_string()],
        vec!["b".to_string()],
        vec!["a".to_string(), "b".to_string()],
    ];
    assert_eq!(asset_vm_count(&vms, &"a".to_string()), 2);
    assert_eq!(asset_vm_count(&vms, &"c".to_string()), 0);
    let kernels = vec![Some("vmlinux".to_string()), None, Some("vmlinux".to_string()), Some("other".to_string())];
    assert_eq!(kernel_vm_count(&kernels, &"vmlinux".to_string()), 2);
}

#[test]
fn aliases_are_unique_per_owner() {
    let rows = vec![("id-1".to_string(), "kernel".to_string()), ("id-2".to_string(), "rootfs".to_string())];
    assert!(!alias_available(&rows, "kernel", None));
    assert!(alias_available(&rows, "initrd", None));
    assert!(alias_available(&rows, "kernel", Some("id-1")));
    assert!(!alias_available(&rows, "kernel", Some("id-2")));
}

#[test]
fn discovered_assets_are_read_by_their_disk_name() {
    assert_eq!(firemage_runtime::assets::asset_storage_name("7f1c", Some("manual.txt")), "manual.txt");
    assert_eq!(firemage_runtime::assets::asset_storage_name("7f1c", None), "7f1c");
}
