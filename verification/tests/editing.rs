use firemage_runtime::editing::{
    EditDrive, EditError, edited_drive_ids, ensure_drives_kept, ensure_edit_allowed, ensure_rootfs_kept,
};
use firemage_runtime::lifecycle::VmState;

fn drive(id: &str, definition: &str) -> EditDrive {
    EditDrive { id: id.to_string(), definition: definition.to_string() }
}

#[test]
fn edits_need_a_vm_at_rest_with_its_socket() {
    assert!(ensure_edit_allowed(VmState::Stopped, false, None, None).is_ok());
    assert!(matches!(
        ensure_edit_allowed(VmState::Running, false, None, None),
        Err(EditError::NotAtRest)
    ));
    assert!(matches!(
        ensure_edit_allowed(VmState::Failed, true, None, None),
        Err(EditError::NotAtRest)
    ));
    assert!(matches!(
        ensure_edit_allowed(VmState::Defined, false, Some("/run/a.sock"), Some("/run/b.sock")),
        Err(EditError::SocketChanged)
    ));
    assert!(ensure_edit_allowed(VmState::Defined, false, Some("/run/a.sock"), Some("/run/a.sock")).is_ok());
}

#[test]
fn existing_root_disks_pin_their_source() {
    assert!(ensure_rootfs_kept(false, "{\"a\":1}", "{\"b\":2}").is_ok());
    assert!(ensure_rootfs_kept(true, "{\"a\":1}", "{\"a\":1}").is_ok());
    assert!(matches!(
        ensure_rootfs_kept(true, "{\"a\":1}", "{\"b\":2}"),
        Err(EditError::RootfsReplaced)
    ));
}

#[test]
fn existing_drive_images_pin_their_drives() {
    let previous = vec![drive("data", "d1"), drive("logs", "l1")];
    let next = vec![drive("logs", "l2"), drive("cache", "c1")];
    let ids = edited_drive_ids(&previous, &next);
    assert_eq!(ids, vec!["data", "logs", "cache"]);
    assert!(ensure_drives_kept(&previous, &next, &ids, &[false, false, true]).is_err());
    assert!(ensure_drives_kept(&previous, &next, &ids, &[false, false, false]).is_ok());
    match ensure_drives_kept(&previous, &next, &ids, &[true, true, false]) {
        Err(EditError::DriveReplaced(id)) => assert_eq!(id, "data"),
        other => panic!("{other:?}"),
    }
    let same = vec![drive("data", "d1"), drive("logs", "l1")];
    assert!(ensure_drives_kept(&previous, &same, &edited_drive_ids(&previous, &same), &[true, true]).is_ok());
}
