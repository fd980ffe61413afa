use firemage_runtime::locks::lock_order;

#[test]
fn shared_changes_lock_each_vm_once_in_id_order() {
    let ids: Vec<String> = ["b", "a", "c", "a", "b"].iter().map(|s| s.to_string()).collect();
    assert_eq!(lock_order(&ids), vec!["a", "b", "c"]);
    assert!(lock_order(&[]).is_empty());
    let ids: Vec<String> = ["vm-10", "vm-9", "vm-1"].iter().map(|s| s.to_string()).collect();
    assert_eq!(lock_order(&ids), vec!["vm-1", "vm-10", "vm-9"]);
}
