use firemage_runtime::catalog_alias::{assign_aliases, available_alias, available_alias_at, truncate};

fn texts(v: &[&str]) -> Vec<String> {
    v.iter().map(|s| s.to_string()).collect()
}

#[test]
fn basename_and_first_free_suffix_are_stable() {
    let mut used: Vec<String> = Vec::new();
    assert_eq!(available_alias("/catalog/vmlinux", &used).unwrap(), "vmlinux");
    used.extend(texts(&["vmlinux", "vmlinux-1", "vmlinux-3"]));
    assert_eq!(available_alias("vmlinux", &used).unwrap(), "vmlinux-2");
}

#[test]
fn suffixes_fit_the_alias_limit_at_utf8_boundaries() {
    let filename = "é".repeat(100);
    let base = available_alias(&filename, &[]).unwrap();
    assert_eq!(base.len(), 128);
    let used = vec![base];
    let next = available_alias(&filename, &used).unwrap();
    assert_eq!(next.len(), 128);
    assert!(next.ends_with("-1"));
}

#[test]
fn timestamp_follows_the_2048th_suffix_and_avoids_timestamp_collisions() {
    let now = "2026-09-11T12:34:56.123456789Z"
        .parse::<chrono::DateTime<chrono::Utc>>()
        .unwrap();
    let (secs, nanos) = (now.timestamp(), now.timestamp_subsec_nanos());
    let mut used = texts(&["kernel"]);
    used.extend((1..2048).map(|number| format!("kernel-{number}")));
    assert_eq!(available_alias_at("kernel", &used, secs, nanos).unwrap(), "kernel-2048");
    used.push("kernel-2048".into());
    assert_eq!(
        available_alias_at("kernel", &used, secs, nanos).unwrap(),
        "20260911T123456.123456789Z"
    );
    used.push("20260911T123456.123456789Z".into());
    assert_eq!(
        available_alias_at("kernel", &used, secs, nanos).unwrap(),
        "20260911T123456.123456790Z"
    );
}

#[test]
fn blank_and_separator_only_names_fall_back_to_file() {
    assert_eq!(available_alias("  ", &[]).unwrap(), "file");
    assert_eq!(available_alias("dir\\", &[]).unwrap(), "file");
    assert_eq!(available_alias("a/b\\ c.img ", &[]).unwrap(), "c.img");
}

#[test]
fn truncation_stops_at_a_character_boundary() {
    assert_eq!(truncate("héllo", 2), "h");
    assert_eq!(truncate("héllo", 3), "hé");
    assert_eq!(truncate("abc", 10), "abc");
}

#[test]
fn assigned_aliases_never_repeat() {
    let used = texts(&["vmlinux"]);
    let files = texts(&["/a/vmlinux", "/b/vmlinux", "initrd", "/c/vmlinux"]);
    let chosen: Vec<String> = assign_aliases(&files, &used).into_iter().map(Option::unwrap).collect();
    assert_eq!(chosen, texts(&["vmlinux-1", "vmlinux-2", "initrd", "vmlinux-3"]));
}

#[test]
fn discovered_files_get_their_plain_or_least_free_numbered_alias() {
    let used = texts(&["config.json", "config.json-2"]);
    let files = texts(&["/srv/assets/config.json", "manual.txt", "config.json"]);
    let chosen = assign_aliases(&files, &used);
    assert_eq!(
        chosen,
        vec![Some("config.json-1".to_string()), Some("manual.txt".to_string()), Some("config.json-3".to_string())]
    );
}
