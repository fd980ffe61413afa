use firemage_runtime::provenance::{
    ProvenanceError, ProvenanceRecord, RecordPart, ensure_provenance, legacy_network_name,
};

fn object(key: Option<&str>, rest: &str) -> RecordPart {
    RecordPart::Object { key: key.map(str::to_string), rest: rest.to_string() }
}

fn record(version: Option<u64>, network: Option<&str>, name: &str) -> ProvenanceRecord {
    ProvenanceRecord {
        version,
        body: "{\"memory\":\"/m\",\"state\":\"/s\",\"vm_id\":\"vm\"}".to_string(),
        attachment: match network {
            Some(n) => object(Some(n), "{\"address\":\"192.0.2.2\"}"),
            None => RecordPart::Null,
        },
        definition: match network {
            Some(_) => object(Some(name), "{\"gateway\":\"192.0.2.1\"}"),
            None => RecordPart::Null,
        },
    }
}

#[test]
fn managed_snapshot_rejects_tampering_and_changed_network() {
    let expected = record(Some(2), Some("net-uuid"), "renamed");
    let saved = record(Some(2), Some("net-uuid"), "original");
    assert_eq!(legacy_network_name(&saved), Ok(None));
    assert_eq!(ensure_provenance(&saved, &expected, None), Ok(()));
    let mut tampered = saved.clone();
    tampered.body = "{\"vm_id\":\"other\"}".to_string();
    assert_eq!(ensure_provenance(&tampered, &expected, None), Err(ProvenanceError::Changed));
    let mut moved = saved.clone();
    moved.attachment = object(Some("other-uuid"), "{\"address\":\"192.0.2.2\"}");
    assert_eq!(ensure_provenance(&moved, &expected, None), Err(ProvenanceError::Changed));
    let mut regated = saved.clone();
    regated.definition = object(Some("original"), "{\"gateway\":\"192.0.2.254\"}");
    assert_eq!(ensure_provenance(&regated, &expected, None), Err(ProvenanceError::Changed));
    let mut older = saved;
    older.version = Some(1);
    assert_eq!(ensure_provenance(&older, &expected, None), Err(ProvenanceError::Changed));
}

#[test]
fn legacy_names_rebind_only_to_the_attached_network() {
    let expected = record(Some(2), Some("net-uuid"), "lab");
    let legacy = record(None, Some("lab"), "lab");
    assert_eq!(legacy_network_name(&legacy), Ok(Some("lab".to_string())));
    assert_eq!(ensure_provenance(&legacy, &expected, Some("net-uuid")), Ok(()));
    assert_eq!(ensure_provenance(&legacy, &expected, None), Err(ProvenanceError::NetworkRenamed));
    assert_eq!(
        ensure_provenance(&legacy, &expected, Some("another-uuid")),
        Err(ProvenanceError::ForeignNetwork)
    );
    let mismatched = record(None, Some("lab"), "other");
    assert_eq!(legacy_network_name(&mismatched), Err(ProvenanceError::NameMismatch));
    let mut malformed = legacy.clone();
    malformed.attachment = RecordPart::Other("{\"network\":5}".to_string());
    assert_eq!(legacy_network_name(&malformed), Err(ProvenanceError::InvalidReference));
}

#[test]
fn legacy_snapshot_without_a_network_remains_compatible() {
    let expected = record(Some(2), None, "");
    let legacy = record(None, None, "");
    assert_eq!(ensure_provenance(&legacy, &expected, None), Ok(()));
}

#[test]
fn a_recorded_snapshot_restores_while_nothing_changed() {
    let saved = record(Some(2), Some("net-uuid"), "private");
    assert_eq!(ensure_provenance(&saved, &saved, None), Ok(()));
    assert_eq!(ensure_provenance(&saved, &saved, Some("net-uuid")), Ok(()));
    let mut other_address = saved.clone();
    other_address.attachment = object(Some("net-uuid"), "{\"address\":\"192.0.2.3\"}");
    assert_eq!(ensure_provenance(&saved, &other_address, None), Err(ProvenanceError::Changed));
}
