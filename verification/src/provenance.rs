//! Snapshot provenance: the record a managed VM keeps of each snapshot it
//! took, and the check that a restore uses that VM's unchanged snapshot on
//! the same network, including records written before records had a
//! version.
use vstd::prelude::*;

verus! {

/// The `network.attachment` or `network.definition` member of a record.
/// An object is held as its key (the attachment's `network` reference, the
/// definition's `name`; `None` when absent) and the canonical text of its
/// other fields. `null` is `Null`; any other value, and an attachment whose
/// `network` is not a string, is `Other` with its canonical text. A
/// definition's `name` that is not a string is held as `None`.
#[derive(Clone, Debug)]
pub enum RecordPart {
    Null,
    Object { key: Option<String>, rest: String },
    Other(String),
}

/// A provenance record: its `version` if any, the canonical text of all
/// its other fields but `network`, and the network's attachment and
/// definition.
#[derive(Clone, Debug)]
pub struct ProvenanceRecord {
    pub version: Option<u64>,
    pub body: String,
    pub attachment: RecordPart,
    pub definition: RecordPart,
}

/// Why a restore refuses a recorded snapshot.
#[derive(Clone, Copy, Debug, PartialEq, Eq, Structural)]
pub enum ProvenanceError {
    /// A legacy record's attachment does not name its network.
    InvalidReference,
    /// A legacy record's network name differs from its definition's.
    NameMismatch,
    /// The legacy record's network no longer exists under its name.
    NetworkRenamed,
    /// The legacy record's network is not the one the VM is attached to.
    ForeignNetwork,
    /// The snapshot or the network configuration changed.
    Changed,
}

pub open spec fn is_legacy(saved: ProvenanceRecord) -> bool {
    saved.version is None
}

pub open spec fn part_key(part: RecordPart) -> Option<Seq<char>> {
    match part {
        RecordPart::Object { key: Some(t), .. } => Some(t@),
        _ => None,
    }
}

/// For a legacy record attached to a network: the network's name, which must
/// also be the name of the recorded definition. `Ok(None)` when nothing is
/// to be looked up.
pub open spec fn legacy_lookup(saved: ProvenanceRecord) -> Result<Option<Seq<char>>, ProvenanceError> {
    if !is_legacy(saved) || saved.attachment is Null {
        Ok(None)
    } else {
        match part_key(saved.attachment) {
            None => Err(ProvenanceError::InvalidReference),
            Some(name) => if part_key(saved.definition) == Some(name) {
                Ok(Some(name))
            } else {
                Err(ProvenanceError::NameMismatch)
            },
        }
    }
}

fn part_key_of(part: &RecordPart) -> (r: Option<String>)
    ensures
        match r {
            Some(t) => part_key(*part) == Some(t@),
            None => part_key(*part) is None,
        },
{
    match part {
        RecordPart::Object { key: Some(t), .. } => Some(t.clone()),
        _ => None,
    }
}

/// The network name by which a legacy record must be looked up (see
/// `legacy_lookup`).
pub fn legacy_network_name(saved: &ProvenanceRecord) -> (r: Result<Option<String>, ProvenanceError>)
    ensures
        match r {
            Ok(Some(n)) => legacy_lookup(*saved) == Ok::<Option<Seq<char>>, ProvenanceError>(
                Some(n@),
            ),
            Ok(None) => legacy_lookup(*saved) == Ok::<Option<Seq<char>>, ProvenanceError>(None),
            Err(e) => legacy_lookup(*saved) == Err::<Option<Seq<char>>, ProvenanceError>(e),
        },
{
    let attached = match &saved.attachment {
        RecordPart::Null => false,
        _ => true,
    };
    if saved.version.is_some() || !attached {
        return Ok(None);
    }
    match part_key_of(&saved.attachment) {
        None => Err(ProvenanceError::InvalidReference),
        Some(name) => match part_key_of(&saved.definition) {
            Some(d) => if d == name {
                Ok(Some(name))
            } else {
                Err(ProvenanceError::NameMismatch)
            },
            None => Err(ProvenanceError::NameMismatch),
        },
    }
}

/// The network id a legacy record is rebound to: the one found under its
/// name, which must be the network the VM is attached to now.
pub open spec fn rebinding(
    lookup: Option<Seq<char>>,
    expected: ProvenanceRecord,
    found: Option<Seq<char>>,
) -> Result<Option<Seq<char>>, ProvenanceError> {
    match lookup {
        None => Ok(None),
        Some(_) => match found {
            None => Err(ProvenanceError::NetworkRenamed),
            Some(id) => if part_key(expected.attachment) == Some(id) {
                Ok(Some(id))
            } else {
                Err(ProvenanceError::ForeignNetwork)
            },
        },
    }
}

/// Two attachments agree, the saved one's reference replaced by `rebound`
/// when there is one.
pub open spec fn attachments_agree(saved: RecordPart, expected: RecordPart, rebound: Option<Seq<char>>) -> bool {
    match (saved, expected) {
        (RecordPart::Null, RecordPart::Null) => true,
        (RecordPart::Object { rest: ra, .. }, RecordPart::Object { rest: rb, .. }) => ra@ == rb@
            && match rebound {
            Some(id) => part_key(expected) == Some(id),
            None => part_key(saved) == part_key(expected),
        },
        (RecordPart::Other(a), RecordPart::Other(b)) => a@ == b@,
        _ => false,
    }
}

/// Two definitions agree once their names are set aside.
pub open spec fn definitions_agree(saved: RecordPart, expected: RecordPart) -> bool {
    match (saved, expected) {
        (RecordPart::Null, RecordPart::Null) => true,
        (RecordPart::Object { rest: ra, .. }, RecordPart::Object { rest: rb, .. }) => ra@ == rb@,
        (RecordPart::Other(a), RecordPart::Other(b)) => a@ == b@,
        _ => false,
    }
}

/// The decision on a restore given the saved record, the record expected
/// for the VM now, and, for a legacy record attached to a network, the id
/// of the owner's network with the recorded name (`None` if there is none).
/// A legacy record is compared without versions.
pub open spec fn provenance_decision(
    saved: ProvenanceRecord,
    expected: ProvenanceRecord,
    found: Option<Seq<char>>,
) -> Result<(), ProvenanceError> {
    match legacy_lookup(saved) {
        Err(e) => Err(e),
        Ok(lookup) => match rebinding(lookup, expected, found) {
            Err(e) => Err(e),
            Ok(rebound) => if (is_legacy(saved) || saved.version == expected.version)
                && saved.body@ == expected.body@ && attachments_agree(
                saved.attachment,
                expected.attachment,
                rebound,
            ) && definitions_agree(saved.definition, expected.definition) {
                Ok(())
            } else {
                Err(ProvenanceError::Changed)
            },
        },
    }
}

fn same_option_text(a: &Option<String>, b: &Option<String>) -> (r: bool)
    ensures
        r == (match a {
            Some(x) => Some(x@),
            None => None::<Seq<char>>,
        } == match b {
            Some(x) => Some(x@),
            None => None::<Seq<char>>,
        }),
{
    match (a, b) {
        (None, None) => true,
        (Some(x), Some(y)) => *x == *y,
        _ => false,
    }
}

fn attachments_agree_of(saved: &RecordPart, expected: &RecordPart, rebound: &Option<String>) -> (r:
    bool)
    ensures
        r == attachments_agree(
            *saved,
            *expected,
            match rebound {
                Some(x) => Some(x@),
                None => None,
            },
        ),
{
    match (saved, expected) {
        (RecordPart::Null, RecordPart::Null) => true,
        (RecordPart::Object { key: ka, rest: ra }, RecordPart::Object { key: kb, rest: rb }) => {
            if !(*ra == *rb) {
                return false;
            }
            match rebound {
                Some(id) => match kb {
                    Some(k) => *k == *id,
                    None => false,
                },
                None => same_option_text(ka, kb),
            }
        },
        (RecordPart::Other(a), RecordPart::Other(b)) => *a == *b,
        _ => false,
    }
}

fn definitions_agree_of(saved: &RecordPart, expected: &RecordPart) -> (r: bool)
    ensures
        r == definitions_agree(*saved, *expected),
{
    match (saved, expected) {
        (RecordPart::Null, RecordPart::Null) => true,
        (RecordPart::Object { rest: ra, .. }, RecordPart::Object { rest: rb, .. }) => *ra == *rb,
        (RecordPart::Other(a), RecordPart::Other(b)) => *a == *b,
        _ => false,
    }
}

/// Decides whether a restore may use the recorded snapshot (see
/// `provenance_decision`); `found` is the id of the owner's network named
/// by a legacy record (see `legacy_network_name`).
pub fn ensure_provenance(
    saved: &ProvenanceRecord,
    expected: &ProvenanceRecord,
    found: Option<&str>,
) -> (r: Result<(), ProvenanceError>)
    ensures
        r == provenance_decision(
            *saved,
            *expected,
            match found {
                Some(x) => Some(x@),
                None => None,
            },
        ),
{
    let lookup = legacy_network_name(saved)?;
    let rebound: Option<String> = match lookup {
        None => None,
        Some(_) => match found {
            None => return Err(ProvenanceError::NetworkRenamed),
            Some(id) => {
                let id = crate::text::owned_text(id);
                match part_key_of(&expected.attachment) {
                    Some(k) => if k == id {
                        Some(id)
                    } else {
                        return Err(ProvenanceError::ForeignNetwork);
                    },
                    None => return Err(ProvenanceError::ForeignNetwork),
                }
            },
        },
    };
    let versions = saved.version.is_none() || saved.version == expected.version;
    if versions && saved.body == expected.body && attachments_agree_of(
        &saved.attachment,
        &expected.attachment,
        &rebound,
    ) && definitions_agree_of(&saved.definition, &expected.definition) {
        Ok(())
    } else {
        Err(ProvenanceError::Changed)
    }
}

/// A legacy record is never rebound to a network other than the one the
/// VM is attached to: whenever it is accepted, the network found under its
/// recorded name is the VM's current network.
pub proof fn lemma_legacy_records_cannot_rebind(
    saved: ProvenanceRecord,
    expected: ProvenanceRecord,
    found: Option<Seq<char>>,
)
    ensures
        (provenance_decision(saved, expected, found) is Ok && (legacy_lookup(saved) matches Ok(
            Some(_),
        ))) ==> found is Some && part_key(expected.attachment) == found,
        provenance_decision(saved, expected, found) is Ok && !is_legacy(saved) ==> saved.version
            == expected.version && saved.body@ == expected.body@,
{
}

/// What a record holds of a network part apart from its key: nothing for
/// `null`, else the canonical text of its fields.
pub open spec fn part_body(part: RecordPart) -> Option<Seq<char>> {
    match part {
        RecordPart::Null => None,
        RecordPart::Object { rest, .. } => Some(rest@),
        RecordPart::Other(t) => Some(t@),
    }
}

/// The record a VM writes when it takes a snapshot (versioned, with the
/// VM's id and the state file's digest in its body and the guest address in
/// its network attachment) passes the restore check while nothing changed,
/// whatever network lookup comes back: checked against the record expected
/// now, which is that same record, it is accepted. Against the record of
/// another VM or of a changed state file (another body), or of another guest
/// address or network (another attachment or definition), it is refused.
pub proof fn lemma_recorded_snapshot_restores_unchanged(
    saved: ProvenanceRecord,
    expected: ProvenanceRecord,
    found: Option<Seq<char>>,
)
    requires
        saved.version is Some,
    ensures
        provenance_decision(saved, saved, found) is Ok,
        saved.body@ != expected.body@ ==> provenance_decision(saved, expected, found) is Err,
        saved.version != expected.version ==> provenance_decision(saved, expected, found) is Err,
        part_body(saved.attachment) != part_body(expected.attachment) ==> provenance_decision(
            saved,
            expected,
            found,
        ) is Err,
        part_key(saved.attachment) != part_key(expected.attachment) ==> provenance_decision(
            saved,
            expected,
            found,
        ) is Err,
        part_body(saved.definition) != part_body(expected.definition) ==> provenance_decision(
            saved,
            expected,
            found,
        ) is Err,
{
}

} // verus!
