//! Editing a defined VM: when its definition may change, and which of its
//! files pin parts of the definition.
use crate::lifecycle::{VmState, at_rest, is_at_rest};
use crate::text::{contains_text, owned_text, texts};
use vstd::prelude::*;

verus! {

/// A drive of a VM definition with its whole definition in canonical
/// serialized form, as edits compare it.
#[derive(Clone, Debug)]
pub struct EditDrive {
    pub id: String,
    pub definition: String,
}

/// Why an edit is refused.
#[derive(Debug)]
pub enum EditError {
    /// The VM is not at rest, or its process is still held.
    NotAtRest,
    /// An attached VM's socket cannot change.
    SocketChanged,
    /// The VM's root disk exists, and its source would change.
    RootfsReplaced,
    /// The image of this drive exists, and the drive would change or go.
    DriveReplaced(String),
}

pub open spec fn opt_view(o: Option<&str>) -> Option<Seq<char>> {
    match o {
        Some(t) => Some(t@),
        None => None,
    }
}

fn same_option(a: Option<&str>, b: Option<&str>) -> (r: bool)
    ensures
        r == (opt_view(a) == opt_view(b)),
{
    match (a, b) {
        (None, None) => true,
        (Some(x), Some(y)) => owned_text(x) == owned_text(y),
        _ => false,
    }
}

/// An edit needs the VM at rest without a held process, and keeps the
/// attached socket.
pub open spec fn edit_decision(
    state: VmState,
    has_child: bool,
    previous_socket: Option<Seq<char>>,
    socket: Option<Seq<char>>,
) -> Result<(), ()> {
    if !(at_rest(state) && !has_child) {
        Err(())
    } else if previous_socket != socket {
        Err(())
    } else {
        Ok(())
    }
}

pub fn ensure_edit_allowed(
    state: VmState,
    has_child: bool,
    previous_socket: Option<&str>,
    socket: Option<&str>,
) -> (r: Result<(), EditError>)
    ensures
        r is Ok <==> edit_decision(state, has_child, opt_view(previous_socket), opt_view(socket))
            is Ok,
        r matches Err(e) ==> (if !(at_rest(state) && !has_child) {
            e is NotAtRest
        } else {
            e is SocketChanged
        }),
{
    if !(is_at_rest(state) && !has_child) {
        return Err(EditError::NotAtRest);
    }
    if !same_option(previous_socket, socket) {
        return Err(EditError::SocketChanged);
    }
    Ok(())
}

/// Once the root disk exists its source may not change.
pub fn ensure_rootfs_kept(rootfs_exists: bool, previous: &str, next: &str) -> (r: Result<
    (),
    EditError,
>)
    ensures
        r is Ok <==> (!rootfs_exists || previous@ == next@),
        r matches Err(e) ==> e is RootfsReplaced,
{
    if rootfs_exists && owned_text(previous) != owned_text(next) {
        Err(EditError::RootfsReplaced)
    } else {
        Ok(())
    }
}

/// The definition of the first drive with id `id`.
pub open spec fn first_definition(drives: Seq<EditDrive>, id: Seq<char>) -> Option<Seq<char>>
    decreases drives.len(),
{
    if drives.len() == 0 {
        None
    } else if drives[0].id@ == id {
        Some(drives[0].definition@)
    } else {
        first_definition(drives.drop_first(), id)
    }
}

fn first_definition_of(drives: &[EditDrive], id: &String) -> (r: Option<String>)
    ensures
        match r {
            Some(d) => first_definition(drives@, id@) == Some(d@),
            None => first_definition(drives@, id@) is None,
        },
{
    let mut i: usize = 0;
    assert(drives@.skip(0) =~= drives@);
    while i < drives.len()
        invariant
            i <= drives.len(),
            first_definition(drives@, id@) == first_definition(drives@.skip(i as int), id@),
        decreases drives.len() - i,
    {
        let ghost rest = drives@.skip(i as int);
        assert(rest[0] == drives@[i as int]);
        assert(rest.drop_first() =~= drives@.skip(i + 1));
        if drives[i].id == *id {
            return Some(drives[i].definition.clone());
        }
        i += 1;
    }
    None
}

pub open spec fn drive_ids(drives: Seq<EditDrive>) -> Seq<Seq<char>> {
    drives.map_values(|d: EditDrive| d.id@)
}

fn append_new_ids(r: &mut Vec<String>, drives: &[EditDrive])
    requires
        texts(old(r)@).no_duplicates(),
    ensures
        texts(final(r)@).no_duplicates(),
        forall|x: Seq<char>| #[trigger] texts(final(r)@).contains(x) <==> texts(old(r)@).contains(x)
            || drive_ids(drives@).contains(x),
{
    let ghost start = texts(r@);
    let mut i: usize = 0;
    while i < drives.len()
        invariant
            i <= drives.len(),
            texts(r@).no_duplicates(),
            forall|x: Seq<char>| #[trigger] texts(r@).contains(x) <==> start.contains(x)
                || drive_ids(drives@).take(i as int).contains(x),
        decreases drives.len() - i,
    {
        let id = &drives[i].id;
        let ghost before = texts(r@);
        assert(drive_ids(drives@).take(i + 1) =~= drive_ids(drives@).take(i as int).push(id@));
        if !contains_text(r, id) {
            r.push(id.clone());
            assert(texts(r@) =~= before.push(id@));
            assert(texts(r@).no_duplicates()) by {
                assert forall|a: int, b: int|
                    0 <= a < texts(r@).len() && 0 <= b < texts(r@).len() && a != b implies texts(
                    r@,
                )[a] != texts(r@)[b] by {
                    if a < before.len() && b < before.len() {
                    } else if a < before.len() {
                        assert(before.contains(before[a]));
                    } else {
                        assert(before.contains(before[b]));
                    }
                }
            }
        }
        assert forall|x: Seq<char>| #[trigger] texts(r@).contains(x) <==> start.contains(x)
            || drive_ids(drives@).take(i + 1).contains(x) by {
            vstd::seq_lib::lemma_seq_contains_after_push(before, id@, x);
            vstd::seq_lib::lemma_seq_contains_after_push(drive_ids(drives@).take(i as int), id@, x);
        }
        i += 1;
    }
    assert(drive_ids(drives@).take(i as int) =~= drive_ids(drives@));
}

/// The ids of the drives of both definitions, each once: those of the
/// previous definition first.
pub fn edited_drive_ids(previous: &[EditDrive], next: &[EditDrive]) -> (r: Vec<String>)
    ensures
        texts(r@).no_duplicates(),
        forall|x: Seq<char>| #[trigger] texts(r@).contains(x) <==> drive_ids(previous@).contains(x)
            || drive_ids(next@).contains(x),
{
    let mut r: Vec<String> = Vec::new();
    assert(texts(r@) =~= Seq::<Seq<char>>::empty());
    append_new_ids(&mut r, previous);
    append_new_ids(&mut r, next);
    r
}

/// A drive whose image exists is kept: present in both definitions (the
/// first drive with its id) with the same definition.
pub open spec fn drive_kept(previous: Seq<EditDrive>, next: Seq<EditDrive>, id: Seq<char>) -> bool {
    first_definition(previous, id) is Some && first_definition(previous, id) == first_definition(
        next,
        id,
    )
}

/// Checks the drives of an edit: for each id of `ids` (in order) whose image
/// exists (`image_exists[i]`), the drive must be kept (see `drive_kept`);
/// the first id that is not is reported.
pub fn ensure_drives_kept(
    previous: &[EditDrive],
    next: &[EditDrive],
    ids: &[String],
    image_exists: &[bool],
) -> (r: Result<(), EditError>)
    requires
        image_exists.len() == ids.len(),
    ensures
        r is Ok <==> forall|i: int|
            0 <= i < ids.len() && #[trigger] image_exists@[i] ==> drive_kept(
                previous@,
                next@,
                ids@[i]@,
            ),
        r matches Err(e) ==> e matches EditError::DriveReplaced(id) && exists|i: int|
            0 <= i < ids.len() && image_exists@[i] && ids@[i]@ == id@ && !drive_kept(
                previous@,
                next@,
                id@,
            ) && forall|j: int|
                0 <= j < i && #[trigger] image_exists@[j] ==> drive_kept(previous@, next@, ids@[j]@),
{
    let mut i: usize = 0;
    while i < ids.len()
        invariant
            i <= ids.len(),
            image_exists.len() == ids.len(),
            forall|j: int|
                0 <= j < i && #[trigger] image_exists@[j] ==> drive_kept(previous@, next@, ids@[j]@),
        decreases ids.len() - i,
    {
        if image_exists[i] {
            let old_def = first_definition_of(previous, &ids[i]);
            let new_def = first_definition_of(next, &ids[i]);
            let kept = match (&old_def, &new_def) {
                (Some(a), Some(b)) => *a == *b,
                _ => false,
            };
            if !kept {
                return Err(EditError::DriveReplaced(ids[i].clone()));
            }
        }
        i += 1;
    }
    Ok(())
}

} // verus!
