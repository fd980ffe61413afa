//! File assets and guest boot inputs: the seed files written into a guest,
//! the budget they must fit, the integrity check of stored asset content,
//! and how many VMs reference an asset or kernel.
use crate::digest::{base64_encode, base64_standard, hex_text, sha256, sha256_hex};
use crate::text::{
    chars_of, contains_text, owned_text, push_chars, push_decimal, push_text, texts, utf8_len,
};
use vstd::prelude::*;
use vstd::utf8::encode_utf8;

verus! {

/// How a boot file's content is stored.
#[derive(Clone, Copy, Debug, PartialEq, Eq, Structural)]
pub enum FileEncoding {
    Utf8,
    Base64,
}

/// A file placed on the guest's seed disk.
pub struct BootFile {
    /// Path on the seed disk.
    pub path: String,
    pub content: String,
    pub encoding: FileEncoding,
    /// Where the guest installs the file, if anywhere.
    pub destination: Option<String>,
    pub uid: u32,
    pub gid: u32,
    pub mode: u32,
}

/// Bytes a boot file adds to the seed: its UTF-8 length, or for Base64
/// content the decoded length bound `ceil(len / 4) * 3`.
pub open spec fn file_cost(encoding: FileEncoding, content: Seq<char>) -> int {
    let n = encode_utf8(content).len() as int;
    match encoding {
        FileEncoding::Utf8 => n,
        FileEncoding::Base64 => (n + 3) / 4 * 3,
    }
}

pub open spec fn sum_u64(values: Seq<u64>) -> int
    decreases values.len(),
{
    if values.len() == 0 {
        0
    } else {
        sum_u64(values.drop_last()) + values.last()
    }
}

pub open spec fn files_cost(files: Seq<BootFile>) -> int
    decreases files.len(),
{
    if files.len() == 0 {
        0
    } else {
        files_cost(files.drop_last()) + file_cost(files.last().encoding, files.last().content@)
    }
}

/// The sum of `values` when it fits in 64 bits (a `checked_add` fold).
pub fn checked_sum(values: &[u64]) -> (r: Option<u64>)
    ensures
        match r {
            Some(t) => t == sum_u64(values@),
            None => sum_u64(values@) > u64::MAX,
        },
{
    let mut total: u64 = 0;
    let mut i: usize = 0;
    assert(values@.take(0) =~= Seq::<u64>::empty());
    while i < values.len()
        invariant
            i <= values.len(),
            total == sum_u64(values@.take(i as int)),
        decreases values.len() - i,
    {
        let ghost t = values@.take(i + 1);
        assert(t.drop_last() =~= values@.take(i as int));
        match total.checked_add(values[i]) {
            Some(v) => {
                total = v;
            },
            None => {
                proof {
                    lemma_sum_grows(values@, i + 1);
                }
                return None;
            },
        }
        i += 1;
    }
    assert(values@.take(i as int) =~= values@);
    Some(total)
}

/// Why the guest boot inputs are refused.
#[derive(Clone, Copy, Debug, PartialEq, Eq, Structural)]
pub enum BudgetError {
    /// The combined size does not fit in 64 bits.
    TooLarge,
    /// The combined size exceeds the configured seed limit.
    Exceeds,
}

/// The combined size of attachments, inline files and user data, checked
/// against `maximum`.
pub open spec fn boot_budget(
    attachment_sizes: Seq<u64>,
    files: Seq<BootFile>,
    userdata: Option<Seq<char>>,
    maximum: u64,
) -> Result<int, BudgetError> {
    let total = sum_u64(attachment_sizes) + files_cost(files) + match userdata {
        Some(u) => encode_utf8(u).len() as int,
        None => 0,
    };
    if total > u64::MAX {
        Err(BudgetError::TooLarge)
    } else if total > maximum {
        Err(BudgetError::Exceeds)
    } else {
        Ok(total)
    }
}

pub proof fn lemma_sum_u64_nonnegative(values: Seq<u64>)
    ensures
        sum_u64(values) >= 0,
    decreases values.len(),
{
    if values.len() > 0 {
        lemma_sum_u64_nonnegative(values.drop_last());
    }
}

proof fn lemma_files_cost_nonnegative(files: Seq<BootFile>)
    ensures
        files_cost(files) >= 0,
    decreases files.len(),
{
    if files.len() > 0 {
        lemma_files_cost_nonnegative(files.drop_last());
    }
}

/// Checks the guest boot inputs against the seed limit (see
/// `boot_budget`). `Ok` carries their combined size.
pub fn check_boot_budget(
    attachment_sizes: &[u64],
    files: &[BootFile],
    userdata: Option<&str>,
    maximum: u64,
) -> (r: Result<u64, BudgetError>)
    ensures
        match r {
            Ok(total) => boot_budget(
                attachment_sizes@,
                files@,
                match userdata {
                    Some(u) => Some(u@),
                    None => None,
                },
                maximum,
            ) == Ok::<int, BudgetError>(total as int),
            Err(e) => boot_budget(
                attachment_sizes@,
                files@,
                match userdata {
                    Some(u) => Some(u@),
                    None => None,
                },
                maximum,
            ) == Err::<int, BudgetError>(e),
        },
{
    let ghost user = match userdata {
        Some(u) => Some(u@),
        None => None::<Seq<char>>,
    };
    let ghost user_cost: int = match user {
        Some(u) => encode_utf8(u).len() as int,
        None => 0,
    };
    proof {
        lemma_sum_u64_nonnegative(attachment_sizes@);
        lemma_files_cost_nonnegative(files@);
    }
    let mut total: u64 = 0;
    let mut i: usize = 0;
    assert(attachment_sizes@.take(0) =~= Seq::<u64>::empty());
    while i < attachment_sizes.len()
        invariant
            i <= attachment_sizes.len(),
            total == sum_u64(attachment_sizes@.take(i as int)),
        decreases attachment_sizes.len() - i,
    {
        let ghost t = attachment_sizes@.take(i + 1);
        assert(t.drop_last() =~= attachment_sizes@.take(i as int));
        match total.checked_add(attachment_sizes[i]) {
            Some(v) => {
                total = v;
            },
            None => {
                proof {
                    lemma_sum_grows(attachment_sizes@, i + 1);
                    assert(t.last() == attachment_sizes@[i as int]);
                    assert(sum_u64(t) == total + attachment_sizes@[i as int]);
                    lemma_files_cost_nonnegative(files@);
                }
                return Err(BudgetError::TooLarge);
            },
        }
        i += 1;
    }
    assert(attachment_sizes@.take(i as int) =~= attachment_sizes@);
    let ghost attachments_total = total as int;
    let mut k: usize = 0;
    assert(files@.take(0) =~= Seq::<BootFile>::empty());
    while k < files.len()
        invariant
            k <= files.len(),
            attachments_total == sum_u64(attachment_sizes@),
            total == attachments_total + files_cost(files@.take(k as int)),
        decreases files.len() - k,
    {
        let ghost t = files@.take(k + 1);
        assert(t.drop_last() =~= files@.take(k as int));
        let n = utf8_len(files[k].content.as_str()) as u64;
        let cost = match files[k].encoding {
            FileEncoding::Utf8 => n,
            FileEncoding::Base64 => (n / 4 + if n % 4 == 0 {
                0
            } else {
                1
            }) * 3,
        };
        assert(cost == file_cost(files@[k as int].encoding, files@[k as int].content@));
        match total.checked_add(cost) {
            Some(v) => {
                total = v;
            },
            None => {
                proof {
                    lemma_files_cost_grows(files@, k + 1);
                }
                return Err(BudgetError::TooLarge);
            },
        }
        k += 1;
    }
    assert(files@.take(k as int) =~= files@);
    let extra: u64 = match userdata {
        Some(u) => utf8_len(u) as u64,
        None => 0,
    };
    let total = match total.checked_add(extra) {
        Some(v) => v,
        None => {
            return Err(BudgetError::TooLarge);
        },
    };
    if total > maximum {
        return Err(BudgetError::Exceeds);
    }
    Ok(total)
}

pub proof fn lemma_sum_grows(values: Seq<u64>, k: int)
    requires
        0 <= k <= values.len(),
    ensures
        sum_u64(values.take(k)) <= sum_u64(values),
    decreases values.len() - k,
{
    if k < values.len() {
        lemma_sum_grows(values, k + 1);
        assert(values.take(k + 1).drop_last() =~= values.take(k));
    } else {
        assert(values.take(k) =~= values);
    }
}

proof fn lemma_files_cost_grows(files: Seq<BootFile>, k: int)
    requires
        0 <= k <= files.len(),
    ensures
        files_cost(files.take(k)) <= files_cost(files),
    decreases files.len() - k,
{
    if k < files.len() {
        lemma_files_cost_grows(files, k + 1);
        assert(files.take(k + 1).drop_last() =~= files.take(k));
    } else {
        assert(files.take(k) =~= files);
    }
}

/// Accepted boot inputs fit the seed limit.
pub proof fn lemma_accepted_inputs_fit(
    attachment_sizes: Seq<u64>,
    files: Seq<BootFile>,
    userdata: Option<Seq<char>>,
    maximum: u64,
)
    ensures
        boot_budget(attachment_sizes, files, userdata, maximum) matches Ok(total) ==> 0 <= total
            <= maximum,
{
    lemma_sum_u64_nonnegative(attachment_sizes);
    lemma_files_cost_nonnegative(files);
}

// ---------------------------------------------------------------------------
// Boot files
/// The seed path of attachment `index`: `firemage/attachments/<index>-<id>`.
pub open spec fn attachment_path(index: u64, asset_id: Seq<char>) -> Seq<char> {
    "firemage/attachments/"@ + crate::text::decimal(index as nat) + seq!['-'] + asset_id
}

/// The boot file of attachment `index`: the asset's bytes in Base64,
/// installed at `destination` with the given owner and mode.
pub fn attachment_boot_file(
    index: u64,
    asset_id: &str,
    bytes: &[u8],
    destination: &str,
    uid: u32,
    gid: u32,
    mode: u32,
) -> (f: BootFile)
    requires
        (bytes@.len() + 2) / 3 * 4 <= usize::MAX,
    ensures
        f.path@ == attachment_path(index, asset_id@),
        f.content@ == base64_standard(bytes@),
        f.encoding == FileEncoding::Base64,
        f.destination matches Some(d) && d@ == destination@,
        f.uid == uid && f.gid == gid && f.mode == mode,
{
    let mut path = owned_text("firemage/attachments/");
    push_decimal(&mut path, index);
    crate::text::push_char(&mut path, '-');
    push_text(&mut path, asset_id);
    BootFile {
        path,
        content: base64_encode(bytes),
        encoding: FileEncoding::Base64,
        destination: Some(owned_text(destination)),
        uid,
        gid,
        mode,
    }
}

/// The seed path of secret attachment `index`: `firemage/secrets/<index>`.
pub open spec fn secret_path(index: u64) -> Seq<char> {
    "firemage/secrets/"@ + crate::text::decimal(index as nat)
}

/// The boot file of secret attachment `index`: the resolved secret as text,
/// installed at `destination` with the given owner and mode.
pub fn secret_boot_file(
    index: u64,
    content: String,
    destination: &str,
    uid: u32,
    gid: u32,
    mode: u32,
) -> (f: BootFile)
    ensures
        f.path@ == secret_path(index),
        f.content@ == content@,
        f.encoding == FileEncoding::Utf8,
        f.destination matches Some(d) && d@ == destination@,
        f.uid == uid && f.gid == gid && f.mode == mode,
{
    let mut path = owned_text("firemage/secrets/");
    push_decimal(&mut path, index);
    BootFile {
        path,
        content,
        encoding: FileEncoding::Utf8,
        destination: Some(owned_text(destination)),
        uid,
        gid,
        mode,
    }
}

/// A runtime-generated seed file: private to root and not installed
/// anywhere.
pub fn seed_file(path: &str, content: String) -> (f: BootFile)
    ensures
        f.path@ == path@,
        f.content@ == content@,
        f.encoding == FileEncoding::Utf8,
        f.destination is None,
        f.uid == 0 && f.gid == 0 && f.mode == 0o600,
{
    BootFile {
        path: owned_text(path),
        content,
        encoding: FileEncoding::Utf8,
        destination: None,
        uid: 0,
        gid: 0,
        mode: 0o600,
    }
}

// ---------------------------------------------------------------------------
// Stored content
/// Stored asset content is intact: within the limit, of the recorded size,
/// and with the recorded SHA-256 digest in hexadecimal.
pub open spec fn content_intact(bytes: Seq<u8>, maximum: u64, size_bytes: i64, digest: Seq<char>) -> bool {
    bytes.len() <= maximum && bytes.len() == size_bytes && hex_text(sha256(bytes)) == digest
}

pub fn is_content_intact(bytes: &[u8], maximum: u64, size_bytes: i64, digest: &str) -> (r: bool)
    ensures
        r == content_intact(bytes@, maximum, size_bytes, digest@),
{
    if bytes.len() as u64 > maximum || size_bytes < 0 || bytes.len() as u64 != size_bytes as u64 {
        return false;
    }
    let actual = sha256_hex(bytes);
    let expected = owned_text(digest);
    actual == expected
}

/// The name under which the catalog stores an asset's file: the file name a
/// discovered asset was found under, else the asset's id (uploads).
pub fn asset_storage_name(id: &str, storage_name: Option<&str>) -> (r: String)
    ensures
        r@ == match storage_name {
            Some(n) => n@,
            None => id@,
        },
{
    match storage_name {
        Some(n) => owned_text(n),
        None => owned_text(id),
    }
}

/// An upload fits the asset size limit.
pub fn within_upload_limit(len: usize, maximum: u64) -> (r: bool)
    ensures
        r == (len <= maximum),
{
    len as u64 <= maximum
}

// ---------------------------------------------------------------------------
// References from VM definitions
/// Number of VMs among `vms` whose attachments include `asset_id` (a VM
/// counts once however often it attaches the asset).
pub open spec fn attaching_vms(vms: Seq<Vec<String>>, asset_id: Seq<char>) -> nat
    decreases vms.len(),
{
    if vms.len() == 0 {
        0
    } else {
        attaching_vms(vms.drop_last(), asset_id) + if texts(vms.last()@).contains(asset_id) {
            1nat
        } else {
            0nat
        }
    }
}

/// How many VMs attach the asset `asset_id`; `vms` holds the attached asset
/// ids of each VM.
pub fn asset_vm_count(vms: &[Vec<String>], asset_id: &String) -> (n: usize)
    ensures
        n == attaching_vms(vms@, asset_id@),
{
    let mut n: usize = 0;
    let mut i: usize = 0;
    assert(vms@.take(0) =~= Seq::<Vec<String>>::empty());
    while i < vms.len()
        invariant
            i <= vms.len(),
            n == attaching_vms(vms@.take(i as int), asset_id@),
            n <= i,
        decreases vms.len() - i,
    {
        let ghost t = vms@.take(i + 1);
        assert(t.drop_last() =~= vms@.take(i as int));
        if contains_text(&vms[i], asset_id) {
            n += 1;
        }
        i += 1;
    }
    assert(vms@.take(i as int) =~= vms@);
    n
}

/// Number of VMs among `kernels` (the kernel each VM selects, if any) that
/// use `name`.
pub open spec fn kernel_users(kernels: Seq<Option<String>>, name: Seq<char>) -> nat
    decreases kernels.len(),
{
    if kernels.len() == 0 {
        0
    } else {
        kernel_users(kernels.drop_last(), name) + if kernels.last() matches Some(k) && k@ == name {
            1nat
        } else {
            0nat
        }
    }
}

pub fn kernel_vm_count(kernels: &[Option<String>], name: &String) -> (n: usize)
    ensures
        n == kernel_users(kernels@, name@),
{
    let mut n: usize = 0;
    let mut i: usize = 0;
    assert(kernels@.take(0) =~= Seq::<Option<String>>::empty());
    while i < kernels.len()
        invariant
            i <= kernels.len(),
            n == kernel_users(kernels@.take(i as int), name@),
            n <= i,
        decreases kernels.len() - i,
    {
        let ghost t = kernels@.take(i + 1);
        assert(t.drop_last() =~= kernels@.take(i as int));
        match &kernels[i] {
            Some(k) => {
                if *k == *name {
                    n += 1;
                }
            },
            None => {},
        }
        i += 1;
    }
    assert(kernels@.take(i as int) =~= kernels@);
    n
}


// ---------------------------------------------------------------------------
// Asset aliases
/// An owner's assets as (id, alias) texts.
pub open spec fn alias_rows(rows: Seq<(String, String)>) -> Seq<(Seq<char>, Seq<char>)> {
    rows.map_values(|r: (String, String)| (r.0@, r.1@))
}

/// Another asset than `current` already has `alias`.
pub open spec fn alias_taken_by_other(
    rows: Seq<(Seq<char>, Seq<char>)>,
    alias: Seq<char>,
    current: Option<Seq<char>>,
) -> bool {
    exists|i: int| 0 <= i < rows.len() && #[trigger] rows[i].1 == alias && current != Some(rows[i].0)
}

/// Whether `alias` is free for the asset `current` (or for a new asset when
/// `current` is `None`) among the owner's assets `rows` (id, alias).
pub fn alias_available(rows: &[(String, String)], alias: &str, current: Option<&str>) -> (r: bool)
    ensures
        r == !alias_taken_by_other(
            alias_rows(rows@),
            alias@,
            match current {
                Some(c) => Some(c@),
                None => None,
            },
        ),
{
    let ghost cur = match current {
        Some(c) => Some(c@),
        None => None::<Seq<char>>,
    };
    let wanted = owned_text(alias);
    let mut i: usize = 0;
    while i < rows.len()
        invariant
            i <= rows.len(),
            wanted@ == alias@,
            cur == match current {
                Some(c) => Some(c@),
                None => None::<Seq<char>>,
            },
            forall|j: int|
                0 <= j < i ==> !(#[trigger] alias_rows(rows@)[j].1 == alias@ && cur != Some(
                    alias_rows(rows@)[j].0,
                )),
        decreases rows.len() - i,
    {
        let is_current = match current {
            Some(c) => rows[i].0 == owned_text(c),
            None => false,
        };
        assert(alias_rows(rows@)[i as int] == (rows@[i as int].0@, rows@[i as int].1@));
        if rows[i].1 == wanted && !is_current {
            assert(alias_rows(rows@)[i as int].1 == alias@ && cur != Some(
                alias_rows(rows@)[i as int].0,
            ));
            return false;
        }
        i += 1;
    }
    true
}

pub open spec fn aliases_unique(rows: Seq<(Seq<char>, Seq<char>)>) -> bool {
    forall|i: int, j: int| 0 <= i < rows.len() && 0 <= j < rows.len() && i != j ==> (#[trigger] rows[i]).1
        != (#[trigger] rows[j]).1
}

pub open spec fn renamed(rows: Seq<(Seq<char>, Seq<char>)>, id: Seq<char>, alias: Seq<char>) -> Seq<
    (Seq<char>, Seq<char>),
> {
    rows.map_values(
        |r: (Seq<char>, Seq<char>)|
            if r.0 == id {
                (r.0, alias)
            } else {
                r
            },
    )
}

/// Aliases stay unique per owner: renaming an asset to an alias that the
/// check finds free keeps the owner's aliases unique, and so does adding
/// an asset under a free alias.
pub proof fn lemma_free_aliases_stay_unique(
    rows: Seq<(Seq<char>, Seq<char>)>,
    id: Seq<char>,
    alias: Seq<char>,
)
    requires
        aliases_unique(rows),
        forall|i: int, j: int| 0 <= i < rows.len() && 0 <= j < rows.len() && i != j ==> (#[trigger] rows[i]).0
            != (#[trigger] rows[j]).0,
    ensures
        !alias_taken_by_other(rows, alias, Some(id)) ==> aliases_unique(renamed(rows, id, alias)),
        !alias_taken_by_other(rows, alias, None) ==> aliases_unique(rows.push((id, alias))),
{
    let r = renamed(rows, id, alias);
    if !alias_taken_by_other(rows, alias, Some(id)) {
        assert forall|i: int, j: int| 0 <= i < r.len() && 0 <= j < r.len() && i != j implies (
        #[trigger] r[i]).1 != (#[trigger] r[j]).1 by {
            if rows[i].0 == id && rows[j].0 != id {
                assert(!(rows[j].1 == alias && Some(id) != Some(rows[j].0)));
            } else if rows[j].0 == id && rows[i].0 != id {
                assert(!(rows[i].1 == alias && Some(id) != Some(rows[i].0)));
            }
        }
    }
    let p = rows.push((id, alias));
    if !alias_taken_by_other(rows, alias, None) {
        assert forall|i: int, j: int| 0 <= i < p.len() && 0 <= j < p.len() && i != j implies (
        #[trigger] p[i]).1 != (#[trigger] p[j]).1 by {
            if i < rows.len() && j < rows.len() {
                assert(p[i] == rows[i] && p[j] == rows[j]);
            } else if i < rows.len() {
                assert(p[i] == rows[i]);
                assert(!(rows[i].1 == alias && None::<Seq<char>> != Some(rows[i].0)));
            } else {
                assert(p[j] == rows[j]);
                assert(!(rows[j].1 == alias && None::<Seq<char>> != Some(rows[j].0)));
            }
        }
    }
}

} // verus!
