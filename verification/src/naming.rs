//! Names and paths the runtime gives to files: fresh UUID names, the managed
//! socket path, the files of a jailed snapshot, the provenance record of a
//! snapshot, and the rules for snapshot file names.
use crate::addressing::{push_hex_byte, random_uuid_bytes};
use crate::digest::{hex_text, sha256, sha256_hex};
use crate::text::{chars_equal, chars_of, owned_text, push_text, split_chars, split_on, string_of, views};
use vstd::prelude::*;
use vstd::utf8::encode_utf8;

verus! {

/// The hyphenated lower-case text of a UUID's sixteen bytes: groups of 4,
/// 2, 2, 2 and 6 bytes (`Uuid`'s `Display`).
pub open spec fn uuid_text(b: Seq<u8>) -> Seq<char> {
    hex_text(b.subrange(0, 4)) + "-"@ + hex_text(b.subrange(4, 6)) + "-"@ + hex_text(
        b.subrange(6, 8),
    ) + "-"@ + hex_text(b.subrange(8, 10)) + "-"@ + hex_text(b.subrange(10, 16))
}

fn push_hex_run(s: &mut String, bytes: &[u8; 16], start: usize, end: usize)
    requires
        start <= end <= 16,
    ensures
        final(s)@ == old(s)@ + hex_text(bytes@.subrange(start as int, end as int)),
{
    let ghost first = s@;
    let mut i = start;
    assert(bytes@.subrange(start as int, start as int) =~= Seq::<u8>::empty());
    while i < end
        invariant
            start <= i <= end <= 16,
            s@ == first + hex_text(bytes@.subrange(start as int, i as int)),
        decreases end - i,
    {
        let ghost before = s@;
        push_hex_byte(s, bytes[i]);
        let ghost run = bytes@.subrange(start as int, i + 1);
        assert(run.drop_last() =~= bytes@.subrange(start as int, i as int));
        assert(run.last() == bytes@[i as int]);
        assert(s@ =~= first + hex_text(run));
        i += 1;
    }
}

/// The text of the UUID with bytes `bytes` (see `uuid_text`).
pub fn uuid_text_of(bytes: &[u8; 16]) -> (r: String)
    ensures
        r@ == uuid_text(bytes@),
{
    let mut r = String::new();
    push_hex_run(&mut r, bytes, 0, 4);
    push_text(&mut r, "-");
    push_hex_run(&mut r, bytes, 4, 6);
    push_text(&mut r, "-");
    push_hex_run(&mut r, bytes, 6, 8);
    push_text(&mut r, "-");
    push_hex_run(&mut r, bytes, 8, 10);
    push_text(&mut r, "-");
    push_hex_run(&mut r, bytes, 10, 16);
    assert(r@ =~= uuid_text(bytes@));
    r
}

/// The bytes of a version 4 UUID: version nibble 4, variant bits `10`.
pub open spec fn version_4(b: Seq<u8>) -> bool {
    b.len() == 16 && b[6] / 16 == 4 && b[8] / 64 == 2
}

/// The text of a fresh random version 4 UUID; `None` when the system
/// cannot supply random bytes.
pub fn new_uuid_text() -> (r: Option<String>)
    ensures
        r matches Some(t) ==> exists|b: Seq<u8>| version_4(b) && t@ == uuid_text(b),
{
    match random_uuid_bytes() {
        None => None,
        Some(bytes) => Some(uuid_text_of(&bytes)),
    }
}

/// `Path::join` of a relative name: a separator is put between the two
/// unless the base is empty or already ends in one.
pub open spec fn path_join(base: Seq<char>, name: Seq<char>) -> Seq<char> {
    if base.len() == 0 || base.last() == '/' {
        base + name
    } else {
        base + "/"@ + name
    }
}

pub fn join_path(base: &str, name: &str) -> (r: String)
    ensures
        r@ == path_join(base@, name@),
{
    let b = chars_of(base);
    let mut r = owned_text(base);
    if b.len() == 0 || b[b.len() - 1] == '/' {
        push_text(&mut r, name);
    } else {
        push_text(&mut r, "/");
        push_text(&mut r, name);
        assert(r@ =~= base@ + "/"@ + name@);
    }
    r
}

/// The socket path of a VM whose Firecracker the runtime starts: a fresh
/// UUID-named socket in the data directory's `sockets` directory.
pub open spec fn managed_socket(data_dir: Seq<char>, id: Seq<char>) -> Seq<char> {
    path_join(path_join(data_dir, "sockets"@), id + ".sock"@)
}

/// A fresh socket path for a VM whose Firecracker the runtime starts (see
/// `managed_socket`); `None` when the system cannot supply random bytes.
pub fn managed_socket_path(data_dir: &str) -> (r: Option<String>)
    ensures
        r matches Some(p) ==> exists|b: Seq<u8>| version_4(b) && p@ == managed_socket(data_dir@, uuid_text(b)),
{
    let sockets = join_path(data_dir, "sockets");
    let mut name = match new_uuid_text() {
        Some(n) => n,
        None => return None,
    };
    push_text(&mut name, ".sock");
    Some(join_path(sockets.as_str(), name.as_str()))
}

/// The state and memory files that a jailed Firecracker writes a snapshot
/// to, inside its jail: `/snapshots/<id>.state` and `/snapshots/<id>.memory`.
pub open spec fn jailed_snapshot_files(id: Seq<char>) -> (Seq<char>, Seq<char>) {
    ("/snapshots/"@ + id + ".state"@, "/snapshots/"@ + id + ".memory"@)
}

/// Fresh snapshot files for a jailed Firecracker (see
/// `jailed_snapshot_files`), named by a random UUID; `None` when the system
/// cannot supply random bytes.
pub fn jailed_snapshot_paths() -> (r: Option<(String, String)>)
    ensures
        r matches Some(paths) ==> exists|b: Seq<u8>| version_4(b) && (paths.0@, paths.1@)
            == jailed_snapshot_files(uuid_text(b)),
{
    let id = match new_uuid_text() {
        Some(id) => id,
        None => return None,
    };
    let mut state = owned_text("/snapshots/");
    push_text(&mut state, id.as_str());
    push_text(&mut state, ".state");
    let mut memory = owned_text("/snapshots/");
    push_text(&mut memory, id.as_str());
    push_text(&mut memory, ".memory");
    Some((state, memory))
}

/// The name a diagnostics file is kept under when a restore starts.
pub open spec fn diagnostics_backup(name: Seq<char>, suffix: Seq<char>) -> Seq<char> {
    name + ".before-restore-"@ + suffix
}

pub fn diagnostics_backup_name(name: &str, suffix: &str) -> (r: String)
    ensures
        r@ == diagnostics_backup(name@, suffix@),
{
    let mut r = owned_text(name);
    push_text(&mut r, ".before-restore-");
    push_text(&mut r, suffix);
    r
}

/// The provenance record of a snapshot is named after the SHA-256 digest
/// of its state file's path.
pub open spec fn snapshot_record_file(state: Seq<char>) -> Seq<char> {
    hex_text(sha256(encode_utf8(state))) + ".json"@
}

pub fn snapshot_record_name(state: &str) -> (r: String)
    ensures
        r@ == snapshot_record_file(state@),
{
    let mut r = sha256_hex(state.as_bytes());
    push_text(&mut r, ".json");
    r
}

// ---------------------------------------------------------------------------
// Snapshot file names
pub open spec fn allowed_name_byte(b: u8) -> bool {
    (48 <= b <= 57) || (65 <= b <= 90) || (97 <= b <= 122) || b == 95 || b == 46 || b == 45
}

/// A snapshot file name: at most 128 bytes, only ASCII letters, digits,
/// `_`, `.` and `-`, and neither `.` nor `..`.
pub open spec fn snapshot_file_name(name: Seq<char>) -> bool {
    let bytes = encode_utf8(name);
    &&& bytes.len() <= 128
    &&& forall|i: int| 0 <= i < bytes.len() ==> allowed_name_byte(#[trigger] bytes[i])
    &&& name != "."@
    &&& name != ".."@
}

pub fn is_snapshot_file_name(name: &str) -> (r: bool)
    ensures
        r == snapshot_file_name(name@),
{
    let bytes: &[u8] = name.as_bytes();
    if bytes.len() > 128 {
        return false;
    }
    let mut i: usize = 0;
    while i < bytes.len()
        invariant
            i <= bytes.len(),
            bytes@ == encode_utf8(name@),
            forall|j: int| 0 <= j < i ==> allowed_name_byte(#[trigger] bytes@[j]),
        decreases bytes.len() - i,
    {
        let b = bytes[i];
        if !((48 <= b && b <= 57) || (65 <= b && b <= 90) || (97 <= b && b <= 122) || b == 95 || b
            == 46 || b == 45) {
            return false;
        }
        i += 1;
    }
    let c = chars_of(name);
    proof {
        reveal_strlit(".");
        reveal_strlit("..");
    }
    let dot = c.len() == 1 && c[0] == '.';
    let dots = c.len() == 2 && c[0] == '.' && c[1] == '.';
    proof {
        if name@ == "."@ {
            assert(dot);
        }
        if name@ == ".."@ {
            assert(dots);
        }
        if dot {
            assert(name@ =~= "."@);
        }
        if dots {
            assert(name@ =~= ".."@);
        }
    }
    !dot && !dots
}

/// The part of a snapshot file name that must be a valid name: the name
/// without a `.json` suffix, up to its first `.`.
pub open spec fn name_stem(name: Seq<char>) -> Seq<char> {
    let base = if name.len() >= 5 && name.skip(name.len() - 5) == ".json"@ {
        name.take(name.len() - 5)
    } else {
        name
    };
    crate::text::split_on(base, '.')[0]
}

pub fn snapshot_name_stem(name: &str) -> (r: String)
    ensures
        r@ == name_stem(name@),
{
    proof {
        reveal_strlit(".json");
    }
    let c = chars_of(name);
    let n = c.len();
    let json = n >= 5 && c[n - 5] == '.' && c[n - 4] == 'j' && c[n - 3] == 's' && c[n - 2] == 'o'
        && c[n - 1] == 'n';
    let end = if json {
        n - 5
    } else {
        n
    };
    proof {
        if n >= 5 {
            let tail = name@.skip(n - 5);
            if json {
                assert(tail =~= ".json"@);
            }
            if tail == ".json"@ {
                assert(tail[0] == '.' && tail[1] == 'j' && tail[2] == 's' && tail[3] == 'o' && tail[4]
                    == 'n');
                assert(c@[n - 5] == tail[0]);
            }
        }
    }
    let ghost base = name@.take(end as int);
    let mut k: usize = 0;
    while k < end && c[k] != '.'
        invariant
            k <= end <= n,
            c@ == name@,
            n == c@.len(),
            forall|j: int| 0 <= j < k ==> c@[j] != '.',
        decreases end - k,
    {
        k += 1;
    }
    proof {
        assert(name@.take(n as int) =~= name@);
        let cond = name@.len() >= 5 && name@.skip(name@.len() - 5) == ".json"@;
        assert(cond == json);
        assert(base == if cond {
            name@.take(name@.len() - 5)
        } else {
            name@
        });
        assert forall|j: int| 0 <= j < k implies base[j] != '.' by {
            assert(base[j] == c@[j]);
        }
        if k < end {
            assert(base[k as int] == c@[k as int]);
        }
        lemma_first_piece(base, '.', k as int);
        assert(base.take(k as int) =~= c@.take(k as int));
    }
    string_of_range(&c, k)
}

proof fn lemma_first_piece(s: Seq<char>, sep: char, k: int)
    requires
        0 <= k <= s.len(),
        forall|j: int| 0 <= j < k ==> s[j] != sep,
        k == s.len() || s[k] == sep,
    ensures
        crate::text::split_on(s, sep)[0] == s.take(k),
{
    crate::text::lemma_split_first(s, sep, k);
}

fn string_of_range(c: &Vec<char>, k: usize) -> (r: String)
    requires
        k <= c.len(),
    ensures
        r@ == c@.take(k as int),
{
    let mut r = String::new();
    let mut i: usize = 0;
    while i < k
        invariant
            i <= k <= c.len(),
            r@ == c@.take(i as int),
        decreases k - i,
    {
        crate::text::push_char(&mut r, c[i]);
        assert(r@ =~= c@.take(i + 1));
        i += 1;
    }
    r
}


// ---------------------------------------------------------------------------
// Host paths
/// The pieces of a path that `Path::components` keeps as names: every piece
/// between `/` separators except empty ones and `.`.
pub open spec fn kept_parts(pieces: Seq<Seq<char>>) -> Seq<Seq<char>>
    decreases pieces.len(),
{
    if pieces.len() == 0 {
        seq![]
    } else if pieces.last().len() == 0 || pieces.last() == seq!['.'] {
        kept_parts(pieces.drop_last())
    } else {
        kept_parts(pieces.drop_last()).push(pieces.last())
    }
}

/// The name components of an absolute path.
pub open spec fn path_parts(path: Seq<char>) -> Seq<Seq<char>> {
    kept_parts(split_on(path, '/'))
}

pub open spec fn is_absolute(path: Seq<char>) -> bool {
    path.len() > 0 && path[0] == '/'
}

fn parts_of(path: &str) -> (r: Vec<Vec<char>>)
    ensures
        views(r@) == path_parts(path@),
{
    let c = chars_of(path);
    let pieces = split_chars(&c, '/');
    let mut r: Vec<Vec<char>> = Vec::new();
    let mut i: usize = 0;
    let ghost all = views(pieces@);
    assert(all.take(0) =~= Seq::<Seq<char>>::empty());
    while i < pieces.len()
        invariant
            i <= pieces.len(),
            all == views(pieces@),
            all == split_on(path@, '/'),
            views(r@) == kept_parts(all.take(i as int)),
        decreases pieces.len() - i,
    {
        let ghost t = all.take(i + 1);
        assert(t.drop_last() =~= all.take(i as int));
        assert(t.last() == pieces@[i as int]@);
        let piece = &pieces[i];
        let dot = piece.len() == 1 && piece[0] == '.';
        proof {
            if dot {
                assert(piece@ =~= seq!['.']);
            }
            if piece@ == seq!['.'] {
                assert(piece@[0] == '.');
            }
        }
        if !(piece.len() == 0 || dot) {
            let ghost before = views(r@);
            r.push(copy_chars(piece));
            assert(views(r@) =~= before.push(piece@));
        }
        i += 1;
    }
    assert(all.take(i as int) =~= all);
    r
}

fn copy_chars(v: &Vec<char>) -> (r: Vec<char>)
    ensures
        r@ == v@,
{
    crate::text::copy_range(v.as_slice(), 0, v.len())
}

pub open spec fn parts_prefix(base: Seq<Seq<char>>, path: Seq<Seq<char>>) -> bool {
    base.len() <= path.len() && path.take(base.len() as int) == base
}

/// `Path::starts_with` for two absolute paths: the components of `root`
/// begin those of `path`.
pub open spec fn path_within(path: Seq<char>, root: Seq<char>) -> bool {
    parts_prefix(path_parts(root), path_parts(path))
}

fn same_parts(a: &Vec<Vec<char>>, b: &Vec<Vec<char>>, n: usize) -> (r: bool)
    requires
        n <= a.len(),
        n <= b.len(),
    ensures
        r == (views(a@).take(n as int) == views(b@).take(n as int)),
{
    let mut i: usize = 0;
    while i < n
        invariant
            i <= n <= a.len(),
            n <= b.len(),
            views(a@).take(i as int) == views(b@).take(i as int),
        decreases n - i,
    {
        if !chars_equal(&a[i], &b[i]) {
            assert(views(a@).take(n as int)[i as int] == a@[i as int]@);
            assert(views(b@).take(n as int)[i as int] == b@[i as int]@);
            return false;
        }
        assert(views(a@).take(i + 1) =~= views(a@).take(i as int).push(a@[i as int]@));
        assert(views(b@).take(i + 1) =~= views(b@).take(i as int).push(b@[i as int]@));
        i += 1;
    }
    true
}

/// Whether the absolute path `path` lies under the absolute path `root`
/// (see `path_within`).
pub fn is_within(path: &str, root: &str) -> (r: bool)
    ensures
        r == path_within(path@, root@),
{
    let p = parts_of(path);
    let q = parts_of(root);
    if q.len() > p.len() {
        return false;
    }
    let same = same_parts(&p, &q, q.len());
    proof {
        assert(views(q@).take(q.len() as int) =~= views(q@));
    }
    same
}

/// Why a local kernel path cannot be selected.
#[derive(Clone, Copy, Debug, PartialEq, Eq, Structural)]
pub enum KernelPathError {
    /// The file is not directly inside the kernel directory.
    OutsideKernelDir,
    /// The path has no file name.
    InvalidFileName,
    /// The asset is neither a catalog kernel nor a local file: it must be
    /// imported into the kernel catalog first.
    NotImported,
}

/// The kernel file name of a local path, which must name a file directly
/// inside the kernel directory `kernel_dir` (`Path::parent` and
/// `Path::file_name`).
pub open spec fn kernel_file(path: Seq<char>, kernel_dir: Seq<char>) -> Result<Seq<char>, KernelPathError> {
    let parts = path_parts(path);
    if !(is_absolute(path) == is_absolute(kernel_dir) && parts.len() >= 1 && parts.drop_last()
        == path_parts(kernel_dir)) {
        Err(KernelPathError::OutsideKernelDir)
    } else if parts.last() == seq!['.', '.'] {
        Err(KernelPathError::InvalidFileName)
    } else {
        Ok(parts.last())
    }
}

pub fn kernel_file_name(path: &str, kernel_dir: &str) -> (r: Result<String, KernelPathError>)
    ensures
        match r {
            Ok(name) => kernel_file(path@, kernel_dir@) == Ok::<Seq<char>, KernelPathError>(name@),
            Err(e) => kernel_file(path@, kernel_dir@) == Err::<Seq<char>, KernelPathError>(e),
        },
{
    let pc = chars_of(path);
    let dc = chars_of(kernel_dir);
    let path_absolute = pc.len() > 0 && pc[0] == '/';
    let dir_absolute = dc.len() > 0 && dc[0] == '/';
    let p = parts_of(path);
    let d = parts_of(kernel_dir);
    assert(views(p@).len() == p@.len());
    assert(views(d@).len() == d@.len());
    assert(path_absolute == is_absolute(path@));
    assert(dir_absolute == is_absolute(kernel_dir@));
    if path_absolute != dir_absolute || p.len() == 0 || p.len() - 1 != d.len() {
        return Err(KernelPathError::OutsideKernelDir);
    }
    let same = same_parts(&p, &d, d.len());
    proof {
        assert(views(d@).take(d.len() as int) =~= views(d@));
        assert(views(p@).take(d.len() as int) =~= views(p@).drop_last());
    }
    if !same {
        return Err(KernelPathError::OutsideKernelDir);
    }
    let last = &p[p.len() - 1];
    assert(views(p@).last() == last@);
    if last.len() == 2 && last[0] == '.' && last[1] == '.' {
        assert(last@ =~= seq!['.', '.']);
        return Err(KernelPathError::InvalidFileName);
    }
    proof {
        if last@ == seq!['.', '.'] {
            assert(last@[0] == '.' && last@[1] == '.');
        }
    }
    Ok(string_of(last))
}


/// `Path::file_name`: the last name component, unless it is `..`.
pub open spec fn file_name(path: Seq<char>) -> Option<Seq<char>> {
    let parts = path_parts(path);
    if parts.len() == 0 || parts.last() == seq!['.', '.'] {
        None
    } else {
        Some(parts.last())
    }
}

/// Whether a relative path starts with a `.` component, which
/// `Path::components` keeps.
pub open spec fn leading_current_dir(path: Seq<char>) -> bool {
    path == seq!['.'] || (path.len() >= 2 && path[0] == '.' && path[1] == '/')
}

/// Why a snapshot path given by a user is refused.
#[derive(Clone, Copy, Debug, PartialEq, Eq, Structural)]
pub enum SnapshotPathError {
    /// The path has no valid snapshot file name.
    InvalidName,
    /// An absolute path outside the VM's managed snapshots directory.
    ForeignDirectory,
    /// A relative path with directories.
    HasDirectories,
    /// The state and the memory file are the same file.
    SameFile,
}

/// Where a snapshot named by `value` is kept, given the VM's managed
/// snapshots directory `base` (an absolute path): a plain file name, or an
/// absolute path directly inside `base`.
pub open spec fn snapshot_location(base: Seq<char>, value: Seq<char>) -> Result<Seq<char>, SnapshotPathError> {
    match file_name(value) {
        None => Err(SnapshotPathError::InvalidName),
        Some(name) => if !snapshot_file_name(name) {
            Err(SnapshotPathError::InvalidName)
        } else if is_absolute(value) {
            if path_parts(value).drop_last() == path_parts(base) {
                Ok(path_join(base, name))
            } else {
                Err(SnapshotPathError::ForeignDirectory)
            }
        } else if path_parts(value).len() + (if leading_current_dir(value) {
            1int
        } else {
            0int
        }) == 1 {
            Ok(path_join(base, name))
        } else {
            Err(SnapshotPathError::HasDirectories)
        },
    }
}

pub fn resolve_snapshot_location(base: &str, value: &str) -> (r: Result<String, SnapshotPathError>)
    requires
        is_absolute(base@),
    ensures
        match r {
            Ok(path) => snapshot_location(base@, value@) == Ok::<Seq<char>, SnapshotPathError>(path@),
            Err(e) => snapshot_location(base@, value@) == Err::<Seq<char>, SnapshotPathError>(e),
        },
{
    let v = chars_of(value);
    let parts = parts_of(value);
    assert(views(parts@).len() == parts@.len());
    if parts.len() == 0 {
        return Err(SnapshotPathError::InvalidName);
    }
    let last = &parts[parts.len() - 1];
    assert(views(parts@).last() == last@);
    if last.len() == 2 && last[0] == '.' && last[1] == '.' {
        assert(last@ =~= seq!['.', '.']);
        return Err(SnapshotPathError::InvalidName);
    }
    proof {
        if last@ == seq!['.', '.'] {
            assert(last@[0] == '.' && last@[1] == '.');
        }
    }
    let name = string_of(last);
    if !is_snapshot_file_name(name.as_str()) {
        return Err(SnapshotPathError::InvalidName);
    }
    let absolute = v.len() > 0 && v[0] == '/';
    assert(absolute == is_absolute(value@));
    if absolute {
        let b = parts_of(base);
        assert(views(b@).len() == b@.len());
        if parts.len() - 1 != b.len() {
            assert(views(parts@).drop_last().len() != views(b@).len());
            return Err(SnapshotPathError::ForeignDirectory);
        }
        let same = same_parts(&parts, &b, b.len());
        proof {
            assert(views(b@).take(b.len() as int) =~= views(b@));
            assert(views(parts@).take(b.len() as int) =~= views(parts@).drop_last());
        }
        if !same {
            return Err(SnapshotPathError::ForeignDirectory);
        }
        return Ok(join_path(base, name.as_str()));
    }
    let leading = (v.len() == 1 && v[0] == '.') || (v.len() >= 2 && v[0] == '.' && v[1] == '/');
    proof {
        if v.len() == 1 && v[0] == '.' {
            assert(value@ =~= seq!['.']);
        }
        if value@ == seq!['.'] {
            assert(v@[0] == '.');
        }
    }
    assert(leading == leading_current_dir(value@));
    if !leading && parts.len() == 1 {
        Ok(join_path(base, name.as_str()))
    } else {
        Err(SnapshotPathError::HasDirectories)
    }
}

/// Where a snapshot's state and memory files are kept (see
/// `snapshot_location`); the two must differ.
pub open spec fn snapshot_file_pair(base: Seq<char>, state: Seq<char>, memory: Seq<char>) -> Result<
    (Seq<char>, Seq<char>),
    SnapshotPathError,
> {
    match snapshot_location(base, state) {
        Err(e) => Err(e),
        Ok(s) => match snapshot_location(base, memory) {
            Err(e) => Err(e),
            Ok(m) => if s == m {
                Err(SnapshotPathError::SameFile)
            } else {
                Ok((s, m))
            },
        },
    }
}

pub fn resolve_snapshot_files(base: &str, state: &str, memory: &str) -> (r: Result<
    (String, String),
    SnapshotPathError,
>)
    requires
        is_absolute(base@),
    ensures
        match r {
            Ok((s, m)) => snapshot_file_pair(base@, state@, memory@) == Ok::<
                (Seq<char>, Seq<char>),
                SnapshotPathError,
            >((s@, m@)),
            Err(e) => snapshot_file_pair(base@, state@, memory@) == Err::<
                (Seq<char>, Seq<char>),
                SnapshotPathError,
            >(e),
        },
{
    let s = match resolve_snapshot_location(base, state) {
        Ok(s) => s,
        Err(e) => return Err(e),
    };
    let m = match resolve_snapshot_location(base, memory) {
        Ok(m) => m,
        Err(e) => return Err(e),
    };
    if crate::text::chars_equal(&chars_of(s.as_str()), &chars_of(m.as_str())) {
        Err(SnapshotPathError::SameFile)
    } else {
        Ok((s, m))
    }
}

/// Whether the configured Firecracker executable of a jailed VM is named
/// `firecracker`, as the jailer requires.
pub fn is_firecracker_executable(path: &str) -> (r: bool)
    ensures
        r == (file_name(path@) == Some("firecracker"@)),
{
    let p = parts_of(path);
    assert(views(p@).len() == p@.len());
    if p.len() == 0 {
        return false;
    }
    let last = &p[p.len() - 1];
    assert(views(p@).last() == last@);
    let expected = chars_of("firecracker");
    proof {
        reveal_strlit("firecracker");
        if last@ == seq!['.', '.'] {
            assert(last@.len() != "firecracker"@.len());
        }
    }
    chars_equal(last, &expected)
}

/// The kernel asset a VM definition selects.
#[derive(Clone, Debug, PartialEq, Eq)]
pub enum KernelAsset {
    /// A kernel of the catalog, by name.
    Kernel(String),
    /// A local file, by path.
    Local(String),
    /// Any other asset (remote, OCI).
    Other,
}

/// The catalog name of the kernel an asset selects: a catalog kernel's own
/// name, or the file name of a local file directly inside `kernel_dir`.
pub open spec fn selected_kernel(asset: KernelAsset, kernel_dir: Seq<char>) -> Result<Seq<char>, KernelPathError> {
    match asset {
        KernelAsset::Kernel(name) => Ok(name@),
        KernelAsset::Local(path) => kernel_file(path@, kernel_dir),
        KernelAsset::Other => Err(KernelPathError::NotImported),
    }
}

pub fn kernel_name(asset: &KernelAsset, kernel_dir: &str) -> (r: Result<String, KernelPathError>)
    ensures
        match r {
            Ok(name) => selected_kernel(*asset, kernel_dir@) == Ok::<Seq<char>, KernelPathError>(name@),
            Err(e) => selected_kernel(*asset, kernel_dir@) == Err::<Seq<char>, KernelPathError>(e),
        },
{
    match asset {
        KernelAsset::Kernel(name) => Ok(owned_text(name.as_str())),
        KernelAsset::Local(path) => kernel_file_name(path.as_str(), kernel_dir),
        KernelAsset::Other => Err(KernelPathError::NotImported),
    }
}

/// What deleting VM `id` removes under the data directory `data_dir`, in
/// order: its jail root, its jailer identity record, its directory, its
/// egress recovery marker, and, for a VM whose socket the runtime made, the
/// socket.
pub open spec fn deletion_paths(data_dir: Seq<char>, id: Seq<char>, socket: Seq<char>, managed: bool) -> Seq<
    Seq<char>,
> {
    seq![
        path_join(path_join(path_join(data_dir, "jailer/firecracker"@), id), "root"@),
        path_join(path_join(data_dir, "jailer-identities"@), id),
        path_join(path_join(data_dir, "vms"@), id),
        path_join(path_join(data_dir, "egress-pending"@), id),
    ] + if managed {
        seq![socket]
    } else {
        seq![]
    }
}

/// The paths deleting a VM removes (see `deletion_paths`).
pub fn vm_deletion_paths(data_dir: &str, id: &str, socket: &str, managed: bool) -> (r: Vec<String>)
    ensures
        crate::text::texts(r@) == deletion_paths(data_dir@, id@, socket@, managed),
{
    let mut r: Vec<String> = Vec::new();
    let jail = join_path(data_dir, "jailer/firecracker");
    let jail = join_path(jail.as_str(), id);
    r.push(join_path(jail.as_str(), "root"));
    let identities = join_path(data_dir, "jailer-identities");
    r.push(join_path(identities.as_str(), id));
    let vms = join_path(data_dir, "vms");
    r.push(join_path(vms.as_str(), id));
    let pending = join_path(data_dir, "egress-pending");
    r.push(join_path(pending.as_str(), id));
    if managed {
        r.push(owned_text(socket));
    }
    assert(crate::text::texts(r@) =~= deletion_paths(data_dir@, id@, socket@, managed));
    r
}

} // verus!
