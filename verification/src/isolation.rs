//! Host isolation: which isolation modes the host allows, the jailer's
//! limits and command line, reserved jailer identities, and the checks that
//! a jailed Firecracker process really runs confined.
use crate::egress::{HostPolicy, IsolationMode};
use crate::naming::{is_within, path_within};
use crate::text::{
    chars_equal, chars_of, decimal, first_with_prefix, first_with_prefix_of, lines, lines_of,
    owned_text, parse_unsigned, parse_unsigned_of, push_decimal, push_text, split_chars,
    split_on, trim, trim_of, views, words, words_of,
};
use vstd::prelude::*;

verus! {

pub const MIB: u64 = 1024 * 1024;

/// Why the host refuses a VM's isolation mode.
#[derive(Clone, Copy, Debug, PartialEq, Eq, Structural)]
pub enum IsolationError {
    /// Jailed VMs need Firecracker's built-in seccomp and arguments.
    JailedCustomArguments,
    /// Trusted VMs are disabled by host policy.
    TrustedDisabled,
    /// External VMs are disabled by host policy.
    ExternalDisabled,
}

/// The host's decision on a VM in `mode`; `custom_arguments` tells whether
/// extra Firecracker arguments are configured.
pub open spec fn mode_decision(mode: IsolationMode, policy: HostPolicy, custom_arguments: bool) -> Result<
    (),
    IsolationError,
> {
    match mode {
        IsolationMode::Jailed => if custom_arguments {
            Err(IsolationError::JailedCustomArguments)
        } else {
            Ok(())
        },
        IsolationMode::Trusted => if policy.allow_trusted_vms == Some(true) {
            Ok(())
        } else {
            Err(IsolationError::TrustedDisabled)
        },
        IsolationMode::External => if policy.allow_external_vms == Some(true) {
            Ok(())
        } else {
            Err(IsolationError::ExternalDisabled)
        },
    }
}

/// Jailed isolation is the default; trusted and external VMs need the
/// host's explicit opt-in (an unset switch refuses them), and jailed VMs
/// never run with custom Firecracker arguments.
pub proof fn lemma_isolation_needs_opt_in(mode: IsolationMode, policy: HostPolicy, custom_arguments: bool)
    ensures
        mode == IsolationMode::Jailed ==> (mode_decision(mode, policy, custom_arguments) is Ok
            <==> !custom_arguments),
        mode == IsolationMode::Trusted ==> (mode_decision(mode, policy, custom_arguments) is Ok
            <==> policy.allow_trusted_vms == Some(true)),
        mode == IsolationMode::External ==> (mode_decision(mode, policy, custom_arguments) is Ok
            <==> policy.allow_external_vms == Some(true)),
{
}

pub fn ensure_mode_allowed(mode: IsolationMode, policy: &HostPolicy, custom_arguments: bool) -> (r:
    Result<(), IsolationError>)
    ensures
        r == mode_decision(mode, *policy, custom_arguments),
{
    match mode {
        IsolationMode::Jailed => if custom_arguments {
            Err(IsolationError::JailedCustomArguments)
        } else {
            Ok(())
        },
        IsolationMode::Trusted => if policy.allow_trusted_vms == Some(true) {
            Ok(())
        } else {
            Err(IsolationError::TrustedDisabled)
        },
        IsolationMode::External => if policy.allow_external_vms == Some(true) {
            Ok(())
        } else {
            Err(IsolationError::ExternalDisabled)
        },
    }
}

// ---------------------------------------------------------------------------
// Host paths
/// A host path that is absolute and has no `..` component.
pub open spec fn plain_absolute_path(path: Seq<char>) -> bool {
    &&& path.len() > 0 && path[0] == '/'
    &&& !split_on(path, '/').contains(seq!['.', '.'])
}

pub fn is_plain_absolute_path(path: &str) -> (r: bool)
    ensures
        r == plain_absolute_path(path@),
{
    let v = chars_of(path);
    if v.len() == 0 || v[0] != '/' {
        return false;
    }
    let parts = split_chars(&v, '/');
    let mut dots: Vec<char> = Vec::new();
    dots.push('.');
    dots.push('.');
    assert(dots@ =~= seq!['.', '.']);
    let mut i: usize = 0;
    while i < parts.len()
        invariant
            i <= parts.len(),
            views(parts@) == split_on(path@, '/'),
            dots@ == seq!['.', '.'],
            forall|j: int| 0 <= j < i ==> views(parts@)[j] != seq!['.', '.'],
        decreases parts.len() - i,
    {
        assert(parts@[i as int]@ == views(parts@)[i as int]);
        if chars_equal(&parts[i], &dots) {
            return false;
        }
        i += 1;
    }
    true
}

/// A directory or file the jailer may trust: owned by root and writable by
/// neither group nor others.
pub open spec fn root_owned_private(uid: u32, mode: u32) -> bool {
    uid == 0 && mode & 0o022 == 0
}

pub fn is_root_owned_private(uid: u32, mode: u32) -> (r: bool)
    ensures
        r == root_owned_private(uid, mode),
{
    uid == 0 && mode & 0o022 == 0
}

/// The first of the configured roots (`local_asset_roots` or
/// `external_socket_roots`, each canonical) under which the canonical host
/// path lies; `None` refuses the path as outside every root.
pub fn allowed_root(canonical: &str, roots: &[String]) -> (r: Option<usize>)
    ensures
        match r {
            Some(i) => i < roots@.len() && path_within(canonical@, roots@[i as int]@)
                && forall|j: int| 0 <= j < i ==> !path_within(canonical@, #[trigger] roots@[j]@),
            None => forall|j: int| 0 <= j < roots@.len() ==> !path_within(canonical@, #[trigger] roots@[j]@),
        },
{
    let mut i: usize = 0;
    while i < roots.len()
        invariant
            i <= roots@.len(),
            forall|j: int| 0 <= j < i ==> !path_within(canonical@, #[trigger] roots@[j]@),
        decreases roots.len() - i,
    {
        if is_within(canonical, roots[i].as_str()) {
            return Some(i);
        }
        i += 1;
    }
    None
}

/// Length limit of a Unix socket path, in bytes, including its terminator.
pub const SOCKET_PATH_LIMIT: usize = 108;

pub fn socket_path_fits(byte_len: usize) -> (r: bool)
    ensures
        r == (byte_len < SOCKET_PATH_LIMIT),
{
    byte_len < SOCKET_PATH_LIMIT
}

// ---------------------------------------------------------------------------
// Limits and the jailer command line
/// The resources granted to a jailed VM.
#[derive(Clone, Copy, Debug, PartialEq, Eq, Structural)]
pub struct JailLimits {
    pub memory_mib: u32,
    pub memory_overhead_mib: u32,
    pub vcpus: u8,
    pub cpu_percent: Option<u32>,
    pub pids_max: u64,
    pub open_files: u64,
}

/// `memory.max`: guest memory plus overhead, in bytes.
pub open spec fn memory_max(limits: JailLimits) -> nat {
    ((limits.memory_mib + limits.memory_overhead_mib) * MIB) as nat
}

/// `cpu.max` quota per 100ms period: the configured percentage, or one
/// whole CPU per vCPU.
pub open spec fn cpu_quota(limits: JailLimits) -> nat {
    (match limits.cpu_percent {
        Some(p) => p as int,
        None => limits.vcpus * 100,
    } * 1000) as nat
}

/// The configured CPU percentage leaves the quota within `u32`.
pub open spec fn cpu_quota_fits(limits: JailLimits) -> bool {
    match limits.cpu_percent {
        Some(p) => p * 1000 <= u32::MAX,
        None => true,
    }
}

/// The smallest file size limit a jailed VM can run with: guest memory plus
/// 64 MiB for snapshots, and every writable disk.
pub open spec fn minimum_file_limit(memory_mib: u32, writable_disk_sizes: Seq<u64>) -> nat
    decreases writable_disk_sizes.len(),
{
    if writable_disk_sizes.len() == 0 {
        ((memory_mib + 64) * MIB) as nat
    } else {
        let rest = minimum_file_limit(memory_mib, writable_disk_sizes.drop_last());
        if writable_disk_sizes.last() > rest {
            writable_disk_sizes.last() as nat
        } else {
            rest
        }
    }
}

/// Why a jail file size limit is refused.
#[derive(Clone, Copy, Debug, PartialEq, Eq, Structural)]
pub enum FileLimitError {
    /// The limit does not cover the disks and guest memory plus 64 MiB.
    TooSmall,
}

/// The `fsize` limit of a jailed VM: the configured size, which must cover
/// `minimum_file_limit`, or that minimum. `writable_disk_sizes` holds the
/// sizes of the root disk and every writable drive.
pub open spec fn file_limit_decision(
    memory_mib: u32,
    writable_disk_sizes: Seq<u64>,
    file_size_mib: Option<u64>,
) -> Result<nat, FileLimitError> {
    let minimum = minimum_file_limit(memory_mib, writable_disk_sizes);
    let limit = match file_size_mib {
        Some(v) => (v * MIB) as nat,
        None => minimum,
    };
    if limit >= minimum {
        Ok(limit)
    } else {
        Err(FileLimitError::TooSmall)
    }
}

proof fn lemma_minimum_file_limit_fits(memory_mib: u32, sizes: Seq<u64>)
    ensures
        minimum_file_limit(memory_mib, sizes) <= u64::MAX,
    decreases sizes.len(),
{
    if sizes.len() > 0 {
        lemma_minimum_file_limit_fits(memory_mib, sizes.drop_last());
    }
}

/// The minimum limit covers guest memory plus 64 MiB and every disk.
proof fn lemma_minimum_covers(memory_mib: u32, sizes: Seq<u64>)
    ensures
        minimum_file_limit(memory_mib, sizes) >= (memory_mib + 64) * MIB,
        forall|i: int| 0 <= i < sizes.len() ==> minimum_file_limit(memory_mib, sizes) >= #[trigger] sizes[i],
    decreases sizes.len(),
{
    if sizes.len() > 0 {
        lemma_minimum_covers(memory_mib, sizes.drop_last());
        assert forall|i: int| 0 <= i < sizes.len() implies minimum_file_limit(memory_mib, sizes)
            >= #[trigger] sizes[i] by {
            if i < sizes.len() - 1 {
                assert(sizes.drop_last()[i] == sizes[i]);
            }
        }
    }
}

/// An accepted file size limit covers every writable disk and the guest
/// memory plus 64 MiB, so a snapshot of the guest always fits.
pub proof fn lemma_file_limit_covers(memory_mib: u32, writable_disk_sizes: Seq<u64>, file_size_mib: Option<u64>)
    ensures
        file_limit_decision(memory_mib, writable_disk_sizes, file_size_mib) matches Ok(limit) ==> {
            &&& limit >= (memory_mib + 64) * MIB
            &&& forall|i: int| 0 <= i < writable_disk_sizes.len() ==> limit >= #[trigger] writable_disk_sizes[i]
        },
{
    lemma_minimum_covers(memory_mib, writable_disk_sizes);
}

pub fn jail_file_limit(memory_mib: u32, writable_disk_sizes: &[u64], file_size_mib: Option<u64>) -> (r:
    Result<u64, FileLimitError>)
    requires
        file_size_mib matches Some(v) ==> v * MIB <= u64::MAX,
    ensures
        match r {
            Ok(limit) => file_limit_decision(memory_mib, writable_disk_sizes@, file_size_mib) == Ok::<
                nat,
                FileLimitError,
            >(limit as nat),
            Err(e) => file_limit_decision(memory_mib, writable_disk_sizes@, file_size_mib) == Err::<
                nat,
                FileLimitError,
            >(e),
        },
{
    let mut minimum: u64 = (memory_mib as u64 + 64) * MIB;
    let mut i: usize = 0;
    assert(writable_disk_sizes@.take(0) =~= Seq::<u64>::empty());
    while i < writable_disk_sizes.len()
        invariant
            i <= writable_disk_sizes.len(),
            minimum == minimum_file_limit(memory_mib, writable_disk_sizes@.take(i as int)),
        decreases writable_disk_sizes.len() - i,
    {
        let ghost t = writable_disk_sizes@.take(i + 1);
        assert(t.drop_last() =~= writable_disk_sizes@.take(i as int));
        if writable_disk_sizes[i] > minimum {
            minimum = writable_disk_sizes[i];
        }
        i += 1;
    }
    assert(writable_disk_sizes@.take(i as int) =~= writable_disk_sizes@);
    let limit = match file_size_mib {
        Some(v) => v * MIB,
        None => minimum,
    };
    if limit >= minimum {
        Ok(limit)
    } else {
        Err(FileLimitError::TooSmall)
    }
}

/// The jailer command line for VM `id` (see `jailer_arguments`).
pub open spec fn jailer_arguments(
    id: Seq<char>,
    firecracker: Seq<char>,
    uid: u32,
    chroot_base: Seq<char>,
    cgroup_parent: Seq<char>,
    limits: JailLimits,
    file_limit: u64,
) -> Seq<Seq<char>> {
    seq![
        "--id"@,
        id,
        "--exec-file"@,
        firecracker,
        "--uid"@,
        decimal(uid as nat),
        "--gid"@,
        decimal(uid as nat),
        "--chroot-base-dir"@,
        chroot_base,
        "--cgroup-version"@,
        "2"@,
        "--parent-cgroup"@,
        cgroup_parent,
        "--cgroup"@,
        "memory.max="@ + decimal(memory_max(limits)),
        "--cgroup"@,
        "memory.swap.max=0"@,
        "--cgroup"@,
        "pids.max="@ + decimal(limits.pids_max as nat),
        "--cgroup"@,
        "cpu.max="@ + decimal(cpu_quota(limits)) + " 100000"@,
        "--resource-limit"@,
        "no-file="@ + decimal(limits.open_files as nat),
        "--resource-limit"@,
        "fsize="@ + decimal(file_limit as nat),
        "--"@,
        "--api-sock"@,
        "/api.sock"@,
    ]
}

pub open spec fn string_views(v: Seq<String>) -> Seq<Seq<char>> {
    v.map_values(|s: String| s@)
}

fn with_decimal(prefix: &str, n: u64) -> (r: String)
    ensures
        r@ == prefix@ + decimal(n as nat),
{
    let mut r = owned_text(prefix);
    push_decimal(&mut r, n);
    r
}

/// The jailer command line for VM `id`: its identity and UID/GID, the
/// Firecracker binary and chroot base, the cgroup limits on memory, swap,
/// PIDs and CPU, the open-file and file-size limits, and the API socket
/// inside the jail.
pub fn jailer_command(
    id: &str,
    firecracker: &str,
    uid: u32,
    chroot_base: &str,
    cgroup_parent: &str,
    limits: &JailLimits,
    file_limit: u64,
) -> (r: Vec<String>)
    requires
        cpu_quota_fits(*limits),
    ensures
        string_views(r@) == jailer_arguments(
            id@,
            firecracker@,
            uid,
            chroot_base@,
            cgroup_parent@,
            *limits,
            file_limit,
        ),
{
    let memory = (limits.memory_mib as u64 + limits.memory_overhead_mib as u64) * MIB;
    let cpu: u64 = match limits.cpu_percent {
        Some(p) => p as u64 * 1000,
        None => limits.vcpus as u64 * 100 * 1000,
    };
    let mut args: Vec<String> = Vec::new();
    args.push(owned_text("--id"));
    args.push(owned_text(id));
    args.push(owned_text("--exec-file"));
    args.push(owned_text(firecracker));
    args.push(owned_text("--uid"));
    args.push(with_decimal("", uid as u64));
    args.push(owned_text("--gid"));
    args.push(with_decimal("", uid as u64));
    args.push(owned_text("--chroot-base-dir"));
    args.push(owned_text(chroot_base));
    args.push(owned_text("--cgroup-version"));
    args.push(owned_text("2"));
    args.push(owned_text("--parent-cgroup"));
    args.push(owned_text(cgroup_parent));
    args.push(owned_text("--cgroup"));
    args.push(with_decimal("memory.max=", memory));
    args.push(owned_text("--cgroup"));
    args.push(owned_text("memory.swap.max=0"));
    args.push(owned_text("--cgroup"));
    args.push(with_decimal("pids.max=", limits.pids_max));
    args.push(owned_text("--cgroup"));
    let mut cpu_arg = with_decimal("cpu.max=", cpu);
    push_text(&mut cpu_arg, " 100000");
    args.push(cpu_arg);
    args.push(owned_text("--resource-limit"));
    args.push(with_decimal("no-file=", limits.open_files));
    args.push(owned_text("--resource-limit"));
    args.push(with_decimal("fsize=", file_limit));
    args.push(owned_text("--"));
    args.push(owned_text("--api-sock"));
    args.push(owned_text("/api.sock"));
    proof {
        reveal_strlit("");
        assert(""@ + decimal(uid as nat) =~= decimal(uid as nat));
        assert(string_views(args@) =~= jailer_arguments(
            id@,
            firecracker@,
            uid,
            chroot_base@,
            cgroup_parent@,
            *limits,
            file_limit,
        ));
    }
    args
}

/// Whether configured Firecracker arguments leave the managed API socket in
/// place: none is `--api-sock`, `--api-sock=...` or `--no-api`.
pub open spec fn managed_socket_arguments(args: Seq<Seq<char>>) -> bool {
    forall|i: int|
        0 <= i < args.len() ==> !(#[trigger] args[i] == "--api-sock"@ || args[i] == "--no-api"@
            || crate::egress::has_prefix(args[i], "--api-sock="@))
}

pub fn keeps_managed_socket(args: &[String]) -> (r: bool)
    ensures
        r == managed_socket_arguments(string_views(args@)),
{
    let flag = chars_of("--api-sock");
    let no_api = chars_of("--no-api");
    let assigned = chars_of("--api-sock=");
    let mut i: usize = 0;
    while i < args.len()
        invariant
            i <= args.len(),
            flag@ == "--api-sock"@,
            no_api@ == "--no-api"@,
            assigned@ == "--api-sock="@,
            forall|j: int|
                0 <= j < i ==> !(#[trigger] string_views(args@)[j] == "--api-sock"@
                    || string_views(args@)[j] == "--no-api"@ || crate::egress::has_prefix(
                    string_views(args@)[j],
                    "--api-sock="@,
                )),
        decreases args.len() - i,
    {
        let a = chars_of(args[i].as_str());
        assert(a@ == string_views(args@)[i as int]);
        if chars_equal(&a, &flag) || chars_equal(&a, &no_api) || crate::text::chars_start_with(
            &a,
            &assigned,
        ) {
            return false;
        }
        i += 1;
    }
    true
}

// ---------------------------------------------------------------------------
// Reserved jailer identities
/// `base..base + count`.
pub open spec fn in_reserved_range(value: int, base: u32, count: u32) -> bool {
    base <= value < base + count
}

/// The first identity of the reserved range that no VM uses.
pub open spec fn first_free_uid(base: u32, count: u32, used: Seq<u32>, next: int) -> Option<u32>
    decreases base + count - next,
{
    if next < base || next >= base + count {
        None
    } else if !used.contains(next as u32) {
        Some(next as u32)
    } else {
        first_free_uid(base, count, used, next + 1)
    }
}

/// The UID given to a new jailed VM: the first of `base..base + count` not
/// in `used`, or `None` when the range is exhausted.
pub fn allocate_uid(base: u32, count: u32, used: &[u32]) -> (r: Option<u32>)
    requires
        base + count <= u32::MAX,
    ensures
        r == first_free_uid(base, count, used@, base as int),
        r matches Some(uid) ==> in_reserved_range(uid as int, base, count) && !used@.contains(uid),
{
    let end = base + count;
    let mut uid = base;
    while uid < end
        invariant
            base <= uid <= end,
            end == base + count,
            first_free_uid(base, count, used@, base as int) == first_free_uid(
                base,
                count,
                used@,
                uid as int,
            ),
        decreases end - uid,
    {
        if !crate::addressing::contains_ip(used, uid) {
            return Some(uid);
        }
        uid += 1;
    }
    None
}

/// Why a jailed VM gets no UID.
#[derive(Clone, Copy, Debug, PartialEq, Eq, Structural)]
pub enum UidError {
    /// The UID recorded for the VM lies outside the reserved range.
    OutsideRange,
    /// Every UID of the reserved range is taken.
    Exhausted,
}

/// The UID of a jailed VM: the one recorded for it, which must still lie
/// in the reserved range, or else the first free one (see
/// `first_free_uid`).
pub open spec fn jail_uid_decision(persisted: Option<u32>, base: u32, count: u32, used: Seq<u32>) -> Result<
    u32,
    UidError,
> {
    match persisted {
        Some(uid) => if in_reserved_range(uid as int, base, count) {
            Ok(uid)
        } else {
            Err(UidError::OutsideRange)
        },
        None => match first_free_uid(base, count, used, base as int) {
            Some(uid) => Ok(uid),
            None => Err(UidError::Exhausted),
        },
    }
}

/// Decides the UID of a jailed VM (see `jail_uid_decision`); `used` holds
/// the UIDs recorded for other VMs.
pub fn jail_uid(persisted: Option<u32>, base: u32, count: u32, used: &[u32]) -> (r: Result<
    u32,
    UidError,
>)
    requires
        base + count <= u32::MAX,
    ensures
        r == jail_uid_decision(persisted, base, count, used@),
        r matches Ok(uid) ==> in_reserved_range(uid as int, base, count) && (persisted is None
            ==> !used@.contains(uid)),
{
    match persisted {
        Some(uid) => if base <= uid && uid < base + count {
            Ok(uid)
        } else {
            Err(UidError::OutsideRange)
        },
        None => match allocate_uid(base, count, used) {
            Some(uid) => Ok(uid),
            None => Err(UidError::Exhausted),
        },
    }
}

/// Why the reserved jailer range cannot be used.
#[derive(Clone, Copy, Debug, PartialEq, Eq, Structural)]
pub enum RangeError {
    /// An account, group or subordinate range uses an identity in the range.
    Overlap,
    /// A subordinate identity file line has not three fields.
    InvalidSubordinateLine,
    /// A subordinate identity field is not a number.
    InvalidNumber,
}

/// The numeric field (UID or GID) of an `/etc/passwd` or `/etc/group` line.
pub open spec fn id_field(line: Seq<char>) -> Option<int> {
    let parts = split_on(line, ':');
    if parts.len() > 2 {
        parse_unsigned(parts[2], u32::MAX as int)
    } else {
        None
    }
}

/// No account line of `text` has its identity in the range.
pub open spec fn id_database_clear(text: Seq<char>, base: u32, count: u32) -> bool {
    forall|i: int|
        0 <= i < lines(text).len() ==> !(#[trigger] id_field(lines(text)[i]) matches Some(v)
            && in_reserved_range(v, base, count))
}

fn id_field_of(line: &[char]) -> (r: Option<u64>)
    ensures
        match r {
            Some(v) => id_field(line@) == Some(v as int),
            None => id_field(line@) is None,
        },
{
    let parts = split_chars(line, ':');
    if parts.len() > 2 {
        assert(parts@[2]@ == views(parts@)[2]);
        parse_unsigned_of(&parts[2], u32::MAX as u64)
    } else {
        None
    }
}

/// Checks an `/etc/passwd` or `/etc/group` text against the range.
pub fn check_id_database(text: &str, base: u32, count: u32) -> (r: Result<(), RangeError>)
    ensures
        r is Ok <==> id_database_clear(text@, base, count),
        r matches Err(e) ==> e == RangeError::Overlap,
{
    let all = lines_of(text);
    let mut i: usize = 0;
    while i < all.len()
        invariant
            i <= all.len(),
            views(all@) == lines(text@),
            forall|j: int|
                0 <= j < i ==> !(#[trigger] id_field(lines(text@)[j]) matches Some(v)
                    && in_reserved_range(v, base, count)),
        decreases all.len() - i,
    {
        assert(all@[i as int]@ == lines(text@)[i as int]);
        match id_field_of(&all[i]) {
            Some(v) => {
                if base as u64 <= v && v < base as u64 + count as u64 {
                    return Err(RangeError::Overlap);
                }
            },
            None => {},
        }
        i += 1;
    }
    Ok(())
}

/// The check of one line of `/etc/subuid` or `/etc/subgid`: blank lines
/// pass; others need `name:start:length` with a range disjoint from ours.
pub open spec fn subordinate_line(line: Seq<char>, base: u32, count: u32) -> Result<(), RangeError> {
    let parts = split_on(line, ':');
    if trim(line).len() == 0 {
        Ok(())
    } else if parts.len() != 3 {
        Err(RangeError::InvalidSubordinateLine)
    } else {
        match (parse_unsigned(parts[1], u64::MAX as int), parse_unsigned(parts[2], u64::MAX as int)) {
            (Some(start), Some(length)) => if base >= start + length || base + count <= start {
                Ok(())
            } else {
                Err(RangeError::Overlap)
            },
            _ => Err(RangeError::InvalidNumber),
        }
    }
}

/// The first failing line decides.
pub open spec fn subordinate_lines(all: Seq<Seq<char>>, base: u32, count: u32) -> Result<(), RangeError>
    decreases all.len(),
{
    if all.len() == 0 {
        Ok(())
    } else {
        match subordinate_line(all[0], base, count) {
            Err(e) => Err(e),
            Ok(()) => subordinate_lines(all.drop_first(), base, count),
        }
    }
}

fn subordinate_line_of(line: &[char], base: u32, count: u32) -> (r: Result<(), RangeError>)
    ensures
        r == subordinate_line(line@, base, count),
{
    let trimmed = trim_of(line);
    if trimmed.len() == 0 {
        return Ok(());
    }
    let parts = split_chars(line, ':');
    if parts.len() != 3 {
        return Err(RangeError::InvalidSubordinateLine);
    }
    assert(parts@[1]@ == views(parts@)[1]);
    assert(parts@[2]@ == views(parts@)[2]);
    let start = parse_unsigned_of(&parts[1], u64::MAX);
    let length = parse_unsigned_of(&parts[2], u64::MAX);
    match (start, length) {
        (Some(start), Some(length)) => {
            // `base >= start + length`, without overflow.
            let after = start <= base as u64 && length <= base as u64 - start;
            let before = base as u64 + count as u64 <= start;
            if after || before {
                Ok(())
            } else {
                Err(RangeError::Overlap)
            }
        },
        _ => Err(RangeError::InvalidNumber),
    }
}

/// Checks an `/etc/subuid` or `/etc/subgid` text against the range.
pub fn check_subordinate_ids(text: &str, base: u32, count: u32) -> (r: Result<(), RangeError>)
    ensures
        r == subordinate_lines(lines(text@), base, count),
{
    let all = lines_of(text);
    let mut i: usize = 0;
    assert(views(all@).skip(0) =~= views(all@));
    while i < all.len()
        invariant
            i <= all.len(),
            views(all@) == lines(text@),
            subordinate_lines(lines(text@), base, count) == subordinate_lines(
                views(all@).skip(i as int),
                base,
                count,
            ),
        decreases all.len() - i,
    {
        let ghost rest = views(all@).skip(i as int);
        assert(rest[0] == all@[i as int]@);
        assert(rest.drop_first() =~= views(all@).skip(i + 1));
        let checked = subordinate_line_of(&all[i], base, count);
        if checked.is_err() {
            return checked;
        }
        i += 1;
    }
    assert(views(all@).skip(i as int) =~= Seq::<Seq<char>>::empty());
    Ok(())
}

/// The host's identity files, as read: `None` for a subordinate identity
/// file that does not exist.
pub struct IdentityFiles {
    pub passwd: String,
    pub group: String,
    pub subuid: Option<String>,
    pub subgid: Option<String>,
}

pub open spec fn reserved_range_decision(files: IdentityFiles, base: u32, count: u32) -> Result<
    (),
    RangeError,
> {
    if !id_database_clear(files.passwd@, base, count) || !id_database_clear(
        files.group@,
        base,
        count,
    ) {
        Err(RangeError::Overlap)
    } else {
        match files.subuid {
            Some(t) if subordinate_lines(lines(t@), base, count) is Err => subordinate_lines(
                lines(t@),
                base,
                count,
            ),
            _ => match files.subgid {
                Some(t) => subordinate_lines(lines(t@), base, count),
                None => Ok(()),
            },
        }
    }
}

/// The reserved range `base..base + count` overlaps no account, group or
/// subordinate identity range of the host.
pub fn ensure_reserved_range(files: &IdentityFiles, base: u32, count: u32) -> (r: Result<
    (),
    RangeError,
>)
    ensures
        r == reserved_range_decision(*files, base, count),
{
    check_id_database(files.passwd.as_str(), base, count)?;
    check_id_database(files.group.as_str(), base, count)?;
    match &files.subuid {
        Some(t) => {
            check_subordinate_ids(t.as_str(), base, count)?;
        },
        None => {},
    }
    match &files.subgid {
        Some(t) => check_subordinate_ids(t.as_str(), base, count),
        None => Ok(()),
    }
}

// ---------------------------------------------------------------------------
// Confinement of a running jailed process
/// Why a jailed Firecracker process is not trusted to be confined.
#[derive(Clone, Copy, Debug, PartialEq, Eq, Structural)]
pub enum JailError {
    /// The process is not in its assigned cgroup.
    WrongCgroup,
    /// The status has no `Uid:` or `Gid:` line.
    MissingIdentity,
    /// The process did not drop to its assigned UID/GID.
    IdentityNotDropped,
    /// The process kept effective capabilities.
    CapabilitiesRetained,
    /// A thread of a started VM lacks seccomp or no-new-privileges.
    UnfilteredThread,
    /// Not even the API thread is filtered.
    NoFilteredThread,
}

/// The cgroup line of VM `id`: `0::/<parent>/<id>`.
pub open spec fn expected_cgroup(parent: Seq<char>, id: Seq<char>) -> Seq<char> {
    "0::/"@ + parent + seq!['/'] + id
}

/// All four IDs on a `Uid:`/`Gid:` line equal `uid`.
pub open spec fn ids_are(values: Seq<char>, uid: u32) -> bool {
    let w = words(values);
    w.len() == 4 && forall|i: int| 0 <= i < 4 ==> parse_unsigned(#[trigger] w[i], u32::MAX as int)
        == Some(uid as int)
}

/// The field `prefix` of a status text, trimmed, equals `expected`.
pub open spec fn status_field_is(status: Seq<char>, prefix: Seq<char>, expected: Seq<char>) -> bool {
    first_with_prefix(lines(status), prefix) matches Some(v) && trim(v) == expected
}

/// A thread runs with no-new-privileges and a seccomp filter.
pub open spec fn thread_filtered(status: Seq<char>) -> bool {
    status_field_is(status, "NoNewPrivs:"@, "1"@) && status_field_is(status, "Seccomp:"@, "2"@)
}

pub open spec fn ids_decision(status: Seq<char>, uid: u32) -> Result<(), JailError> {
    match first_with_prefix(lines(status), "Uid:"@) {
        None => Err(JailError::MissingIdentity),
        Some(u) => if !ids_are(u, uid) {
            Err(JailError::IdentityNotDropped)
        } else {
            match first_with_prefix(lines(status), "Gid:"@) {
                None => Err(JailError::MissingIdentity),
                Some(g) => if !ids_are(g, uid) {
                    Err(JailError::IdentityNotDropped)
                } else {
                    Ok(())
                },
            }
        },
    }
}

/// The decision on a jailed process from the texts of its
/// `/proc/<pid>/cgroup`, `/proc/<pid>/status` and each thread's status.
pub open spec fn confinement_decision(
    membership: Seq<char>,
    status: Seq<char>,
    threads: Seq<Seq<char>>,
    parent: Seq<char>,
    id: Seq<char>,
    uid: u32,
    is_started: bool,
) -> Result<(), JailError> {
    if !lines(membership).contains(expected_cgroup(parent, id)) {
        Err(JailError::WrongCgroup)
    } else if ids_decision(status, uid) is Err {
        ids_decision(status, uid)
    } else if !status_field_is(status, "CapEff:"@, "0000000000000000"@) {
        Err(JailError::CapabilitiesRetained)
    } else if is_started && exists|i: int|
        0 <= i < threads.len() && !thread_filtered(#[trigger] threads[i]) {
        Err(JailError::UnfilteredThread)
    } else if forall|i: int| 0 <= i < threads.len() ==> !thread_filtered(#[trigger] threads[i]) {
        Err(JailError::NoFilteredThread)
    } else {
        Ok(())
    }
}

fn ids_are_of(values: &[char], uid: u32) -> (r: bool)
    ensures
        r == ids_are(values@, uid),
{
    let w = words_of(values);
    if w.len() != 4 {
        return false;
    }
    let mut i: usize = 0;
    while i < 4
        invariant
            i <= 4,
            w.len() == 4,
            views(w@) == words(values@),
            forall|j: int|
                0 <= j < i ==> parse_unsigned(#[trigger] words(values@)[j], u32::MAX as int)
                    == Some(uid as int),
        decreases 4 - i,
    {
        assert(w@[i as int]@ == words(values@)[i as int]);
        match parse_unsigned_of(&w[i], u32::MAX as u64) {
            Some(v) => {
                if v != uid as u64 {
                    return false;
                }
            },
            None => {
                return false;
            },
        }
        i += 1;
    }
    true
}

fn status_field_is_of(status_lines: &[Vec<char>], prefix: &str, expected: &str) -> (r: bool)
    ensures
        r == (first_with_prefix(views(status_lines@), prefix@) matches Some(v) && trim(v)
            == expected@),
{
    let p = chars_of(prefix);
    match first_with_prefix_of(status_lines, &p) {
        Some(v) => {
            let t = trim_of(&v);
            let e = chars_of(expected);
            chars_equal(&t, &e)
        },
        None => false,
    }
}

fn ids_decision_of(status_lines: &[Vec<char>], uid: u32) -> (r: Result<(), JailError>)
    ensures
        forall|status: Seq<char>|
            lines(status) == views(status_lines@) ==> r == ids_decision(status, uid),
{
    let u = chars_of("Uid:");
    match first_with_prefix_of(status_lines, &u) {
        None => Err(JailError::MissingIdentity),
        Some(values) => {
            if !ids_are_of(&values, uid) {
                return Err(JailError::IdentityNotDropped);
            }
            let g = chars_of("Gid:");
            match first_with_prefix_of(status_lines, &g) {
                None => Err(JailError::MissingIdentity),
                Some(values) => {
                    if !ids_are_of(&values, uid) {
                        Err(JailError::IdentityNotDropped)
                    } else {
                        Ok(())
                    }
                },
            }
        },
    }
}

fn is_thread_filtered(status: &str) -> (r: bool)
    ensures
        r == thread_filtered(status@),
{
    let all = lines_of(status);
    status_field_is_of(&all, "NoNewPrivs:", "1") && status_field_is_of(&all, "Seccomp:", "2")
}

/// Decides whether a jailed process is confined (see
/// `confinement_decision`).
pub fn verify_confinement(
    membership: &str,
    status: &str,
    threads: &[String],
    parent: &str,
    id: &str,
    uid: u32,
    is_started: bool,
) -> (r: Result<(), JailError>)
    ensures
        r == confinement_decision(
            membership@,
            status@,
            string_views(threads@),
            parent@,
            id@,
            uid,
            is_started,
        ),
{
    let mut expected = owned_text("0::/");
    push_text(&mut expected, parent);
    crate::text::push_char(&mut expected, '/');
    push_text(&mut expected, id);
    assert(expected@ =~= expected_cgroup(parent@, id@));
    let expected_chars = chars_of(expected.as_str());
    let member_lines = lines_of(membership);
    let mut found = false;
    let mut i: usize = 0;
    while i < member_lines.len()
        invariant
            i <= member_lines.len(),
            views(member_lines@) == lines(membership@),
            expected_chars@ == expected_cgroup(parent@, id@),
            found <==> exists|j: int|
                0 <= j < i && #[trigger] views(member_lines@)[j] == expected_cgroup(parent@, id@),
        decreases member_lines.len() - i,
    {
        assert(member_lines@[i as int]@ == views(member_lines@)[i as int]);
        if chars_equal(&member_lines[i], &expected_chars) {
            found = true;
        }
        i += 1;
    }
    if !found {
        assert(!lines(membership@).contains(expected_cgroup(parent@, id@)));
        return Err(JailError::WrongCgroup);
    }
    assert(lines(membership@).contains(expected_cgroup(parent@, id@)));
    let status_lines = lines_of(status);
    let ids = ids_decision_of(&status_lines, uid);
    if ids.is_err() {
        return ids;
    }
    if !status_field_is_of(&status_lines, "CapEff:", "0000000000000000") {
        return Err(JailError::CapabilitiesRetained);
    }
    let mut filtered: usize = 0;
    let mut k: usize = 0;
    while k < threads.len()
        invariant
            k <= threads.len(),
            filtered <= k,
            lines(membership@).contains(expected_cgroup(parent@, id@)),
            ids_decision(status@, uid) is Ok,
            status_field_is(status@, "CapEff:"@, "0000000000000000"@),
            filtered == 0 <==> forall|j: int|
                0 <= j < k ==> !thread_filtered(#[trigger] string_views(threads@)[j]),
            is_started ==> forall|j: int|
                0 <= j < k ==> thread_filtered(#[trigger] string_views(threads@)[j]),
        decreases threads.len() - k,
    {
        assert(threads@[k as int]@ == string_views(threads@)[k as int]);
        let f = is_thread_filtered(threads[k].as_str());
        if is_started && !f {
            assert(!thread_filtered(string_views(threads@)[k as int]));
            return Err(JailError::UnfilteredThread);
        }
        if f {
            filtered += 1;
        }
        k += 1;
    }
    if filtered == 0 {
        return Err(JailError::NoFilteredThread);
    }
    Ok(())
}

} // verus!
