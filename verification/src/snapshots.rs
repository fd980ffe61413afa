//! Portable snapshots: whether a snapshot fits the VM it is restored into,
//! whether a Firecracker configuration uses only the managed devices, what a
//! capture contains and how large it may be.
use crate::addressing::{NetworkSpec, network_address, subnet_network, subnet_valid};
use crate::assets::{checked_sum, lemma_sum_u64_nonnegative, sum_u64};
use crate::egress::IsolationMode;
use crate::lifecycle::VmState;
use crate::text::{ascii_lower_text, contains_text, owned_text, push_text, texts, to_ascii_lowercase};
use vstd::prelude::*;

verus! {

/// A drive of a VM definition.
#[derive(Clone, Debug)]
pub struct DriveSpec {
    pub id: String,
    pub read_only: bool,
}

/// A VM's network interface: guest address and MAC.
#[derive(Clone, Debug)]
pub struct GuestNic {
    pub address: u32,
    pub mac: String,
}

/// The parts of a VM definition that a snapshot depends on.
#[derive(Clone, Debug)]
pub struct MachineSpec {
    pub mode: IsolationMode,
    /// An external Firecracker socket is attached.
    pub external_socket: bool,
    /// The VM has a web terminal, served through a vsock device.
    pub web_terminal: bool,
    pub vcpus: u8,
    pub memory_mib: u32,
    pub initrd: bool,
    pub drives: Vec<DriveSpec>,
    pub network: Option<GuestNic>,
    pub egress_http_port: u16,
    /// The port of an inline egress policy's HTTP proxy.
    pub inline_http_port: Option<u16>,
    /// A catalog egress policy is assigned.
    pub egress_policy: bool,
}

/// What a snapshot bundle records about its source.
#[derive(Clone, Debug)]
pub struct SnapshotSource {
    pub architecture: String,
    /// The bundle holds the guest's egress bootstrap.
    pub egress_bootstrap: bool,
    pub spec: MachineSpec,
}

/// Why a snapshot does not fit its target VM.
#[derive(Clone, Copy, Debug, PartialEq, Eq, Structural)]
pub enum TargetError {
    /// Restore needs a managed jailed VM.
    NotManagedJailed,
    /// The snapshot comes from another architecture.
    Architecture,
    /// The guest-facing HTTP proxy port differs.
    ProxyPort,
    /// CPU or memory differ.
    Machine,
    /// One has an initrd and the other not.
    Initrd,
    /// The drives (ids and read-only flags) differ.
    Drives,
    /// One has a web terminal and the other not.
    WebTerminal,
    /// Guest IP or MAC differ.
    NetworkAddress,
    /// One has a network interface and the other not.
    NetworkInterface,
}

/// The read-only flag of drive `id`; a later entry with the same id wins,
/// as when the drives are collected into a map.
pub open spec fn drive_flag(drives: Seq<DriveSpec>, id: Seq<char>) -> Option<bool>
    decreases drives.len(),
{
    if drives.len() == 0 {
        None
    } else if drives.last().id@ == id {
        Some(drives.last().read_only)
    } else {
        drive_flag(drives.drop_last(), id)
    }
}

/// The same drives by id, with the same read-only flags.
pub open spec fn same_drives(a: Seq<DriveSpec>, b: Seq<DriveSpec>) -> bool {
    forall|id: Seq<char>| drive_flag(a, id) == drive_flag(b, id)
}

/// MACs equal up to ASCII case (`str::eq_ignore_ascii_case`).
pub open spec fn same_mac(a: Seq<char>, b: Seq<char>) -> bool {
    ascii_lower_text(a) == ascii_lower_text(b)
}

/// The guest-facing HTTP proxy port of a definition.
pub open spec fn proxy_port(spec: MachineSpec) -> u16 {
    match spec.inline_http_port {
        Some(p) => p,
        None => spec.egress_http_port,
    }
}

/// Whether a snapshot's guest was set up with an HTTP proxy.
pub open spec fn uses_http_proxy(source: SnapshotSource) -> bool {
    source.egress_bootstrap || source.spec.egress_policy || source.spec.inline_http_port is Some
}

/// The decision on restoring the snapshot `source` into a VM defined as
/// `target` on a host of architecture `host_architecture`.
pub open spec fn target_decision(
    source: SnapshotSource,
    target: MachineSpec,
    host_architecture: Seq<char>,
) -> Result<(), TargetError> {
    let s = source.spec;
    if !(target.mode == IsolationMode::Jailed && !target.external_socket) {
        Err(TargetError::NotManagedJailed)
    } else if source.architecture@ != host_architecture {
        Err(TargetError::Architecture)
    } else if uses_http_proxy(source) && proxy_port(s) != target.egress_http_port {
        Err(TargetError::ProxyPort)
    } else if s.vcpus != target.vcpus || s.memory_mib != target.memory_mib {
        Err(TargetError::Machine)
    } else if s.initrd != target.initrd {
        Err(TargetError::Initrd)
    } else if !same_drives(s.drives@, target.drives@) {
        Err(TargetError::Drives)
    } else if s.web_terminal != target.web_terminal {
        Err(TargetError::WebTerminal)
    } else {
        match (s.network, target.network) {
            (None, None) => Ok(()),
            (Some(a), Some(b)) => if a.address == b.address && same_mac(a.mac@, b.mac@) {
                Ok(())
            } else {
                Err(TargetError::NetworkAddress)
            },
            _ => Err(TargetError::NetworkInterface),
        }
    }
}

fn drive_flag_of(drives: &[DriveSpec], id: &String) -> (r: Option<bool>)
    ensures
        r == drive_flag(drives@, id@),
{
    let mut i = drives.len();
    assert(drives@.take(drives.len() as int) =~= drives@);
    while i > 0
        invariant
            i <= drives.len(),
            drive_flag(drives@, id@) == drive_flag(drives@.take(i as int), id@),
        decreases i,
    {
        let ghost t = drives@.take(i as int);
        assert(t.drop_last() =~= drives@.take(i - 1));
        assert(t.last() == drives@[i - 1]);
        if drives[i - 1].id == *id {
            return Some(drives[i - 1].read_only);
        }
        i -= 1;
    }
    None
}

proof fn lemma_drive_flag_some(drives: Seq<DriveSpec>, id: Seq<char>)
    ensures
        drive_flag(drives, id) is Some <==> exists|i: int|
            0 <= i < drives.len() && #[trigger] drives[i].id@ == id,
    decreases drives.len(),
{
    if drives.len() > 0 {
        lemma_drive_flag_some(drives.drop_last(), id);
        if exists|i: int| 0 <= i < drives.len() && #[trigger] drives[i].id@ == id {
            let i = choose|i: int| 0 <= i < drives.len() && #[trigger] drives[i].id@ == id;
            if i < drives.len() - 1 {
                assert(drives.drop_last()[i].id@ == id);
            }
        }
        if exists|i: int| 0 <= i < drives.len() - 1 && #[trigger] drives.drop_last()[i].id@ == id {
            let i = choose|i: int| 0 <= i < drives.len() - 1 && #[trigger] drives.drop_last()[i].id@ == id;
            assert(drives[i].id@ == id);
        }
    }
}

/// Every id of `a` has the same flag in `b`.
fn flags_agree(a: &[DriveSpec], b: &[DriveSpec]) -> (r: bool)
    ensures
        r == forall|i: int| 0 <= i < a@.len() ==> drive_flag(a@, #[trigger] a@[i].id@) == drive_flag(b@, a@[i].id@),
{
    let mut i: usize = 0;
    while i < a.len()
        invariant
            i <= a.len(),
            forall|j: int| 0 <= j < i ==> drive_flag(a@, #[trigger] a@[j].id@) == drive_flag(b@, a@[j].id@),
        decreases a.len() - i,
    {
        if drive_flag_of(a, &a[i].id) != drive_flag_of(b, &a[i].id) {
            return false;
        }
        i += 1;
    }
    true
}

fn drives_match(a: &[DriveSpec], b: &[DriveSpec]) -> (r: bool)
    ensures
        r == same_drives(a@, b@),
{
    let forward = flags_agree(a, b);
    let backward = flags_agree(b, a);
    proof {
        if forward && backward {
            assert forall|id: Seq<char>| drive_flag(a@, id) == drive_flag(b@, id) by {
                lemma_drive_flag_some(a@, id);
                lemma_drive_flag_some(b@, id);
                if drive_flag(a@, id) is Some {
                    let i = choose|i: int| 0 <= i < a@.len() && #[trigger] a@[i].id@ == id;
                    assert(drive_flag(a@, a@[i].id@) == drive_flag(b@, a@[i].id@));
                } else if drive_flag(b@, id) is Some {
                    let i = choose|i: int| 0 <= i < b@.len() && #[trigger] b@[i].id@ == id;
                    assert(drive_flag(b@, b@[i].id@) == drive_flag(a@, b@[i].id@));
                }
            }
        }
    }
    forward && backward
}

fn macs_match(a: &String, b: &String) -> (r: bool)
    ensures
        r == same_mac(a@, b@),
{
    to_ascii_lowercase(a.as_str()) == to_ascii_lowercase(b.as_str())
}

/// Decides whether a snapshot fits its target VM (see `target_decision`).
pub fn ensure_target(source: &SnapshotSource, target: &MachineSpec, host_architecture: &str) -> (r:
    Result<(), TargetError>)
    ensures
        r == target_decision(*source, *target, host_architecture@),
{
    let s = &source.spec;
    if !(target.mode == IsolationMode::Jailed && !target.external_socket) {
        return Err(TargetError::NotManagedJailed);
    }
    if source.architecture != owned_text(host_architecture) {
        return Err(TargetError::Architecture);
    }
    if source.egress_bootstrap || s.egress_policy || s.inline_http_port.is_some() {
        let port = match s.inline_http_port {
            Some(p) => p,
            None => s.egress_http_port,
        };
        if port != target.egress_http_port {
            return Err(TargetError::ProxyPort);
        }
    }
    if s.vcpus != target.vcpus || s.memory_mib != target.memory_mib {
        return Err(TargetError::Machine);
    }
    if s.initrd != target.initrd {
        return Err(TargetError::Initrd);
    }
    if !drives_match(&s.drives, &target.drives) {
        return Err(TargetError::Drives);
    }
    if s.web_terminal != target.web_terminal {
        return Err(TargetError::WebTerminal);
    }
    match (&s.network, &target.network) {
        (None, None) => Ok(()),
        (Some(a), Some(b)) => if a.address == b.address && macs_match(&a.mac, &b.mac) {
            Ok(())
        } else {
            Err(TargetError::NetworkAddress)
        },
        _ => Err(TargetError::NetworkInterface),
    }
}

/// A snapshot restores into the VM it was taken from, when that VM is a
/// managed jailed VM on the same architecture: renaming the VM or changing
/// its environment is no obstacle.
pub proof fn lemma_snapshot_fits_its_source(source: SnapshotSource, host_architecture: Seq<char>)
    requires
        source.spec.mode == IsolationMode::Jailed,
        !source.spec.external_socket,
        source.architecture@ == host_architecture,
        source.spec.inline_http_port is None,
    ensures
        target_decision(source, source.spec, host_architecture) is Ok,
{
}

// ---------------------------------------------------------------------------
// Firecracker device configuration
/// A JSON value of the Firecracker configuration as far as the checks read
/// it: `Unsigned` for numbers that are `u64` values, `Other` for anything
/// else (arrays, objects, other numbers).
#[derive(Clone, Debug)]
pub enum JsonScalar {
    Null,
    Bool(bool),
    Unsigned(u64),
    Text(String),
    Other,
}

pub open spec fn is_text(v: JsonScalar, t: Seq<char>) -> bool {
    v matches JsonScalar::Text(s) && s@ == t
}

pub open spec fn is_unsigned(v: JsonScalar, n: int) -> bool {
    v matches JsonScalar::Unsigned(u) && u == n
}

pub open spec fn is_bool(v: JsonScalar, b: bool) -> bool {
    v matches JsonScalar::Bool(x) && x == b
}

/// A `drives` entry.
#[derive(Clone, Debug)]
pub struct DriveConfig {
    pub drive_id: JsonScalar,
    pub path_on_host: JsonScalar,
    pub is_read_only: JsonScalar,
    pub is_root_device: JsonScalar,
    pub socket: JsonScalar,
}

/// A `network-interfaces` entry.
#[derive(Clone, Debug)]
pub struct NicConfig {
    pub iface_id: JsonScalar,
    pub guest_mac: JsonScalar,
}

/// The `pmem` entry.
#[derive(Clone, Copy, Debug, PartialEq, Eq, Structural)]
pub enum Pmem {
    Absent,
    NoDevices,
    Devices,
}

/// The parts of `GET /vm/config` the checks read.
#[derive(Clone, Debug)]
pub struct DeviceConfig {
    pub is_object: bool,
    pub vsock: JsonScalar,
    /// The `uds_path` of the vsock device; `Null` when there is none.
    pub vsock_uds_path: JsonScalar,
    pub balloon: JsonScalar,
    pub cpu_config: JsonScalar,
    pub memory_hotplug: JsonScalar,
    pub pmem: Pmem,
    pub vcpu_count: JsonScalar,
    pub mem_size_mib: JsonScalar,
    pub smt: JsonScalar,
    pub huge_pages: JsonScalar,
    pub kernel_image_path: JsonScalar,
    pub initrd_path: JsonScalar,
    /// `None` when `drives` is not an array.
    pub drives: Option<Vec<DriveConfig>>,
    /// `None` when `network-interfaces` is not an array.
    pub network_interfaces: Option<Vec<NicConfig>>,
}

/// The socket of the web terminal's vsock device inside the jail.
pub open spec fn shell_device() -> Seq<char> {
    "/shell/vsock.sock"@
}

/// Why a Firecracker configuration is not the managed one.
#[derive(Clone, Copy, Debug, PartialEq, Eq, Structural)]
pub enum ConfigError {
    InvalidConfiguration,
    UnmanagedVsock,
    UnmanagedBalloon,
    UnmanagedCpuConfig,
    UnmanagedMemoryHotplug,
    PersistentMemory,
    MachineMismatch,
    Smt,
    HugePages,
    KernelOutsideResources,
    InitrdOutsideResources,
    UnexpectedInitrd,
    MissingDrives,
    DiskCount,
    MissingDriveId,
    UnexpectedDrive,
    DiskMismatch,
    MissingNetworkInterfaces,
    UnexpectedNetworkInterface,
    NetworkInterfaceMismatch,
}

/// A disk the managed configuration expects: id, host path inside the
/// jail, read-only flag and root flag.
pub type DiskExpectation = (Seq<char>, Seq<char>, bool, bool);

/// Index of the entry with id `id`.
pub open spec fn key_index(s: Seq<DiskExpectation>, id: Seq<char>) -> Option<int>
    decreases s.len(),
{
    if s.len() == 0 {
        None
    } else if s.last().0 == id {
        Some(s.len() - 1)
    } else {
        key_index(s.drop_last(), id)
    }
}

/// Adds an entry, replacing one with the same id (map insertion).
pub open spec fn upsert(s: Seq<DiskExpectation>, e: DiskExpectation) -> Seq<DiskExpectation> {
    match key_index(s, e.0) {
        Some(i) => s.update(i, e),
        None => s.push(e),
    }
}

pub open spec fn drive_disk_path(id: Seq<char>) -> Seq<char> {
    "/resources/drive-"@ + id + ".img"@
}

/// The root disk and each drive of the definition.
pub open spec fn drive_expectations(drives: Seq<DriveSpec>) -> Seq<DiskExpectation>
    decreases drives.len(),
{
    if drives.len() == 0 {
        seq![("rootfs"@, "/resources/rootfs.ext4"@, false, true)]
    } else {
        upsert(
            drive_expectations(drives.drop_last()),
            (drives.last().id@, drive_disk_path(drives.last().id@), drives.last().read_only, false),
        )
    }
}

/// The disks expected: root, drives, and the seed disk when one is
/// configured.
pub open spec fn expected_disks(drives: Seq<DriveSpec>, seed: bool) -> Seq<DiskExpectation> {
    if seed {
        upsert(drive_expectations(drives), ("seed"@, "/resources/seed.ext4"@, true, false))
    } else {
        drive_expectations(drives)
    }
}

/// Each disk, in order, claims a distinct expected entry and matches it.
pub open spec fn disks_decision(disks: Seq<DriveConfig>, expected: Seq<DiskExpectation>) -> Result<
    (),
    ConfigError,
>
    decreases disks.len(),
{
    if disks.len() == 0 {
        Ok(())
    } else {
        let d = disks[0];
        match d.drive_id {
            JsonScalar::Text(id) => match key_index(expected, id@) {
                None => Err(ConfigError::UnexpectedDrive),
                Some(i) => {
                    let e = expected[i];
                    if is_text(d.path_on_host, e.1) && is_bool(d.is_read_only, e.2) && is_bool(
                        d.is_root_device,
                        e.3,
                    ) && d.socket is Null {
                        disks_decision(disks.drop_first(), expected.remove(i))
                    } else {
                        Err(ConfigError::DiskMismatch)
                    }
                },
            },
            _ => Err(ConfigError::MissingDriveId),
        }
    }
}

pub open spec fn has_seed_disk(disks: Seq<DriveConfig>) -> bool {
    exists|i: int| 0 <= i < disks.len() && is_text(#[trigger] disks[i].drive_id, "seed"@)
}

/// The decision on the Firecracker configuration `config` of a VM defined
/// as `spec`.
pub open spec fn config_decision(config: DeviceConfig, spec: MachineSpec) -> Result<(), ConfigError> {
    let vcpus = spec.vcpus;
    let memory_mib = spec.memory_mib;
    let initrd = spec.initrd;
    let drives = spec.drives@;
    if !config.is_object {
        Err(ConfigError::InvalidConfiguration)
    } else if !(if spec.web_terminal {
        is_text(config.vsock_uds_path, shell_device())
    } else {
        config.vsock is Null
    }) {
        Err(ConfigError::UnmanagedVsock)
    } else if !(config.balloon is Null) {
        Err(ConfigError::UnmanagedBalloon)
    } else if !(config.cpu_config is Null) {
        Err(ConfigError::UnmanagedCpuConfig)
    } else if !(config.memory_hotplug is Null) {
        Err(ConfigError::UnmanagedMemoryHotplug)
    } else if config.pmem == Pmem::Devices {
        Err(ConfigError::PersistentMemory)
    } else if !(is_unsigned(config.vcpu_count, vcpus as int) && is_unsigned(
        config.mem_size_mib,
        memory_mib as int,
    )) {
        Err(ConfigError::MachineMismatch)
    } else if is_bool(config.smt, true) {
        Err(ConfigError::Smt)
    } else if !(config.huge_pages is Null || is_text(config.huge_pages, "None"@)) {
        Err(ConfigError::HugePages)
    } else if !is_text(config.kernel_image_path, "/resources/kernel"@) {
        Err(ConfigError::KernelOutsideResources)
    } else if initrd && !is_text(config.initrd_path, "/resources/initrd"@) {
        Err(ConfigError::InitrdOutsideResources)
    } else if !initrd && !(config.initrd_path is Null) {
        Err(ConfigError::UnexpectedInitrd)
    } else {
        match config.drives {
            None => Err(ConfigError::MissingDrives),
            Some(disks) => {
                let expected = expected_disks(drives, has_seed_disk(disks@));
                if disks@.len() != expected.len() {
                    Err(ConfigError::DiskCount)
                } else {
                    match disks_decision(disks@, expected) {
                        Err(e) => Err(e),
                        Ok(()) => match config.network_interfaces {
                            None => Err(ConfigError::MissingNetworkInterfaces),
                            Some(nics) => match spec.network {
                                None => if nics@.len() == 0 {
                                    Ok(())
                                } else {
                                    Err(ConfigError::UnexpectedNetworkInterface)
                                },
                                Some(net) => if nics@.len() == 1 && is_text(
                                    nics@[0].iface_id,
                                    "eth0"@,
                                ) && (nics@[0].guest_mac matches JsonScalar::Text(g) && same_mac(
                                    g@,
                                    net.mac@,
                                )) {
                                    Ok(())
                                } else {
                                    Err(ConfigError::NetworkInterfaceMismatch)
                                },
                            },
                        },
                    }
                }
            },
        }
    }
}

fn scalar_is_text(v: &JsonScalar, t: &str) -> (r: bool)
    ensures
        r == is_text(*v, t@),
{
    match v {
        JsonScalar::Text(s) => *s == owned_text(t),
        _ => false,
    }
}

fn scalar_is_text_of(v: &JsonScalar, t: &String) -> (r: bool)
    ensures
        r == is_text(*v, t@),
{
    match v {
        JsonScalar::Text(s) => *s == *t,
        _ => false,
    }
}

fn scalar_is_null(v: &JsonScalar) -> (r: bool)
    ensures
        r == (*v is Null),
{
    match v {
        JsonScalar::Null => true,
        _ => false,
    }
}

fn scalar_is_bool(v: &JsonScalar, b: bool) -> (r: bool)
    ensures
        r == is_bool(*v, b),
{
    match v {
        JsonScalar::Bool(x) => *x == b,
        _ => false,
    }
}

fn scalar_is_unsigned(v: &JsonScalar, n: u64) -> (r: bool)
    ensures
        r == is_unsigned(*v, n as int),
{
    match v {
        JsonScalar::Unsigned(u) => *u == n,
        _ => false,
    }
}

/// An expected disk, held by the check.
struct Expected {
    id: String,
    path: String,
    read_only: bool,
    root: bool,
}

spec fn expectation_of(e: Expected) -> DiskExpectation {
    (e.id@, e.path@, e.read_only, e.root)
}

spec fn expectations(v: Seq<Expected>) -> Seq<DiskExpectation> {
    v.map_values(|e: Expected| expectation_of(e))
}

fn key_index_of(v: &Vec<Expected>, id: &String) -> (r: Option<usize>)
    ensures
        match r {
            Some(i) => i < v@.len() && key_index(expectations(v@), id@) == Some(i as int),
            None => key_index(expectations(v@), id@) is None,
        },
{
    let mut i = v.len();
    assert(expectations(v@).take(v.len() as int) =~= expectations(v@));
    while i > 0
        invariant
            i <= v.len(),
            key_index(expectations(v@), id@) == key_index(expectations(v@).take(i as int), id@),
        decreases i,
    {
        let ghost t = expectations(v@).take(i as int);
        assert(t.drop_last() =~= expectations(v@).take(i - 1));
        assert(t.last() == expectation_of(v@[i - 1]));
        if v[i - 1].id == *id {
            return Some(i - 1);
        }
        i -= 1;
    }
    None
}

fn upsert_expected(v: &mut Vec<Expected>, e: Expected)
    ensures
        expectations(final(v)@) == upsert(expectations(old(v)@), expectation_of(e)),
{
    let ghost view_e = expectation_of(e);
    match key_index_of(v, &e.id) {
        Some(i) => {
            v.set(i, e);
            assert(expectations(v@) =~= expectations(old(v)@).update(i as int, view_e));
        },
        None => {
            v.push(e);
            assert(expectations(v@) =~= expectations(old(v)@).push(view_e));
        },
    }
}

fn drive_path_text(id: &String) -> (r: String)
    ensures
        r@ == drive_disk_path(id@),
{
    let mut r = owned_text("/resources/drive-");
    push_text(&mut r, id.as_str());
    push_text(&mut r, ".img");
    r
}

fn expected_disks_of(drives: &[DriveSpec], seed: bool) -> (r: Vec<Expected>)
    ensures
        expectations(r@) == expected_disks(drives@, seed),
{
    let mut v: Vec<Expected> = Vec::new();
    v.push(
        Expected {
            id: owned_text("rootfs"),
            path: owned_text("/resources/rootfs.ext4"),
            read_only: false,
            root: true,
        },
    );
    assert(drives@.take(0) =~= Seq::<DriveSpec>::empty());
    assert(expectations(v@) =~= drive_expectations(drives@.take(0)));
    let mut i: usize = 0;
    while i < drives.len()
        invariant
            i <= drives.len(),
            expectations(v@) == drive_expectations(drives@.take(i as int)),
        decreases drives.len() - i,
    {
        let ghost t = drives@.take(i + 1);
        assert(t.drop_last() =~= drives@.take(i as int));
        assert(t.last() == drives@[i as int]);
        let e = Expected {
            id: drives[i].id.clone(),
            path: drive_path_text(&drives[i].id),
            read_only: drives[i].read_only,
            root: false,
        };
        upsert_expected(&mut v, e);
        i += 1;
    }
    assert(drives@.take(i as int) =~= drives@);
    if seed {
        upsert_expected(
            &mut v,
            Expected {
                id: owned_text("seed"),
                path: owned_text("/resources/seed.ext4"),
                read_only: true,
                root: false,
            },
        );
    }
    v
}

fn check_disks(disks: &[DriveConfig], wanted: Vec<Expected>) -> (r: Result<(), ConfigError>)
    ensures
        r == disks_decision(disks@, expectations(wanted@)),
{
    let ghost start = expectations(wanted@);
    let mut expected = wanted;
    let mut i: usize = 0;
    assert(disks@.skip(0) =~= disks@);
    while i < disks.len()
        invariant
            i <= disks.len(),
            start == expectations(wanted@),
            disks_decision(disks@, start) == disks_decision(
                disks@.skip(i as int),
                expectations(expected@),
            ),
        decreases disks.len() - i,
    {
        let ghost rest = disks@.skip(i as int);
        assert(rest[0] == disks@[i as int]);
        assert(rest.drop_first() =~= disks@.skip(i + 1));
        let d = &disks[i];
        let id = match &d.drive_id {
            JsonScalar::Text(id) => id,
            _ => return Err(ConfigError::MissingDriveId),
        };
        let k = match key_index_of(&expected, id) {
            Some(k) => k,
            None => return Err(ConfigError::UnexpectedDrive),
        };
        assert(expectations(expected@)[k as int] == expectation_of(expected@[k as int]));
        if !(scalar_is_text_of(&d.path_on_host, &expected[k].path) && scalar_is_bool(
            &d.is_read_only,
            expected[k].read_only,
        ) && scalar_is_bool(&d.is_root_device, expected[k].root) && scalar_is_null(&d.socket)) {
            return Err(ConfigError::DiskMismatch);
        }
        let ghost before = expected@;
        expected.remove(k);
        assert(expectations(expected@) =~= expectations(before).remove(k as int));
        i += 1;
    }
    assert(disks@.skip(i as int).len() == 0);
    Ok(())
}

fn has_seed_disk_of(disks: &[DriveConfig]) -> (r: bool)
    ensures
        r == has_seed_disk(disks@),
{
    let mut i: usize = 0;
    while i < disks.len()
        invariant
            i <= disks.len(),
            forall|j: int| 0 <= j < i ==> !is_text(#[trigger] disks@[j].drive_id, "seed"@),
        decreases disks.len() - i,
    {
        if scalar_is_text(&disks[i].drive_id, "seed") {
            return true;
        }
        i += 1;
    }
    false
}

/// Decides whether a Firecracker configuration holds only the devices that
/// the runtime manages for the VM defined as `spec` (see `config_decision`).
pub fn ensure_config(config: &DeviceConfig, spec: &MachineSpec) -> (r: Result<(), ConfigError>)
    ensures
        r == config_decision(*config, *spec),
{
    if !config.is_object {
        return Err(ConfigError::InvalidConfiguration);
    }
    let vsock_ok = if spec.web_terminal {
        scalar_is_text(&config.vsock_uds_path, "/shell/vsock.sock")
    } else {
        scalar_is_null(&config.vsock)
    };
    if !vsock_ok {
        return Err(ConfigError::UnmanagedVsock);
    }
    if !scalar_is_null(&config.balloon) {
        return Err(ConfigError::UnmanagedBalloon);
    }
    if !scalar_is_null(&config.cpu_config) {
        return Err(ConfigError::UnmanagedCpuConfig);
    }
    if !scalar_is_null(&config.memory_hotplug) {
        return Err(ConfigError::UnmanagedMemoryHotplug);
    }
    if config.pmem == Pmem::Devices {
        return Err(ConfigError::PersistentMemory);
    }
    if !(scalar_is_unsigned(&config.vcpu_count, spec.vcpus as u64) && scalar_is_unsigned(
        &config.mem_size_mib,
        spec.memory_mib as u64,
    )) {
        return Err(ConfigError::MachineMismatch);
    }
    if scalar_is_bool(&config.smt, true) {
        return Err(ConfigError::Smt);
    }
    if !(scalar_is_null(&config.huge_pages) || scalar_is_text(&config.huge_pages, "None")) {
        return Err(ConfigError::HugePages);
    }
    if !scalar_is_text(&config.kernel_image_path, "/resources/kernel") {
        return Err(ConfigError::KernelOutsideResources);
    }
    if spec.initrd && !scalar_is_text(&config.initrd_path, "/resources/initrd") {
        return Err(ConfigError::InitrdOutsideResources);
    }
    if !spec.initrd && !scalar_is_null(&config.initrd_path) {
        return Err(ConfigError::UnexpectedInitrd);
    }
    let disks = match &config.drives {
        Some(d) => d,
        None => return Err(ConfigError::MissingDrives),
    };
    let expected = expected_disks_of(spec.drives.as_slice(), has_seed_disk_of(disks.as_slice()));
    if disks.len() != expected.len() {
        return Err(ConfigError::DiskCount);
    }
    check_disks(disks.as_slice(), expected)?;
    let nics = match &config.network_interfaces {
        Some(n) => n,
        None => return Err(ConfigError::MissingNetworkInterfaces),
    };
    match &spec.network {
        None => if nics.len() == 0 {
            Ok(())
        } else {
            Err(ConfigError::UnexpectedNetworkInterface)
        },
        Some(net) => {
            if nics.len() == 1 && scalar_is_text(&nics[0].iface_id, "eth0") {
                match &nics[0].guest_mac {
                    JsonScalar::Text(g) => if macs_match(g, &net.mac) {
                        Ok(())
                    } else {
                        Err(ConfigError::NetworkInterfaceMismatch)
                    },
                    _ => Err(ConfigError::NetworkInterfaceMismatch),
                }
            } else {
                Err(ConfigError::NetworkInterfaceMismatch)
            }
        },
    }
}

// ---------------------------------------------------------------------------
// Snapshot state files
/// The largest snapshot state file whose digest names a snapshot record:
/// 64 MiB.
pub const STATE_FILE_LIMIT: u64 = 67108864;

/// Whether `size` bytes of a state file, announced or read so far, stay
/// within `STATE_FILE_LIMIT`.
pub fn state_size_allowed(size: u64) -> (r: bool)
    ensures
        r == (size <= STATE_FILE_LIMIT),
{
    size <= STATE_FILE_LIMIT
}

// ---------------------------------------------------------------------------
// The snapshot library
/// Why a library snapshot is not restored.
#[derive(Clone, Copy, Debug, PartialEq, Eq, Structural)]
pub enum LibraryError {
    /// An uploaded snapshot must be trusted by an administrator first.
    Untrusted,
    /// The archive's digest differs from the recorded one.
    IntegrityFailed,
    /// The unpacked manifest differs from the recorded one.
    ManifestChanged,
}

/// A library snapshot is restored only when it is trusted and its archive's
/// digest is the recorded one.
pub fn check_library_snapshot(trusted: bool, recorded_sha256: &str, archive_sha256: &str) -> (r:
    Result<(), LibraryError>)
    ensures
        r == if !trusted {
            Err(LibraryError::Untrusted)
        } else if archive_sha256@ != recorded_sha256@ {
            Err(LibraryError::IntegrityFailed)
        } else {
            Ok::<(), LibraryError>(())
        },
{
    if !trusted {
        Err(LibraryError::Untrusted)
    } else if !crate::text::chars_equal(
        &crate::text::chars_of(archive_sha256),
        &crate::text::chars_of(recorded_sha256),
    ) {
        Err(LibraryError::IntegrityFailed)
    } else {
        Ok(())
    }
}

/// The unpacked manifest, serialized, must be the recorded one.
pub fn check_library_manifest(recorded: &str, unpacked: &str) -> (r: Result<(), LibraryError>)
    ensures
        r is Ok <==> unpacked@ == recorded@,
        r matches Err(e) ==> e == LibraryError::ManifestChanged,
{
    if crate::text::chars_equal(&crate::text::chars_of(unpacked), &crate::text::chars_of(recorded)) {
        Ok(())
    } else {
        Err(LibraryError::ManifestChanged)
    }
}

/// The snapshots taken from VM `vm`, in library order: those deleted with
/// it. `snapshots` holds each snapshot's id and source VM.
pub open spec fn taken_from(snapshots: Seq<(Seq<char>, Option<Seq<char>>)>, vm: Seq<char>) -> Seq<Seq<char>>
    decreases snapshots.len(),
{
    if snapshots.len() == 0 {
        seq![]
    } else {
        let rest = taken_from(snapshots.drop_last(), vm);
        if snapshots.last().1 == Some(vm) {
            rest.push(snapshots.last().0)
        } else {
            rest
        }
    }
}

pub open spec fn snapshot_rows(rows: Seq<(String, Option<String>)>) -> Seq<(Seq<char>, Option<Seq<char>>)> {
    rows.map_values(
        |r: (String, Option<String>)|
            (
                r.0@,
                match r.1 {
                    Some(v) => Some(v@),
                    None => None,
                },
            ),
    )
}

/// The ids of the snapshots taken from `vm` (see `taken_from`).
pub fn snapshots_of_vm(snapshots: &[(String, Option<String>)], vm: &str) -> (r: Vec<String>)
    ensures
        texts(r@) == taken_from(snapshot_rows(snapshots@), vm@),
{
    let ghost rows = snapshot_rows(snapshots@);
    let mut r: Vec<String> = Vec::new();
    let mut i: usize = 0;
    assert(rows.take(0) =~= Seq::<(Seq<char>, Option<Seq<char>>)>::empty());
    while i < snapshots.len()
        invariant
            i <= snapshots.len(),
            rows == snapshot_rows(snapshots@),
            texts(r@) == taken_from(rows.take(i as int), vm@),
        decreases snapshots.len() - i,
    {
        let ghost t = rows.take(i + 1);
        assert(t.drop_last() =~= rows.take(i as int));
        assert(t.last() == rows[i as int]);
        let matches = match &snapshots[i].1 {
            Some(source) => crate::text::chars_equal(
                &crate::text::chars_of(source.as_str()),
                &crate::text::chars_of(vm),
            ),
            None => false,
        };
        if matches {
            let ghost before = r@;
            r.push(owned_text(snapshots[i].0.as_str()));
            assert(texts(r@) =~= texts(before).push(snapshots@[i as int].0@));
        }
        i += 1;
    }
    assert(rows.take(i as int) =~= rows);
    r
}

/// The snapshots kept when VM `vm` is deleted with its snapshots: all those
/// not taken from it, in library order.
pub open spec fn kept_after_delete(snapshots: Seq<(Seq<char>, Option<Seq<char>>)>, vm: Seq<char>) -> Seq<
    (Seq<char>, Option<Seq<char>>),
>
    decreases snapshots.len(),
{
    if snapshots.len() == 0 {
        seq![]
    } else {
        let rest = kept_after_delete(snapshots.drop_last(), vm);
        if snapshots.last().1 == Some(vm) {
            rest
        } else {
            rest.push(snapshots.last())
        }
    }
}

/// Deleting a VM with its snapshots removes the snapshots taken from it,
/// and only those: an id is removed exactly when a snapshot with that id
/// was taken from the VM, a snapshot is kept exactly when it was not taken
/// from the VM (uploads and other VMs' snapshots), and every snapshot is
/// either removed or kept.
pub proof fn lemma_vm_deletion_removes_only_its_snapshots(
    snapshots: Seq<(Seq<char>, Option<Seq<char>>)>,
    vm: Seq<char>,
)
    ensures
        forall|id: Seq<char>|
            #[trigger] taken_from(snapshots, vm).contains(id) <==> exists|i: int|
                0 <= i < snapshots.len() && snapshots[i].0 == id && snapshots[i].1 == Some(vm),
        forall|e: (Seq<char>, Option<Seq<char>>)|
            #[trigger] kept_after_delete(snapshots, vm).contains(e) <==> (snapshots.contains(e)
                && e.1 != Some(vm)),
        taken_from(snapshots, vm).len() + kept_after_delete(snapshots, vm).len() == snapshots.len(),
    decreases snapshots.len(),
{
    if snapshots.len() > 0 {
        let init = snapshots.drop_last();
        let last = snapshots.last();
        lemma_vm_deletion_removes_only_its_snapshots(init, vm);
        let t = taken_from(init, vm);
        let k = kept_after_delete(init, vm);
        assert forall|id: Seq<char>|
            #[trigger] taken_from(snapshots, vm).contains(id) <==> exists|i: int|
                0 <= i < snapshots.len() && snapshots[i].0 == id && snapshots[i].1 == Some(vm) by {
            if taken_from(snapshots, vm).contains(id) {
                if last.1 == Some(vm) && id == last.0 {
                    assert(snapshots[snapshots.len() - 1] == last);
                } else {
                    if last.1 == Some(vm) {
                        let j = choose|j: int| 0 <= j < t.push(last.0).len() && t.push(last.0)[j] == id;
                        assert(j < t.len());
                        assert(t[j] == id);
                        assert(t.contains(id));
                    }
                    let i = choose|i: int| 0 <= i < init.len() && init[i].0 == id && init[i].1 == Some(vm);
                    assert(snapshots[i] == init[i]);
                }
            }
            if exists|i: int| 0 <= i < snapshots.len() && snapshots[i].0 == id && snapshots[i].1 == Some(vm) {
                let i = choose|i: int| 0 <= i < snapshots.len() && snapshots[i].0 == id && snapshots[i].1 == Some(vm);
                if i == snapshots.len() - 1 {
                    assert(t.push(last.0)[t.len() as int] == id);
                } else {
                    assert(init[i] == snapshots[i]);
                    assert(t.contains(id));
                    let j = choose|j: int| 0 <= j < t.len() && t[j] == id;
                    if last.1 == Some(vm) {
                        assert(t.push(last.0)[j] == id);
                    }
                }
            }
        }
        assert forall|e: (Seq<char>, Option<Seq<char>>)|
            #[trigger] kept_after_delete(snapshots, vm).contains(e) <==> (snapshots.contains(e)
                && e.1 != Some(vm)) by {
            if kept_after_delete(snapshots, vm).contains(e) {
                if last.1 != Some(vm) && e == last {
                    assert(snapshots[snapshots.len() - 1] == e);
                } else {
                    if last.1 != Some(vm) {
                        let j = choose|j: int| 0 <= j < k.push(last).len() && k.push(last)[j] == e;
                        assert(j < k.len());
                        assert(k[j] == e);
                        assert(k.contains(e));
                    }
                    let i = choose|i: int| 0 <= i < init.len() && init[i] == e;
                    assert(snapshots[i] == e);
                }
            }
            if snapshots.contains(e) && e.1 != Some(vm) {
                let i = choose|i: int| 0 <= i < snapshots.len() && snapshots[i] == e;
                if i == snapshots.len() - 1 {
                    assert(k.push(last)[k.len() as int] == e);
                } else {
                    assert(init[i] == e);
                    assert(init.contains(e));
                    assert(k.contains(e));
                    let j = choose|j: int| 0 <= j < k.len() && k[j] == e;
                    if last.1 != Some(vm) {
                        assert(k.push(last)[j] == e);
                    }
                }
            }
        }
    }
}

// ---------------------------------------------------------------------------
// Restoring into a managed network
/// The network a snapshot was taken on still has the same subnet (as a
/// network: address with the host bits cleared, and prefix), gateway and
/// policy.
pub open spec fn same_network(current: NetworkSpec, saved: NetworkSpec) -> bool {
    &&& subnet_network(current.subnet) == subnet_network(saved.subnet)
    &&& current.subnet.prefix_len == saved.subnet.prefix_len
    &&& current.gateway == saved.gateway
    &&& current.policy == saved.policy
}

/// Whether the target's network matches the one recorded in the snapshot.
pub fn network_matches(current: &NetworkSpec, saved: &NetworkSpec) -> (r: bool)
    requires
        subnet_valid(current.subnet),
        subnet_valid(saved.subnet),
    ensures
        r == same_network(*current, *saved),
{
    network_address(&current.subnet) == network_address(&saved.subnet)
        && current.subnet.prefix_len == saved.subnet.prefix_len && current.gateway == saved.gateway
        && current.policy == saved.policy
}

// ---------------------------------------------------------------------------
// Capturing a snapshot
/// Why a VM cannot be captured.
#[derive(Clone, Copy, Debug, PartialEq, Eq, Structural)]
pub enum CaptureRefusal {
    /// One of the owner's snapshots already has the alias.
    AliasTaken,
    /// The VM must be paused.
    NotPaused,
    /// Portable snapshots need a managed jailed VM.
    NotJailed,
}

pub open spec fn capture_refusal(aliases: Seq<Seq<char>>, alias: Seq<char>, state: VmState, mode: IsolationMode) -> Option<
    CaptureRefusal,
> {
    if aliases.contains(alias) {
        Some(CaptureRefusal::AliasTaken)
    } else if state != VmState::Paused {
        Some(CaptureRefusal::NotPaused)
    } else if mode != IsolationMode::Jailed {
        Some(CaptureRefusal::NotJailed)
    } else {
        None
    }
}

/// Whether a VM in `state` under `mode` may be captured under `alias`,
/// given the aliases of the owner's snapshots.
pub fn ensure_capture_allowed(aliases: &[String], alias: &String, state: VmState, mode: IsolationMode) -> (r:
    Result<(), CaptureRefusal>)
    ensures
        match capture_refusal(texts(aliases@), alias@, state, mode) {
            Some(e) => r == Err::<(), CaptureRefusal>(e),
            None => r is Ok,
        },
{
    if contains_text(aliases, alias) {
        Err(CaptureRefusal::AliasTaken)
    } else if state != VmState::Paused {
        Err(CaptureRefusal::NotPaused)
    } else if mode != IsolationMode::Jailed {
        Err(CaptureRefusal::NotJailed)
    } else {
        Ok(())
    }
}

/// A VM on a managed network is captured only while its first network
/// interface is the VM's own TAP device `tap`.
pub fn tap_matches(host_dev_name: Option<&str>, tap: &str) -> (r: bool)
    ensures
        r == (host_dev_name matches Some(n) && n@ == tap@),
{
    match host_dev_name {
        Some(n) => crate::text::chars_equal(&crate::text::chars_of(n), &crate::text::chars_of(tap)),
        None => false,
    }
}

/// Optional files of a VM's directory that a capture carries along.
#[derive(Clone, Debug)]
pub struct CaptureExtras {
    pub initrd: bool,
    pub oci_init_version: bool,
    pub egress_bootstrap: bool,
}

pub open spec fn drive_file_name(id: Seq<char>) -> Seq<char> {
    "drive-"@ + id + ".img"@
}

pub open spec fn drive_file_names(drives: Seq<DriveSpec>) -> Seq<Seq<char>>
    decreases drives.len(),
{
    if drives.len() == 0 {
        seq![]
    } else {
        drive_file_names(drives.drop_last()).push(drive_file_name(drives.last().id@))
    }
}

pub open spec fn when(present: bool, name: Seq<char>) -> Seq<Seq<char>> {
    if present {
        seq![name]
    } else {
        seq![]
    }
}

/// The VM files a capture packs, in order: kernel and root disk, the
/// optional files present, the seed disk when Firecracker has one, then one
/// image per drive.
pub open spec fn capture_names(extras: CaptureExtras, seed: bool, drives: Seq<DriveSpec>) -> Seq<
    Seq<char>,
> {
    seq!["kernel"@, "rootfs.ext4"@] + when(extras.initrd, "initrd"@) + when(
        extras.oci_init_version,
        "oci-init-version"@,
    ) + when(extras.egress_bootstrap, "egress-bootstrap"@) + when(seed, "seed.ext4"@)
        + drive_file_names(drives)
}

/// Whether Firecracker's configuration has a seed disk.
pub open spec fn config_has_seed(config: DeviceConfig) -> bool {
    match config.drives {
        Some(d) => has_seed_disk(d@),
        None => false,
    }
}

fn push_when(v: &mut Vec<String>, present: bool, name: &str)
    ensures
        texts(final(v)@) == texts(old(v)@) + when(present, name@),
{
    if present {
        let ghost before = v@;
        v.push(owned_text(name));
        assert(texts(v@) =~= texts(before) + when(present, name@));
    } else {
        assert(texts(v@) =~= texts(v@) + when(present, name@));
    }
}

/// The names of the files to capture (see `capture_names`), the seed disk
/// being the one of Firecracker's configuration `config`.
pub fn capture_file_names(extras: &CaptureExtras, config: &DeviceConfig, drives: &[DriveSpec]) -> (r:
    Vec<String>)
    ensures
        texts(r@) == capture_names(*extras, config_has_seed(*config), drives@),
{
    let mut v: Vec<String> = Vec::new();
    v.push(owned_text("kernel"));
    v.push(owned_text("rootfs.ext4"));
    assert(texts(v@) =~= seq!["kernel"@, "rootfs.ext4"@]);
    push_when(&mut v, extras.initrd, "initrd");
    push_when(&mut v, extras.oci_init_version, "oci-init-version");
    push_when(&mut v, extras.egress_bootstrap, "egress-bootstrap");
    let seed = match &config.drives {
        Some(d) => has_seed_disk_of(d.as_slice()),
        None => false,
    };
    push_when(&mut v, seed, "seed.ext4");
    let ghost head = texts(v@);
    let mut i: usize = 0;
    assert(drives@.take(0) =~= Seq::<DriveSpec>::empty());
    assert(head + drive_file_names(drives@.take(0)) =~= head);
    while i < drives.len()
        invariant
            i <= drives.len(),
            texts(v@) == head + drive_file_names(drives@.take(i as int)),
        decreases drives.len() - i,
    {
        let ghost t = drives@.take(i + 1);
        assert(t.drop_last() =~= drives@.take(i as int));
        assert(t.last() == drives@[i as int]);
        let ghost before = v@;
        let mut name = owned_text("drive-");
        push_text(&mut name, drives[i].id.as_str());
        push_text(&mut name, ".img");
        v.push(name);
        assert(texts(v@) =~= texts(before).push(drive_file_name(drives@[i as int].id@)));
        i += 1;
    }
    assert(drives@.take(i as int) =~= drives@);
    v
}

/// Why a capture is refused.
#[derive(Clone, Copy, Debug, PartialEq, Eq, Structural)]
pub enum CaptureError {
    /// A sum of file sizes does not fit in 64 bits.
    SizeOverflow,
    /// The capture would exceed the configured snapshot size limit.
    TooLarge,
}

/// The check before the capture: the VM's files and its guest memory
/// (`memory_mib` MiB) must fit within `limit` bytes.
pub open spec fn capture_estimate(disk_sizes: Seq<u64>, memory_mib: u32, limit: u64) -> Result<
    (),
    CaptureError,
> {
    let disks = sum_u64(disk_sizes);
    if disks > u64::MAX {
        Err(CaptureError::SizeOverflow)
    } else if disks + memory_mib as int * 0x10_0000 > limit {
        Err(CaptureError::TooLarge)
    } else {
        Ok(())
    }
}

pub fn check_capture_estimate(disk_sizes: &[u64], memory_mib: u32, limit: u64) -> (r: Result<
    (),
    CaptureError,
>)
    ensures
        r == capture_estimate(disk_sizes@, memory_mib, limit),
{
    let disks = match checked_sum(disk_sizes) {
        Some(t) => t,
        None => return Err(CaptureError::SizeOverflow),
    };
    let memory: u64 = memory_mib as u64 * 0x10_0000;
    match disks.checked_add(memory) {
        Some(size) => if size <= limit {
            Ok(())
        } else {
            Err(CaptureError::TooLarge)
        },
        None => Err(CaptureError::TooLarge),
    }
}

/// The check after the capture: state file, memory file and the VM's files
/// must fit within `limit` bytes.
pub open spec fn capture_total(state: u64, memory: u64, disk_sizes: Seq<u64>, limit: u64) -> Result<
    (),
    CaptureError,
> {
    let total = state + memory + sum_u64(disk_sizes);
    if total > u64::MAX {
        Err(CaptureError::SizeOverflow)
    } else if total > limit {
        Err(CaptureError::TooLarge)
    } else {
        Ok(())
    }
}

pub fn check_capture_total(state: u64, memory: u64, disk_sizes: &[u64], limit: u64) -> (r: Result<
    (),
    CaptureError,
>)
    ensures
        r == capture_total(state, memory, disk_sizes@, limit),
{
    proof {
        lemma_sum_u64_nonnegative(disk_sizes@);
    }
    let head = match state.checked_add(memory) {
        Some(t) => t,
        None => return Err(CaptureError::SizeOverflow),
    };
    let disks = match checked_sum(disk_sizes) {
        Some(t) => t,
        None => return Err(CaptureError::SizeOverflow),
    };
    match head.checked_add(disks) {
        Some(total) => if total <= limit {
            Ok(())
        } else {
            Err(CaptureError::TooLarge)
        },
        None => Err(CaptureError::SizeOverflow),
    }
}

/// A capture accepted after the fact never exceeds the limit.
pub proof fn lemma_accepted_capture_fits(state: u64, memory: u64, disk_sizes: Seq<u64>, limit: u64)
    ensures
        capture_total(state, memory, disk_sizes, limit) is Ok ==> state + memory + sum_u64(
            disk_sizes,
        ) <= limit,
{
}

// ---------------------------------------------------------------------------
// A failed restore
/// What becomes of a VM whose restore failed.
#[derive(Clone, Copy, Debug, PartialEq, Eq, Structural)]
pub enum RestoreFailure {
    /// Its process stopped and its files were put back: the VM is failed,
    /// with the restore's error.
    Failed,
    /// Its process stopped but its files could not be put back: the VM is in
    /// an unknown state, with both errors.
    RollbackFailed,
    /// Its process could not be stopped: the VM is in an unknown state, keeps
    /// its process id, and its original files stay in the backup.
    ProcessRetained,
}

pub open spec fn restore_failure(stopped: bool, rolled_back: bool) -> RestoreFailure {
    if !stopped {
        RestoreFailure::ProcessRetained
    } else if rolled_back {
        RestoreFailure::Failed
    } else {
        RestoreFailure::RollbackFailed
    }
}

/// Classifies a failed restore: whether the VM's process stopped and, if it
/// did, whether its files were rolled back.
pub fn classify_restore_failure(stopped: bool, rolled_back: bool) -> (r: RestoreFailure)
    ensures
        r == restore_failure(stopped, rolled_back),
{
    if !stopped {
        RestoreFailure::ProcessRetained
    } else if rolled_back {
        RestoreFailure::Failed
    } else {
        RestoreFailure::RollbackFailed
    }
}

pub open spec fn failure_state(f: RestoreFailure) -> VmState {
    match f {
        RestoreFailure::Failed => VmState::Failed,
        _ => VmState::Unknown,
    }
}

impl RestoreFailure {
    /// The state recorded for the VM.
    pub fn vm_state(self) -> (s: VmState)
        ensures
            s == failure_state(self),
    {
        match self {
            RestoreFailure::Failed => VmState::Failed,
            _ => VmState::Unknown,
        }
    }

    /// Whether the VM keeps its recorded process id.
    pub fn keeps_pid(self) -> (r: bool)
        ensures
            r == (self == RestoreFailure::ProcessRetained),
    {
        match self {
            RestoreFailure::ProcessRetained => true,
            _ => false,
        }
    }
}

/// The stage a snapshot restore has reached.
#[derive(Clone, Copy, Debug, PartialEq, Eq, Structural)]
pub enum RestoreStage {
    /// Checking the VM, the snapshot and the target; nothing is touched yet.
    Checks,
    /// Moving the VM's managed files into a backup and the snapshot's files
    /// in their place; a failed move puts them back itself.
    Swap,
    /// Starting Firecracker on the snapshot and verifying what it restored.
    Attempt,
    /// The attempt failed: stopping its process.
    Stop,
    /// The process stopped: putting the VM's files back from the backup.
    Rollback,
    /// The restore is over.
    Done(RestoreOutcome),
}

/// How a snapshot restore ended.
#[derive(Clone, Copy, Debug, PartialEq, Eq, Structural)]
pub enum RestoreOutcome {
    /// The VM runs the snapshot, paused; the backup is dropped.
    Restored,
    /// A check or the swap failed before anything started: the VM's record
    /// is unchanged.
    Refused,
    /// The attempt failed (see `RestoreFailure`).
    Failed(RestoreFailure),
}

/// The next stage of a restore, `ok` telling whether the work of `stage`
/// succeeded: the checks come first, the swap only after they all passed,
/// and a failed attempt stops the process before the files are put back.
pub open spec fn restore_transition(stage: RestoreStage, ok: bool) -> RestoreStage {
    match stage {
        RestoreStage::Checks => if ok {
            RestoreStage::Swap
        } else {
            RestoreStage::Done(RestoreOutcome::Refused)
        },
        RestoreStage::Swap => if ok {
            RestoreStage::Attempt
        } else {
            RestoreStage::Done(RestoreOutcome::Refused)
        },
        RestoreStage::Attempt => if ok {
            RestoreStage::Done(RestoreOutcome::Restored)
        } else {
            RestoreStage::Stop
        },
        RestoreStage::Stop => if ok {
            RestoreStage::Rollback
        } else {
            RestoreStage::Done(RestoreOutcome::Failed(RestoreFailure::ProcessRetained))
        },
        RestoreStage::Rollback => RestoreStage::Done(
            RestoreOutcome::Failed(
                if ok {
                    RestoreFailure::Failed
                } else {
                    RestoreFailure::RollbackFailed
                },
            ),
        ),
        RestoreStage::Done(o) => RestoreStage::Done(o),
    }
}

/// Decides the next stage of a restore (see `restore_transition`).
pub fn next_restore_stage(stage: RestoreStage, ok: bool) -> (r: RestoreStage)
    ensures
        r == restore_transition(stage, ok),
{
    match stage {
        RestoreStage::Checks => if ok {
            RestoreStage::Swap
        } else {
            RestoreStage::Done(RestoreOutcome::Refused)
        },
        RestoreStage::Swap => if ok {
            RestoreStage::Attempt
        } else {
            RestoreStage::Done(RestoreOutcome::Refused)
        },
        RestoreStage::Attempt => if ok {
            RestoreStage::Done(RestoreOutcome::Restored)
        } else {
            RestoreStage::Stop
        },
        RestoreStage::Stop => if ok {
            RestoreStage::Rollback
        } else {
            RestoreStage::Done(RestoreOutcome::Failed(RestoreFailure::ProcessRetained))
        },
        RestoreStage::Rollback => RestoreStage::Done(
            RestoreOutcome::Failed(
                if ok {
                    RestoreFailure::Failed
                } else {
                    RestoreFailure::RollbackFailed
                },
            ),
        ),
        RestoreStage::Done(o) => RestoreStage::Done(o),
    }
}

/// The stage reached from `stage` when the work of each stage in turn has
/// the results `results`.
pub open spec fn run_restore(stage: RestoreStage, results: Seq<bool>) -> RestoreStage
    decreases results.len(),
{
    if results.len() == 0 {
        stage
    } else {
        run_restore(restore_transition(stage, results[0]), results.drop_first())
    }
}

proof fn lemma_done_stays(o: RestoreOutcome, results: Seq<bool>)
    ensures
        run_restore(RestoreStage::Done(o), results) == RestoreStage::Done(o),
    decreases results.len(),
{
    if results.len() > 0 {
        lemma_done_stays(o, results.drop_first());
    }
}

/// A restore touches the VM's files only after every check passed, ends
/// restored only when the checks, the swap and the attempt all succeeded,
/// puts the files back only after the failed attempt's process stopped, and
/// classifies every failure after the swap as `classify_restore_failure`
/// does. A restore whose checks or swap failed leaves the VM refused and
/// unchanged.
pub proof fn lemma_restore_sequence(results: Seq<bool>)
    ensures
        results.len() >= 1 && !results[0] ==> run_restore(RestoreStage::Checks, results)
            == RestoreStage::Done(RestoreOutcome::Refused),
        results.len() >= 2 && results[0] ==> run_restore(RestoreStage::Checks, results.take(2))
            == if results[1] {
            RestoreStage::Attempt
        } else {
            RestoreStage::Done(RestoreOutcome::Refused)
        },
        run_restore(RestoreStage::Checks, results) == RestoreStage::Done(RestoreOutcome::Restored)
            <==> (results.len() >= 3 && results[0] && results[1] && results[2]),
        results.len() >= 4 && results[0] && results[1] && !results[2] ==> run_restore(
            RestoreStage::Checks,
            results,
        ) == RestoreStage::Done(
            RestoreOutcome::Failed(
                restore_failure(results[3], results.len() >= 5 && results[4]),
            ),
        ) || (results.len() == 4 && results[3] && run_restore(RestoreStage::Checks, results)
            == RestoreStage::Rollback),
        run_restore(RestoreStage::Checks, results) matches RestoreStage::Done(
            RestoreOutcome::Failed(f),
        ) ==> results.len() >= 4 && results[0] && results[1] && !results[2] && f
            == restore_failure(results[3], results.len() >= 5 && results[4]),
{
    reveal_with_fuel(run_restore, 6);
    if results.len() >= 1 {
        let r1 = results.drop_first();
        if !results[0] {
            lemma_done_stays(RestoreOutcome::Refused, r1);
        } else if results.len() >= 2 {
            let r2 = r1.drop_first();
            assert(r1[0] == results[1]);
            assert(results.take(2).drop_first().drop_first() =~= Seq::<bool>::empty());
            if !results[1] {
                lemma_done_stays(RestoreOutcome::Refused, r2);
            } else if results.len() >= 3 {
                let r3 = r2.drop_first();
                assert(r2[0] == results[2]);
                if results[2] {
                    lemma_done_stays(RestoreOutcome::Restored, r3);
                } else if results.len() >= 4 {
                    let r4 = r3.drop_first();
                    assert(r3[0] == results[3]);
                    if !results[3] {
                        lemma_done_stays(RestoreOutcome::Failed(RestoreFailure::ProcessRetained), r4);
                    } else if results.len() >= 5 {
                        let r5 = r4.drop_first();
                        assert(r4[0] == results[4]);
                        let f = if results[4] {
                            RestoreFailure::Failed
                        } else {
                            RestoreFailure::RollbackFailed
                        };
                        lemma_done_stays(RestoreOutcome::Failed(f), r5);
                    }
                }
            }
        }
    }
}

/// The error recorded for the VM after a failed restore: the restore's
/// error, with the rollback's error added when the files could not be put
/// back.
pub open spec fn recorded_restore_error(f: RestoreFailure, error: Seq<char>, rollback: Seq<char>) -> Seq<
    char,
> {
    match f {
        RestoreFailure::RollbackFailed => error + "; resource rollback failed: "@ + rollback,
        _ => error,
    }
}

/// The error a failed restore reports: the recorded one, and for a retained
/// process where the original files wait (`backup`).
pub open spec fn reported_restore_error(
    f: RestoreFailure,
    error: Seq<char>,
    rollback: Seq<char>,
    backup: Seq<char>,
) -> Seq<char> {
    match f {
        RestoreFailure::ProcessRetained => error
            + "; process cleanup failed, original resources retained at "@ + backup,
        _ => recorded_restore_error(f, error, rollback),
    }
}

impl RestoreFailure {
    /// The error recorded for the VM (see `recorded_restore_error`).
    pub fn recorded_error(self, error: &str, rollback: &str) -> (r: String)
        ensures
            r@ == recorded_restore_error(self, error@, rollback@),
    {
        let mut r = owned_text(error);
        if self == RestoreFailure::RollbackFailed {
            push_text(&mut r, "; resource rollback failed: ");
            push_text(&mut r, rollback);
        }
        r
    }

    /// The error the failed restore reports (see `reported_restore_error`).
    pub fn reported_error(self, error: &str, rollback: &str, backup: &str) -> (r: String)
        ensures
            r@ == reported_restore_error(self, error@, rollback@, backup@),
    {
        if self == RestoreFailure::ProcessRetained {
            let mut r = owned_text(error);
            push_text(&mut r, "; process cleanup failed, original resources retained at ");
            push_text(&mut r, backup);
            r
        } else {
            self.recorded_error(error, rollback)
        }
    }
}

/// Whether the restored Firecracker configuration has a seed disk exactly
/// when the snapshot's bundle carries one.
pub fn restored_seed_matches(config: &DeviceConfig, bundle_has_seed: bool) -> (r: bool)
    ensures
        r == (config_has_seed(*config) == bundle_has_seed),
{
    let seed = match &config.drives {
        Some(d) => has_seed_disk_of(d.as_slice()),
        None => false,
    };
    seed == bundle_has_seed
}

/// A VM whose restore failed is never left looking healthy: it is failed
/// only when its process stopped and its files were put back, and it keeps
/// a process id only when that process could not be stopped.
pub proof fn lemma_failed_restore_is_never_healthy(stopped: bool, rolled_back: bool)
    ensures
        failure_state(restore_failure(stopped, rolled_back)) == VmState::Failed <==> (stopped
            && rolled_back),
        failure_state(restore_failure(stopped, rolled_back)) == VmState::Failed
            || failure_state(restore_failure(stopped, rolled_back)) == VmState::Unknown,
        (restore_failure(stopped, rolled_back) == RestoreFailure::ProcessRetained) <==> !stopped,
{
}

} // verus!
