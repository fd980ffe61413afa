//! Preparing a Firecracker process for a VM: whether preparation is needed,
//! the kernel command line, and the devices a VM gets.
use crate::addressing::{Subnet, block_size, ipv4_text, ipv4_to_text, subnet_block_size};
use crate::snapshots::{
    DeviceConfig, DiskExpectation, DriveConfig, DriveSpec, JsonScalar, MachineSpec, NicConfig, Pmem,
    config_decision, disks_decision, drive_disk_path, drive_expectations, drive_file_name,
    expected_disks, has_seed_disk, is_bool, is_text, is_unsigned, key_index, upsert,
};
use crate::text::{owned_text, push_chars, push_text, chars_of};
use vstd::prelude::*;

verus! {

/// Whether Firecracker still needs its boot source and root disk: it has no
/// kernel image path, or no root device.
pub open spec fn preparation_required(config: DeviceConfig) -> bool {
    let kernel = config.kernel_image_path matches JsonScalar::Text(p) && p@.len() > 0;
    let root = match config.drives {
        Some(d) => exists|i: int|
            0 <= i < d@.len() && (#[trigger] d@[i]).is_root_device == JsonScalar::Bool(true),
        None => false,
    };
    !kernel || !root
}

fn is_root_drive(d: &DriveConfig) -> (r: bool)
    ensures
        r == (d.is_root_device == JsonScalar::Bool(true)),
{
    match d.is_root_device {
        JsonScalar::Bool(b) => b,
        _ => false,
    }
}

/// Decides whether a Firecracker process needs preparing (see
/// `preparation_required`).
pub fn is_preparation_required(config: &DeviceConfig) -> (r: bool)
    ensures
        r == preparation_required(*config),
{
    let kernel = match &config.kernel_image_path {
        JsonScalar::Text(p) => !p.as_str().is_empty(),
        _ => false,
    };
    let root = match &config.drives {
        Some(d) => {
            let mut found = false;
            let mut i: usize = 0;
            while i < d.len()
                invariant
                    i <= d.len(),
                    found == exists|j: int|
                        0 <= j < i && (#[trigger] d@[j]).is_root_device == JsonScalar::Bool(true),
                decreases d.len() - i,
            {
                if is_root_drive(&d[i]) {
                    found = true;
                }
                i += 1;
            }
            found
        },
        None => false,
    };
    !kernel || !root
}

/// The netmask of a prefix length: its top `prefix_len` bits set.
pub open spec fn netmask(prefix_len: u8) -> int {
    0x1_0000_0000 - block_size((32 - prefix_len) as nat)
}

pub fn netmask_of(prefix_len: u8) -> (m: u32)
    requires
        prefix_len <= 32,
    ensures
        m == netmask(prefix_len),
{
    let b = subnet_block_size(&Subnet { address: 0, prefix_len });
    (0x1_0000_0000u64 - b) as u32
}

/// The guest's static address setting on the kernel command line.
pub open spec fn ip_argument(address: u32, gateway: u32, prefix_len: u8) -> Seq<char> {
    " ip="@ + ipv4_text(address) + "::"@ + ipv4_text(gateway) + ":"@ + ipv4_text(
        netmask(prefix_len) as u32,
    ) + "::eth0:off"@
}

/// The kernel command line: the VM's own boot arguments, then the seed
/// marker when a seed disk exists, the init of an OCI root file system, and
/// the guest's address on its network.
pub open spec fn boot_arguments(
    base: Seq<char>,
    seed: bool,
    oci_rootfs: bool,
    network: Option<(u32, u32, u8)>,
) -> Seq<char> {
    base + (if seed {
        " firemage.seed=1"@
    } else {
        seq![]
    }) + (if oci_rootfs {
        " init=/firemage-init"@
    } else {
        seq![]
    }) + match network {
        Some((address, gateway, prefix_len)) => ip_argument(address, gateway, prefix_len),
        None => seq![],
    }
}

/// Builds the kernel command line (see `boot_arguments`); `network` holds
/// the guest's address, the gateway and the prefix length of its network.
pub fn boot_argument_text(
    base: &str,
    seed: bool,
    oci_rootfs: bool,
    network: Option<(u32, u32, u8)>,
) -> (r: String)
    requires
        network matches Some((_, _, p)) ==> p <= 32,
    ensures
        r@ == boot_arguments(base@, seed, oci_rootfs, network),
{
    let mut r = owned_text(base);
    let ghost after_base = r@;
    if seed {
        push_text(&mut r, " firemage.seed=1");
    }
    let ghost after_seed = r@;
    if oci_rootfs {
        push_text(&mut r, " init=/firemage-init");
    }
    let ghost after_oci = r@;
    match network {
        Some((address, gateway, prefix_len)) => {
            push_text(&mut r, " ip=");
            let a = ipv4_to_text(address);
            push_chars(&mut r, &chars_of(a.as_str()));
            push_text(&mut r, "::");
            let g = ipv4_to_text(gateway);
            push_chars(&mut r, &chars_of(g.as_str()));
            push_text(&mut r, ":");
            let m = ipv4_to_text(netmask_of(prefix_len));
            push_chars(&mut r, &chars_of(m.as_str()));
            push_text(&mut r, "::eth0:off");
            assert(r@ =~= after_oci + ip_argument(address, gateway, prefix_len));
        },
        None => {
            assert(r@ =~= after_oci + Seq::<char>::empty());
        },
    }
    assert(after_seed =~= after_base + (if seed {
        " firemage.seed=1"@
    } else {
        seq![]
    }));
    assert(after_oci =~= after_seed + (if oci_rootfs {
        " init=/firemage-init"@
    } else {
        seq![]
    }));
    r
}


// ---------------------------------------------------------------------------
// The devices a prepared VM has
/// Where a VM resource `name` is found: under the jail's `/resources` for a
/// jailed VM, else in the VM's directory.
pub open spec fn resource_path(resources: Seq<char>, name: Seq<char>) -> Seq<char> {
    resources + "/"@ + name
}

/// The disks of a prepared VM, as (drive id, path, read-only, root): the
/// root disk, the seed disk when there is one, then each drive.
pub open spec fn managed_drive_list(drives: Seq<DriveSpec>, seed: bool, resources: Seq<char>) -> Seq<
    DiskExpectation,
> {
    seq![("rootfs"@, resource_path(resources, "rootfs.ext4"@), false, true)] + (if seed {
        seq![("seed"@, resource_path(resources, "seed.ext4"@), true, false)]
    } else {
        seq![]
    }) + drives.map_values(
        |d: DriveSpec| (d.id@, resource_path(resources, drive_file_name(d.id@)), d.read_only, false),
    )
}

/// A Firecracker drive entry with exactly these settings.
pub open spec fn drive_config_is(d: DriveConfig, e: DiskExpectation) -> bool {
    &&& is_text(d.drive_id, e.0)
    &&& is_text(d.path_on_host, e.1)
    &&& is_bool(d.is_read_only, e.2)
    &&& is_bool(d.is_root_device, e.3)
    &&& d.socket is Null
}

pub open spec fn describes_drives(disks: Seq<DriveConfig>, list: Seq<DiskExpectation>) -> bool {
    &&& disks.len() == list.len()
    &&& forall|i: int| 0 <= i < disks.len() ==> drive_config_is(#[trigger] disks[i], list[i])
}

/// The configuration of a VM defined as `spec` once prepared: its machine,
/// kernel, initrd, disks and network interface, and no other device.
pub open spec fn prepared_config(
    config: DeviceConfig,
    spec: MachineSpec,
    seed: bool,
    resources: Seq<char>,
) -> bool {
    &&& config.is_object
    &&& config.vsock is Null
    &&& config.vsock_uds_path is Null
    &&& config.balloon is Null
    &&& config.cpu_config is Null
    &&& config.memory_hotplug is Null
    &&& config.pmem == Pmem::Absent
    &&& is_unsigned(config.vcpu_count, spec.vcpus as int)
    &&& is_unsigned(config.mem_size_mib, spec.memory_mib as int)
    &&& config.smt is Null
    &&& config.huge_pages is Null
    &&& is_text(config.kernel_image_path, resource_path(resources, "kernel"@))
    &&& if spec.initrd {
        is_text(config.initrd_path, resource_path(resources, "initrd"@))
    } else {
        config.initrd_path is Null
    }
    &&& config.drives matches Some(d) && describes_drives(
        d@,
        managed_drive_list(spec.drives@, seed, resources),
    )
    &&& config.network_interfaces matches Some(n) && match spec.network {
        None => n@.len() == 0,
        Some(net) => n@.len() == 1 && is_text(n@[0].iface_id, "eth0"@) && is_text(
            n@[0].guest_mac,
            net.mac@,
        ),
    }
}

fn text_value(s: &str) -> (v: JsonScalar)
    ensures
        is_text(v, s@),
{
    JsonScalar::Text(owned_text(s))
}

fn resource_text(resources: &str, name: &str) -> (r: String)
    ensures
        r@ == resource_path(resources@, name@),
{
    let mut r = owned_text(resources);
    push_text(&mut r, "/");
    push_text(&mut r, name);
    r
}

fn drive_entry(id: &str, path: String, read_only: bool, root: bool) -> (d: DriveConfig)
    ensures
        drive_config_is(d, (id@, path@, read_only, root)),
{
    DriveConfig {
        drive_id: text_value(id),
        path_on_host: JsonScalar::Text(path),
        is_read_only: JsonScalar::Bool(read_only),
        is_root_device: JsonScalar::Bool(root),
        socket: JsonScalar::Null,
    }
}

/// The configuration that preparing a VM defined as `spec` sets up (see
/// `prepared_config`); `seed` tells whether the VM has a seed disk, and
/// `resources` where its files are found.
pub fn prepared_devices(spec: &MachineSpec, seed: bool, resources: &str) -> (c: DeviceConfig)
    ensures
        prepared_config(c, *spec, seed, resources@),
{
    let ghost list = managed_drive_list(spec.drives@, seed, resources@);
    let mut disks: Vec<DriveConfig> = Vec::new();
    disks.push(drive_entry("rootfs", resource_text(resources, "rootfs.ext4"), false, true));
    if seed {
        disks.push(drive_entry("seed", resource_text(resources, "seed.ext4"), true, false));
    }
    let ghost head = disks@.len() as int;
    assert(head == if seed {
        2int
    } else {
        1int
    });
    let mut i: usize = 0;
    while i < spec.drives.len()
        invariant
            i <= spec.drives.len(),
            head == if seed {
                2int
            } else {
                1int
            },
            list == managed_drive_list(spec.drives@, seed, resources@),
            list.len() == head + spec.drives@.len(),
            disks@.len() == head + i,
            forall|j: int| 0 <= j < disks@.len() ==> drive_config_is(#[trigger] disks@[j], list[j]),
        decreases spec.drives.len() - i,
    {
        let d = &spec.drives[i];
        let mut name = owned_text("drive-");
        push_text(&mut name, d.id.as_str());
        push_text(&mut name, ".img");
        let path = resource_text(resources, name.as_str());
        let entry = drive_entry(d.id.as_str(), path, d.read_only, false);
        assert(list[head + i] == (
            d.id@,
            resource_path(resources@, drive_file_name(d.id@)),
            d.read_only,
            false,
        ));
        disks.push(entry);
        i += 1;
    }
    let mut nics: Vec<NicConfig> = Vec::new();
    match &spec.network {
        Some(net) => {
            nics.push(NicConfig { iface_id: text_value("eth0"), guest_mac: JsonScalar::Text(net.mac.clone()) });
        },
        None => {},
    }
    DeviceConfig {
        is_object: true,
        vsock: JsonScalar::Null,
        vsock_uds_path: JsonScalar::Null,
        balloon: JsonScalar::Null,
        cpu_config: JsonScalar::Null,
        memory_hotplug: JsonScalar::Null,
        pmem: Pmem::Absent,
        vcpu_count: JsonScalar::Unsigned(spec.vcpus as u64),
        mem_size_mib: JsonScalar::Unsigned(spec.memory_mib as u64),
        smt: JsonScalar::Null,
        huge_pages: JsonScalar::Null,
        kernel_image_path: JsonScalar::Text(resource_text(resources, "kernel")),
        initrd_path: if spec.initrd {
            JsonScalar::Text(resource_text(resources, "initrd"))
        } else {
            JsonScalar::Null
        },
        drives: Some(disks),
        network_interfaces: Some(nics),
    }
}


// ---------------------------------------------------------------------------
// A prepared VM passes the snapshot device check
pub open spec fn keys_unique(s: Seq<DiskExpectation>) -> bool {
    forall|i: int, j: int| 0 <= i < s.len() && 0 <= j < s.len() && i != j ==> s[i].0 != s[j].0
}

proof fn lemma_key_index(s: Seq<DiskExpectation>, k: Seq<char>)
    ensures
        match key_index(s, k) {
            Some(i) => 0 <= i < s.len() && s[i].0 == k,
            None => forall|j: int| 0 <= j < s.len() ==> s[j].0 != k,
        },
    decreases s.len(),
{
    if s.len() > 0 {
        lemma_key_index(s.drop_last(), k);
        if s.last().0 != k {
            assert forall|j: int| 0 <= j < s.len() - 1 implies s[j] == s.drop_last()[j] by {}
        }
    }
}

pub open spec fn drive_id_view(d: DriveConfig) -> Option<Seq<char>> {
    match d.drive_id {
        JsonScalar::Text(s) => Some(s@),
        _ => None,
    }
}

pub open spec fn has_match(expected: Seq<DiskExpectation>, d: DriveConfig) -> bool {
    exists|j: int| 0 <= j < expected.len() && drive_config_is(d, #[trigger] expected[j])
}

proof fn lemma_disks_accepted(disks: Seq<DriveConfig>, expected: Seq<DiskExpectation>)
    requires
        disks.len() == expected.len(),
        keys_unique(expected),
        forall|i: int| 0 <= i < disks.len() ==> has_match(expected, #[trigger] disks[i]),
        forall|i: int, j: int|
            0 <= i < disks.len() && 0 <= j < disks.len() && i != j ==> drive_id_view(
                #[trigger] disks[i],
            ) != drive_id_view(#[trigger] disks[j]),
    ensures
        disks_decision(disks, expected) == Ok::<(), crate::snapshots::ConfigError>(()),
    decreases disks.len(),
{
    if disks.len() > 0 {
        let d = disks[0];
        assert(has_match(expected, d));
        let j = choose|j: int| 0 <= j < expected.len() && drive_config_is(d, #[trigger] expected[j]);
        let id = expected[j].0;
        lemma_key_index(expected, id);
        assert(key_index(expected, id) == Some(j));
        let rest = disks.drop_first();
        let left = expected.remove(j);
        assert forall|i: int| 0 <= i < rest.len() implies has_match(left, #[trigger] rest[i]) by {
            assert(rest[i] == disks[i + 1]);
            assert(has_match(expected, disks[i + 1]));
            let j2 = choose|j2: int|
                0 <= j2 < expected.len() && drive_config_is(disks[i + 1], #[trigger] expected[j2]);
            assert(drive_id_view(disks[i + 1]) != drive_id_view(disks[0]));
            assert(j2 != j);
            if j2 < j {
                assert(left[j2] == expected[j2]);
            } else {
                assert(left[j2 - 1] == expected[j2]);
            }
        }
        assert forall|a: int, b: int|
            0 <= a < rest.len() && 0 <= b < rest.len() && a != b implies drive_id_view(
            #[trigger] rest[a],
        ) != drive_id_view(#[trigger] rest[b]) by {
            assert(rest[a] == disks[a + 1] && rest[b] == disks[b + 1]);
        }
        assert(keys_unique(left)) by {
            assert forall|a: int, b: int|
                0 <= a < left.len() && 0 <= b < left.len() && a != b implies left[a].0 != left[b].0 by {
                let ea = if a < j {
                    a
                } else {
                    a + 1
                };
                let eb = if b < j {
                    b
                } else {
                    b + 1
                };
                assert(left[a] == expected[ea] && left[b] == expected[eb]);
            }
        }
        lemma_disks_accepted(rest, left);
    }
}

pub open spec fn root_expectation() -> DiskExpectation {
    ("rootfs"@, "/resources/rootfs.ext4"@, false, true)
}

pub open spec fn drive_expectation(d: DriveSpec) -> DiskExpectation {
    (d.id@, drive_disk_path(d.id@), d.read_only, false)
}

pub open spec fn plain_drive_ids(drives: Seq<DriveSpec>) -> bool {
    &&& forall|i: int, j: int|
        0 <= i < drives.len() && 0 <= j < drives.len() && i != j ==> (#[trigger] drives[i]).id@
            != (#[trigger] drives[j]).id@
    &&& forall|i: int|
        0 <= i < drives.len() ==> (#[trigger] drives[i]).id@ != "rootfs"@ && drives[i].id@
            != "seed"@
}

proof fn lemma_drive_expectations(drives: Seq<DriveSpec>)
    requires
        plain_drive_ids(drives),
    ensures
        drive_expectations(drives) == seq![root_expectation()] + drives.map_values(
            |d: DriveSpec| drive_expectation(d),
        ),
    decreases drives.len(),
{
    if drives.len() == 0 {
        assert(seq![root_expectation()] + drives.map_values(|d: DriveSpec| drive_expectation(d))
            =~= seq![root_expectation()]);
    } else {
        let rest = drives.drop_last();
        assert(plain_drive_ids(rest)) by {
            assert forall|i: int| 0 <= i < rest.len() implies rest[i] == drives[i] by {}
        }
        lemma_drive_expectations(rest);
        let prior = drive_expectations(rest);
        let last = drives.last();
        lemma_key_index(prior, last.id@);
        assert(key_index(prior, last.id@) is None) by {
            if key_index(prior, last.id@) is Some {
                let i = key_index(prior, last.id@)->0;
                if i > 0 {
                    assert(prior[i] == drive_expectation(rest[i - 1]));
                    assert(rest[i - 1] == drives[i - 1]);
                    assert(drives[drives.len() - 1] == last);
                } else {
                    assert(prior[0] == root_expectation());
                    assert(drives[drives.len() - 1] == last);
                }
            }
        }
        assert(drive_expectations(drives) == upsert(prior, drive_expectation(last)));
        assert(seq![root_expectation()] + drives.map_values(|d: DriveSpec| drive_expectation(d))
            =~= prior.push(drive_expectation(last)));
    }
}

/// The configuration that preparing a jailed VM sets up passes the check
/// that snapshots apply to Firecracker's device configuration: for every VM
/// definition without a web terminal whose drive ids are distinct and are
/// neither `rootfs` nor `seed`, with or without a seed disk.
pub proof fn lemma_prepared_devices_pass_the_check(config: DeviceConfig, spec: MachineSpec, seed: bool)
    requires
        prepared_config(config, spec, seed, "/resources"@),
        plain_drive_ids(spec.drives@),
        !spec.web_terminal,
    ensures
        config_decision(config, spec) == Ok::<(), crate::snapshots::ConfigError>(()),
{
    reveal_strlit("/resources");
    reveal_strlit("/");
    reveal_strlit("kernel");
    reveal_strlit("/resources/kernel");
    reveal_strlit("initrd");
    reveal_strlit("/resources/initrd");
    reveal_strlit("rootfs.ext4");
    reveal_strlit("/resources/rootfs.ext4");
    reveal_strlit("seed.ext4");
    reveal_strlit("/resources/seed.ext4");
    reveal_strlit("drive-");
    reveal_strlit(".img");
    reveal_strlit("/resources/drive-");
    reveal_strlit("rootfs");
    reveal_strlit("seed");
    reveal_strlit("None");
    let res = "/resources"@;
    assert(resource_path(res, "kernel"@) =~= "/resources/kernel"@);
    assert(resource_path(res, "initrd"@) =~= "/resources/initrd"@);
    assert(resource_path(res, "rootfs.ext4"@) =~= "/resources/rootfs.ext4"@);
    assert(resource_path(res, "seed.ext4"@) =~= "/resources/seed.ext4"@);
    assert forall|id: Seq<char>| resource_path(res, drive_file_name(id)) == drive_disk_path(id) by {
        assert(resource_path(res, drive_file_name(id)) =~= drive_disk_path(id));
    }
    assert("rootfs"@.len() != "seed"@.len());
    let drives = spec.drives@;
    let disks = config.drives->0@;
    let list = managed_drive_list(drives, seed, res);
    let head: int = if seed {
        2
    } else {
        1
    };
    let entries = drives.map_values(|d: DriveSpec| drive_expectation(d));
    assert forall|k: int| 0 <= k < drives.len() implies list[head + k] == #[trigger] entries[k] by {}
    assert(has_seed_disk(disks) == seed) by {
        if seed {
            assert(drive_config_is(disks[1], list[1]));
            assert(crate::snapshots::is_text(disks[1].drive_id, "seed"@));
        } else {
            assert forall|i: int| 0 <= i < disks.len() implies !crate::snapshots::is_text(
                #[trigger] disks[i].drive_id,
                "seed"@,
            ) by {
                assert(drive_config_is(disks[i], list[i]));
                if i >= 1 {
                    assert(list[i] == entries[i - 1]);
                }
            }
        }
    }
    lemma_drive_expectations(drives);
    let base = drive_expectations(drives);
    let expected = expected_disks(drives, seed);
    let seed_e: DiskExpectation = ("seed"@, "/resources/seed.ext4"@, true, false);
    if seed {
        lemma_key_index(base, "seed"@);
        assert(key_index(base, "seed"@) is None) by {
            if key_index(base, "seed"@) is Some {
                let i = key_index(base, "seed"@)->0;
                if i > 0 {
                    assert(base[i] == entries[i - 1]);
                }
            }
        }
        assert(expected == base.push(seed_e));
    }
    assert(expected.len() == disks.len());
    assert(keys_unique(expected)) by {
        assert forall|a: int, b: int|
            0 <= a < expected.len() && 0 <= b < expected.len() && a != b implies expected[a].0
            != expected[b].0 by {
            if a > 0 && a <= drives.len() {
                assert(expected[a] == entries[a - 1]);
            }
            if b > 0 && b <= drives.len() {
                assert(expected[b] == entries[b - 1]);
            }
        }
    }
    assert forall|i: int| 0 <= i < disks.len() implies has_match(expected, #[trigger] disks[i]) by {
        assert(drive_config_is(disks[i], list[i]));
        if i == 0 {
            assert(expected[0] == root_expectation());
            assert(drive_config_is(disks[i], expected[0]));
        } else if seed && i == 1 {
            assert(expected[expected.len() - 1] == seed_e);
            assert(drive_config_is(disks[i], expected[expected.len() - 1]));
        } else {
            let k = i - head;
            assert(list[i] == entries[k]);
            assert(expected[k + 1] == entries[k]);
            assert(drive_config_is(disks[i], expected[k + 1]));
        }
    }
    assert forall|a: int, b: int|
        0 <= a < disks.len() && 0 <= b < disks.len() && a != b implies drive_id_view(
        #[trigger] disks[a],
    ) != drive_id_view(#[trigger] disks[b]) by {
        assert(drive_config_is(disks[a], list[a]));
        assert(drive_config_is(disks[b], list[b]));
        if a >= head {
            assert(list[a] == entries[a - head]);
        }
        if b >= head {
            assert(list[b] == entries[b - head]);
        }
    }
    lemma_disks_accepted(disks, expected);
}

/// Whether preparing a VM configures Firecracker's metadata service: it
/// does, on the guest's network interface and with the VM's metadata, for
/// a VM that has both a network and metadata.
pub fn configures_metadata(has_network: bool, has_metadata: bool) -> (r: bool)
    ensures
        r == (has_network && has_metadata),
{
    has_network && has_metadata
}

/// The seed marker follows the VM's own boot arguments exactly when the VM
/// has a seed disk, whatever its root file system and network: the
/// arguments always begin with the VM's own, then ` firemage.seed=1` when
/// there is a seed disk, and otherwise never continue with that marker.
pub proof fn lemma_seed_marker_iff_seed_disk(
    base: Seq<char>,
    seed: bool,
    oci_rootfs: bool,
    network: Option<(u32, u32, u8)>,
)
    ensures
        boot_arguments(base, seed, oci_rootfs, network).len() >= base.len(),
        boot_arguments(base, seed, oci_rootfs, network).take(base.len() as int) == base,
        seed ==> boot_arguments(base, seed, oci_rootfs, network).len() >= base.len() + 16
            && boot_arguments(base, seed, oci_rootfs, network).subrange(
            base.len() as int,
            base.len() + 16int,
        ) == " firemage.seed=1"@,
        !seed ==> !(boot_arguments(base, seed, oci_rootfs, network).len() >= base.len() + 16
            && boot_arguments(base, seed, oci_rootfs, network).subrange(
            base.len() as int,
            base.len() + 16int,
        ) == " firemage.seed=1"@),
{
    reveal_strlit(" firemage.seed=1");
    reveal_strlit(" init=/firemage-init");
    reveal_strlit(" ip=");
    let r = boot_arguments(base, seed, oci_rootfs, network);
    let marker = " firemage.seed=1"@;
    let rest = r.skip(base.len() as int);
    assert(r =~= base + rest);
    assert(r.take(base.len() as int) =~= base);
    if seed {
        assert(r.subrange(base.len() as int, base.len() + 16int) =~= marker);
    } else {
        if r.len() >= base.len() + 16 && r.subrange(base.len() as int, base.len() + 16int) == marker {
            assert(r.subrange(base.len() as int, base.len() + 16int)[1] == 'f');
            assert(r[base.len() + 1int] == 'f');
            if oci_rootfs {
                assert(r[base.len() + 1int] == 'i');
            } else {
                match network {
                    Some((a, g, p)) => {
                        assert(r =~= base + ip_argument(a, g, p));
                        assert(r[base.len() + 1int] == 'i');
                    },
                    None => {
                        assert(r =~= base);
                    },
                }
            }
        }
    }
}

} // verus!
