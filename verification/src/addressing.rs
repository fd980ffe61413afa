//! Guest addressing on managed networks: subnets, reserved addresses,
//! address suggestion and the availability check applied to attachments.
//! IPv4 addresses are `u32` values in network byte order significance
//! (`u32::from(Ipv4Addr)`).
use crate::text::{
    ascii_lower_text, chars_of, contains_text, decimal, decimal_text, hex_byte, hex_digit_char,
    push_char, push_chars, texts, to_ascii_lowercase,
};
use crate::naming::version_4;
use vstd::prelude::*;

verus! {

/// An IPv4 network: an address and a prefix length of at most 32 bits.
#[derive(Clone, Copy, Debug, PartialEq, Eq, Structural)]
pub struct Subnet {
    pub address: u32,
    pub prefix_len: u8,
}

/// How a network lets guests reach the outside.
#[derive(Clone, Copy, Debug, PartialEq, Eq, Structural)]
pub enum NetworkPolicy {
    Unrestricted,
    Isolated,
    FiremageOnly,
    HostOnly { address: u32 },
}

/// A managed network definition.
#[derive(Clone, Debug)]
pub struct NetworkSpec {
    pub name: String,
    pub subnet: Subnet,
    pub gateway: u32,
    pub policy: NetworkPolicy,
}

/// A VM's place on a network.
#[derive(Clone, Debug)]
pub struct NetworkAttachment {
    pub network: String,
    pub address: u32,
    pub mac: String,
}

/// The network attachment of a defined VM, as stored with its id.
#[derive(Clone, Debug)]
pub struct VmAttachment {
    pub id: String,
    pub attachment: Option<NetworkAttachment>,
}

/// Number of addresses in a block of `host_bits` host bits.
pub open spec fn block_size(host_bits: nat) -> nat
    decreases host_bits,
{
    if host_bits == 0 {
        1
    } else {
        2 * block_size((host_bits - 1) as nat)
    }
}

pub open spec fn subnet_valid(s: Subnet) -> bool {
    s.prefix_len <= 32
}

pub open spec fn subnet_block(s: Subnet) -> nat {
    block_size((32 - s.prefix_len) as nat)
}

/// The network address: host bits cleared.
pub open spec fn subnet_network(s: Subnet) -> int {
    (s.address as int) - (s.address as int) % (subnet_block(s) as int)
}

/// The broadcast address: host bits set.
pub open spec fn subnet_broadcast(s: Subnet) -> int {
    subnet_network(s) + subnet_block(s) - 1
}

pub open spec fn subnet_contains(s: Subnet, ip: u32) -> bool {
    subnet_network(s) <= ip <= subnet_broadcast(s)
}

proof fn lemma_block_size_bounds(bits: nat)
    ensures
        block_size(bits) >= 1,
        bits <= 32 ==> block_size(bits) <= 0x1_0000_0000,
        bits >= 1 ==> block_size(bits) >= 2,
        bits >= 2 ==> block_size(bits) >= 4,
    decreases bits,
{
    if bits > 0 {
        lemma_block_size_bounds((bits - 1) as nat);
    }
    if bits <= 32 {
        lemma_block_at_least_one((32 - bits) as nat);
        lemma_power_of_two_divides(bits, 32);
        lemma_block_32();
        let a = block_size((32 - bits) as nat) as int;
        let b = block_size(bits) as int;
        assert(b <= a * b) by (nonlinear_arith)
            requires
                a >= 1,
                b >= 1,
        ;
    }
}

proof fn lemma_block_at_least_one(bits: nat)
    ensures
        block_size(bits) >= 1,
    decreases bits,
{
    if bits > 0 {
        lemma_block_at_least_one((bits - 1) as nat);
    }
}

proof fn lemma_block_divides_range(s: Subnet)
    requires
        subnet_valid(s),
    ensures
        0 <= subnet_network(s) <= s.address <= subnet_broadcast(s) <= u32::MAX,
{
    lemma_block_size_bounds((32 - s.prefix_len) as nat);
    lemma_block_divides_2_32((32 - s.prefix_len) as nat);
    let b = subnet_block(s) as int;
    let a = s.address as int;
    vstd::arithmetic::div_mod::lemma_fundamental_div_mod(a, b);
    vstd::arithmetic::div_mod::lemma_mod_bound(a, b);
    let q = a / b;
    let k = 0x1_0000_0000int / b;
    // a = q * b + r with r < b, and a < k * b, so q < k and q * b + b <= k * b.
    assert(q * b <= a);
    assert(q < k) by (nonlinear_arith)
        requires
            a == q * b + a % b,
            0 <= a % b,
            a < k * b,
            b > 0,
    {
        if q >= k {
            assert(q * b >= k * b);
        }
    }
    assert((q + 1) * b <= k * b) by (nonlinear_arith)
        requires
            q < k,
            b > 0,
    ;
    assert(q * b + b <= 0x1_0000_0000) by (nonlinear_arith)
        requires
            (q + 1) * b <= k * b,
            k * b == 0x1_0000_0000,
    ;
}

proof fn lemma_block_divides_2_32(bits: nat)
    requires
        bits <= 32,
    ensures
        (0x1_0000_0000int / (block_size(bits) as int)) * (block_size(bits) as int) == 0x1_0000_0000,
        block_size(bits) > 0,
{
    lemma_block_at_least_one(bits);
    let b = block_size(bits) as int;
    lemma_power_of_two_divides(bits, 32);
    lemma_block_32();
    let k = block_size((32 - bits) as nat) as int;
    assert(k * b == 0x1_0000_0000);
    vstd::arithmetic::div_mod::lemma_div_multiples_vanish(k, b);
    assert(k * b == b * k) by (nonlinear_arith);
    assert((b * k) / b == k);
}

proof fn lemma_power_of_two_divides(bits: nat, total: nat)
    requires
        bits <= total,
    ensures
        block_size((total - bits) as nat) * block_size(bits) == block_size(total),
    decreases bits,
{
    if bits > 0 {
        lemma_power_of_two_divides((bits - 1) as nat, total);
        let a = block_size((total - bits) as nat);
        let c = block_size((total - bits + 1) as nat);
        assert(c == 2 * a);
        let b1 = block_size((bits - 1) as nat);
        assert(block_size(bits) == 2 * b1);
        assert(c * b1 == block_size(total));
        assert(a * (2 * b1) == (2 * a) * b1) by (nonlinear_arith);
    } else {
        assert(block_size(total) * 1 == block_size(total));
    }
}

proof fn lemma_block_32()
    ensures
        block_size(32) == 0x1_0000_0000,
{
    reveal_with_fuel(block_size, 33);
}

/// Size of the subnet's block of addresses.
pub fn subnet_block_size(s: &Subnet) -> (b: u64)
    requires
        subnet_valid(*s),
    ensures
        b == subnet_block(*s),
        1 <= b <= 0x1_0000_0000,
{
    let bits = 32 - s.prefix_len;
    let mut b: u64 = 1;
    let mut i: u8 = 0;
    while i < bits
        invariant
            i <= bits <= 32,
            b == block_size(i as nat),
            1 <= b <= block_size(i as nat),
            block_size(i as nat) <= 0x1_0000_0000 || i > 32,
        decreases bits - i,
    {
        proof {
            lemma_block_size_bounds((i + 1) as nat);
        }
        b = b * 2;
        i = i + 1;
    }
    proof {
        lemma_block_size_bounds(bits as nat);
    }
    b
}

/// `Ipv4Net::network`.
pub fn network_address(s: &Subnet) -> (n: u32)
    requires
        subnet_valid(*s),
    ensures
        n == subnet_network(*s),
{
    proof {
        lemma_block_divides_range(*s);
    }
    let b = subnet_block_size(s);
    let a = s.address as u64;
    (a - a % b) as u32
}

/// `Ipv4Net::broadcast`.
pub fn broadcast_address(s: &Subnet) -> (n: u32)
    requires
        subnet_valid(*s),
    ensures
        n == subnet_broadcast(*s),
{
    proof {
        lemma_block_divides_range(*s);
    }
    let b = subnet_block_size(s);
    let a = s.address as u64;
    (a - a % b + b - 1) as u32
}

/// `Ipv4Net::contains` for an address.
pub fn contains_address(s: &Subnet, ip: u32) -> (r: bool)
    requires
        subnet_valid(*s),
    ensures
        r == subnet_contains(*s, ip),
{
    network_address(s) <= ip && ip <= broadcast_address(s)
}

/// Whether `ip` occurs in `addresses`.
pub fn contains_ip(addresses: &[u32], ip: u32) -> (r: bool)
    ensures
        r == addresses@.contains(ip),
{
    let mut i: usize = 0;
    while i < addresses.len()
        invariant
            i <= addresses.len(),
            forall|j: int| 0 <= j < i ==> addresses@[j] != ip,
        decreases addresses.len() - i,
    {
        if addresses[i] == ip {
            return true;
        }
        i += 1;
    }
    false
}

// ---------------------------------------------------------------------------
// Reservations
/// The addresses a network itself occupies: gateway, network, broadcast, and
/// the host address of a host-only policy.
pub open spec fn network_occupies(net: NetworkSpec, ip: u32) -> bool {
    ||| ip == net.gateway
    ||| ip == subnet_network(net.subnet)
    ||| ip == subnet_broadcast(net.subnet)
    ||| net.policy == (NetworkPolicy::HostOnly { address: ip })
}

/// `vm` is attached at `ip` and is not the VM being excluded.
pub open spec fn vm_holds_address(vm: VmAttachment, except: Option<Seq<char>>, ip: u32) -> bool {
    &&& except != Some(vm.id@)
    &&& vm.attachment matches Some(a) && a.address == ip
}

/// `vm` uses MAC `mac` (compared in lower case) and is not the VM excluded.
pub open spec fn vm_holds_mac(vm: VmAttachment, except: Option<Seq<char>>, mac: Seq<char>) -> bool {
    &&& except != Some(vm.id@)
    &&& vm.attachment matches Some(a) && ascii_lower_text(a.mac@) == mac
}

/// One of the first `count` networks occupies `ip`.
pub open spec fn occupied_by_networks(networks: Seq<NetworkSpec>, count: int, ip: u32) -> bool {
    exists|i: int| 0 <= i < count && network_occupies(#[trigger] networks[i], ip)
}

pub open spec fn is_reserved_address(
    vms: Seq<VmAttachment>,
    networks: Seq<NetworkSpec>,
    except: Option<Seq<char>>,
    ip: u32,
) -> bool {
    ||| exists|i: int| 0 <= i < vms.len() && vm_holds_address(#[trigger] vms[i], except, ip)
    ||| occupied_by_networks(networks, networks.len() as int, ip)
}

pub open spec fn is_reserved_mac(
    vms: Seq<VmAttachment>,
    except: Option<Seq<char>>,
    mac: Seq<char>,
) -> bool {
    exists|i: int| 0 <= i < vms.len() && vm_holds_mac(#[trigger] vms[i], except, mac)
}

pub open spec fn all_networks_valid(networks: Seq<NetworkSpec>) -> bool {
    forall|i: int| 0 <= i < networks.len() ==> subnet_valid(#[trigger] networks[i].subnet)
}

/// The text of an optional string slice.
pub open spec fn opt_text(o: Option<&str>) -> Option<Seq<char>> {
    match o {
        Some(t) => Some(t@),
        None => None,
    }
}

fn same_text(a: &String, b: Option<&str>) -> (r: bool)
    ensures
        r == (b matches Some(t) && a@ == t@),
{
    match b {
        None => false,
        Some(t) => {
            let owned = t.to_string();
            proof {
                vstd::string::to_string_from_display_ensures_for_str(t, owned);
            }
            *a == owned
        },
    }
}

/// The addresses and lower-case MACs that guests and networks already use,
/// leaving out the VM `except` (the one being edited).
pub fn address_reservations(vms: &[VmAttachment], networks: &[NetworkSpec], except: Option<&str>) -> (r:
    (Vec<u32>, Vec<String>))
    requires
        all_networks_valid(networks@),
    ensures
        forall|ip: u32|
            r.0@.contains(ip) <==> is_reserved_address(
                vms@,
                networks@,
                opt_text(except),
                ip,
            ),
        forall|mac: Seq<char>|
            texts(r.1@).contains(mac) <==> is_reserved_mac(vms@, opt_text(except), mac),
{
    let ghost ex = opt_text(except);
    let mut addresses: Vec<u32> = Vec::new();
    let mut macs: Vec<String> = Vec::new();
    let mut i: usize = 0;
    while i < vms.len()
        invariant
            i <= vms.len(),
            ex == opt_text(except),
            forall|ip: u32|
                addresses@.contains(ip) <==> exists|j: int|
                    0 <= j < i && vm_holds_address(#[trigger] vms@[j], ex, ip),
            forall|mac: Seq<char>|
                texts(macs@).contains(mac) <==> exists|j: int|
                    0 <= j < i && vm_holds_mac(#[trigger] vms@[j], ex, mac),
        decreases vms.len() - i,
    {
        let vm = &vms[i];
        let skip = same_text(&vm.id, except);
        if !skip {
            match &vm.attachment {
                Some(a) => {
                    let ghost before = addresses@;
                    let ghost before_macs = macs@;
                    addresses.push(a.address);
                    let lower = to_ascii_lowercase(a.mac.as_str());
                    macs.push(lower);
                    assert forall|ip: u32| addresses@.contains(ip) <==> exists|j: int|
                        0 <= j < i + 1 && vm_holds_address(#[trigger] vms@[j], ex, ip) by {
                        if addresses@.contains(ip) {
                            let k = choose|k: int| 0 <= k < addresses@.len() && addresses@[k] == ip;
                            if k < before.len() {
                                assert(before.contains(ip));
                            } else {
                                assert(vm_holds_address(vms@[i as int], ex, ip));
                            }
                        }
                        if exists|j: int| 0 <= j < i + 1 && vm_holds_address(#[trigger] vms@[j], ex, ip) {
                            let j = choose|j: int| 0 <= j < i + 1 && vm_holds_address(#[trigger] vms@[j], ex, ip);
                            if j < i {
                                assert(before.contains(ip));
                                let k = choose|k: int| 0 <= k < before.len() && before[k] == ip;
                                assert(addresses@[k] == ip);
                            } else {
                                assert(addresses@[before.len() as int] == ip);
                            }
                        }
                    }
                    assert(texts(macs@) =~= texts(before_macs).push(lower@));
                    assert forall|mac: Seq<char>| texts(macs@).contains(mac) <==> exists|j: int|
                        0 <= j < i + 1 && vm_holds_mac(#[trigger] vms@[j], ex, mac) by {
                        if texts(macs@).contains(mac) {
                            let k = choose|k: int| 0 <= k < texts(macs@).len() && texts(macs@)[k] == mac;
                            if k < before_macs.len() {
                                assert(texts(before_macs)[k] == mac);
                                assert(texts(before_macs).contains(mac));
                            } else {
                                assert(vm_holds_mac(vms@[i as int], ex, mac));
                            }
                        }
                        if exists|j: int| 0 <= j < i + 1 && vm_holds_mac(#[trigger] vms@[j], ex, mac) {
                            let j = choose|j: int| 0 <= j < i + 1 && vm_holds_mac(#[trigger] vms@[j], ex, mac);
                            if j < i {
                                assert(texts(before_macs).contains(mac));
                                let k = choose|k: int| 0 <= k < texts(before_macs).len() && texts(before_macs)[k] == mac;
                                assert(texts(macs@)[k] == mac);
                            } else {
                                assert(texts(macs@)[before_macs.len() as int] == mac);
                            }
                        }
                    }
                },
                None => {
                    assert(forall|ip: u32| !vm_holds_address(vms@[i as int], ex, ip));
                    assert(forall|mac: Seq<char>| !vm_holds_mac(vms@[i as int], ex, mac));
                },
            }
        } else {
            assert(forall|ip: u32| !vm_holds_address(vms@[i as int], ex, ip));
            assert(forall|mac: Seq<char>| !vm_holds_mac(vms@[i as int], ex, mac));
        }
        i += 1;
    }
    let ghost vm_addresses = addresses@;
    let mut k: usize = 0;
    while k < networks.len()
        invariant
            k <= networks.len(),
            all_networks_valid(networks@),
            forall|ip: u32|
                vm_addresses.contains(ip) <==> exists|j: int|
                    0 <= j < vms.len() && vm_holds_address(#[trigger] vms@[j], ex, ip),
            forall|ip: u32|
                #[trigger] addresses@.contains(ip) <==> (vm_addresses.contains(ip) || occupied_by_networks(
                    networks@,
                    k as int,
                    ip,
                )),
        decreases networks.len() - k,
    {
        let net = &networks[k];
        let ghost before = addresses@;
        assert(forall|ip: u32|
            #[trigger] before.contains(ip) <==> (vm_addresses.contains(ip) || occupied_by_networks(
                networks@,
                k as int,
                ip,
            )));
        proof {
            assert(subnet_valid(networks@[k as int].subnet));
        }
        addresses.push(net.gateway);
        addresses.push(network_address(&net.subnet));
        addresses.push(broadcast_address(&net.subnet));
        match net.policy {
            NetworkPolicy::HostOnly { address } => {
                addresses.push(address);
            },
            _ => {},
        }
        assert forall|ip: u32| #[trigger] addresses@.contains(ip) <==> (vm_addresses.contains(ip)
            || occupied_by_networks(networks@, k + 1, ip)) by {
            let added = addresses@.subrange(before.len() as int, addresses@.len() as int);
            assert(addresses@ =~= before + added);
            if addresses@.contains(ip) {
                let m = choose|m: int| 0 <= m < addresses@.len() && addresses@[m] == ip;
                if m < before.len() {
                    assert(before[m] == ip);
                    assert(before.contains(ip));
                } else {
                    assert(network_occupies(networks@[k as int], ip));
                    assert(occupied_by_networks(networks@, k + 1, ip));
                }
            }
            if occupied_by_networks(networks@, k + 1, ip) {
                let j = choose|j: int| 0 <= j < k + 1 && network_occupies(#[trigger] networks@[j], ip);
                if j < k {
                    assert(occupied_by_networks(networks@, k as int, ip));
                    assert(before.contains(ip));
                    let m = choose|m: int| 0 <= m < before.len() && before[m] == ip;
                    assert(addresses@[m] == ip);
                } else {
                    let b = before.len() as int;
                    if ip == net.gateway {
                        assert(addresses@[b] == ip);
                    } else if ip == subnet_network(net.subnet) {
                        assert(addresses@[b + 1] == ip);
                    } else if ip == subnet_broadcast(net.subnet) {
                        assert(addresses@[b + 2] == ip);
                    } else {
                        assert(addresses@[b + 3] == ip);
                    }
                }
            }
            if vm_addresses.contains(ip) {
                assert(before.contains(ip));
                let m = choose|m: int| 0 <= m < before.len() && before[m] == ip;
                assert(addresses@[m] == ip);
            }
        }
        k += 1;
    }
    (addresses, macs)
}

// ---------------------------------------------------------------------------
// Suggestion
pub open spec fn saturating_next(ip: u32) -> int {
    if ip == u32::MAX {
        u32::MAX as int
    } else {
        ip + 1
    }
}

pub open spec fn clamp(v: int, low: int, high: int) -> int {
    if v < low {
        low
    } else if v > high {
        high
    } else {
        v
    }
}

/// First usable guest address: the one after the network address.
pub open spec fn first_guest(net: NetworkSpec) -> int {
    subnet_network(net.subnet) + 1
}

/// Last usable guest address: the one before the broadcast address.
pub open spec fn last_guest(net: NetworkSpec) -> int {
    subnet_broadcast(net.subnet) - 1
}

/// Where the search starts: right after the gateway, kept within the guests.
pub open spec fn preferred_guest(net: NetworkSpec) -> int {
    clamp(saturating_next(net.gateway), first_guest(net), last_guest(net))
}

/// The `i`-th address in search order: from the preferred address up to the
/// last guest address, then from the first guest address up.
pub open spec fn search_order(net: NetworkSpec, i: int) -> int {
    if preferred_guest(net) + i <= last_guest(net) {
        preferred_guest(net) + i
    } else {
        first_guest(net) + (i - (last_guest(net) - preferred_guest(net) + 1))
    }
}

pub open spec fn guest_count(net: NetworkSpec) -> int {
    last_guest(net) - first_guest(net) + 1
}

/// An address a new guest may take.
pub open spec fn is_free_guest(net: NetworkSpec, reserved: Seq<u32>, ip: int) -> bool {
    ip != net.gateway && !reserved.contains(ip as u32)
}

/// The networks on which a suggestion can be made: at least one guest
/// address between the network and broadcast addresses (a prefix of at
/// most 30 bits).
pub open spec fn has_guest_range(net: NetworkSpec) -> bool {
    subnet_valid(net.subnet) && net.subnet.prefix_len <= 30
}

/// The first free address in search order from position `i` on.
pub open spec fn first_free_from(net: NetworkSpec, reserved: Seq<u32>, i: int) -> Option<u32>
    decreases guest_count(net) - i,
{
    if i < 0 || i >= guest_count(net) {
        None
    } else if is_free_guest(net, reserved, search_order(net, i)) {
        Some(search_order(net, i) as u32)
    } else {
        first_free_from(net, reserved, i + 1)
    }
}

/// The address suggested for a new guest on `net`.
pub open spec fn suggested_address(net: NetworkSpec, reserved: Seq<u32>) -> Option<u32> {
    first_free_from(net, reserved, 0)
}

proof fn lemma_guest_range(net: NetworkSpec)
    requires
        has_guest_range(net),
    ensures
        0 <= subnet_network(net.subnet) < first_guest(net) <= preferred_guest(net) <= last_guest(
            net,
        ) < subnet_broadcast(net.subnet) <= u32::MAX,
{
    lemma_block_divides_range(net.subnet);
    lemma_block_size_bounds((32 - net.subnet.prefix_len) as nat);
}

proof fn lemma_search_order_in_range(net: NetworkSpec, i: int)
    requires
        has_guest_range(net),
        0 <= i < guest_count(net),
    ensures
        first_guest(net) <= search_order(net, i) <= last_guest(net),
{
    lemma_guest_range(net);
}

/// A suggested address lies strictly inside the subnet and is free.
pub proof fn lemma_first_free_from(net: NetworkSpec, reserved: Seq<u32>, i: int)
    requires
        has_guest_range(net),
        0 <= i,
    ensures
        first_free_from(net, reserved, i) matches Some(ip) ==> {
            &&& subnet_contains(net.subnet, ip)
            &&& first_guest(net) <= ip <= last_guest(net)
            &&& ip != net.gateway
            &&& !reserved.contains(ip)
        },
        first_free_from(net, reserved, i) is None ==> forall|j: int|
            i <= j < guest_count(net) ==> !is_free_guest(net, reserved, #[trigger] search_order(net, j)),
    decreases guest_count(net) - i,
{
    lemma_guest_range(net);
    if i < guest_count(net) {
        lemma_search_order_in_range(net, i);
        lemma_first_free_from(net, reserved, i + 1);
        if first_free_from(net, reserved, i) is None {
            assert forall|j: int| i <= j < guest_count(net) implies !is_free_guest(
                net,
                reserved,
                #[trigger] search_order(net, j),
            ) by {
                if j == i {
                    assert(!is_free_guest(net, reserved, search_order(net, i)));
                }
            }
        }
    }
}

/// The first address, in search order, that is neither the gateway nor
/// reserved; `None` when every guest address is taken.
pub fn suggest_address(net: &NetworkSpec, reserved: &[u32]) -> (r: Option<u32>)
    requires
        has_guest_range(*net),
    ensures
        r == suggested_address(*net, reserved@),
        r matches Some(ip) ==> subnet_contains(net.subnet, ip) && ip != net.gateway
            && !reserved@.contains(ip),
{
    proof {
        lemma_guest_range(*net);
        lemma_first_free_from(*net, reserved@, 0);
    }
    let first = network_address(&net.subnet) + 1;
    let last = broadcast_address(&net.subnet) - 1;
    let next = if net.gateway == u32::MAX {
        u32::MAX
    } else {
        net.gateway + 1
    };
    let preferred = if next < first {
        first
    } else if next > last {
        last
    } else {
        next
    };
    assert(preferred == preferred_guest(*net));
    // From the preferred address up to the last guest address.
    let mut ip = preferred;
    while ip <= last
        invariant
            first <= preferred <= ip <= last + 1,
            first == first_guest(*net),
            last == last_guest(*net),
            preferred == preferred_guest(*net),
            last < u32::MAX,
            suggested_address(*net, reserved@) == first_free_from(
                *net,
                reserved@,
                ip - preferred,
            ),
        decreases last + 1 - ip,
    {
        let ghost i = ip - preferred;
        assert(search_order(*net, i) == ip);
        assert(0 <= i < guest_count(*net));
        assert(first_free_from(*net, reserved@, i) == if is_free_guest(*net, reserved@, ip as int) {
            Some(ip)
        } else {
            first_free_from(*net, reserved@, i + 1)
        });
        if ip != net.gateway && !contains_ip(reserved, ip) {
            return Some(ip);
        }
        ip = ip + 1;
    }
    // Then from the first guest address up to the preferred one.
    let mut ip = first;
    while ip < preferred
        invariant
            first <= ip <= preferred,
            first == first_guest(*net),
            last == last_guest(*net),
            preferred == preferred_guest(*net),
            preferred <= last,
            suggested_address(*net, reserved@) == first_free_from(
                *net,
                reserved@,
                (last - preferred + 1) + (ip - first),
            ),
        decreases preferred - ip,
    {
        let ghost i = (last - preferred + 1) + (ip - first);
        assert(search_order(*net, i) == ip);
        assert(0 <= i < guest_count(*net));
        assert(first_free_from(*net, reserved@, i) == if is_free_guest(*net, reserved@, ip as int) {
            Some(ip)
        } else {
            first_free_from(*net, reserved@, i + 1)
        });
        if ip != net.gateway && !contains_ip(reserved, ip) {
            return Some(ip);
        }
        ip = ip + 1;
    }
    assert(first_free_from(*net, reserved@, guest_count(*net)) is None);
    None
}

// ---------------------------------------------------------------------------
// Availability of a requested attachment
/// Why a requested attachment cannot be used.
#[derive(Clone, Copy, Debug, PartialEq, Eq, Structural)]
pub enum AddressError {
    /// The address is outside the subnet, reserved, or already assigned.
    AddressUnavailable,
    /// The MAC address is already assigned to a VM.
    MacInUse,
}

pub open spec fn address_accepted(net: NetworkSpec, reserved: Seq<u32>, ip: u32) -> bool {
    subnet_contains(net.subnet, ip) && !reserved.contains(ip)
}

pub open spec fn mac_accepted(macs: Seq<String>, mac: Seq<char>) -> bool {
    !texts(macs).contains(ascii_lower_text(mac))
}

/// Accepts the attachment when its address lies in the subnet and is not
/// reserved, and its MAC (in lower case) is not in `macs`.
pub fn ensure_network_address_available(
    net: &NetworkSpec,
    attachment: &NetworkAttachment,
    reserved: &[u32],
    macs: &[String],
) -> (r: Result<(), AddressError>)
    requires
        subnet_valid(net.subnet),
    ensures
        r == if !address_accepted(*net, reserved@, attachment.address) {
            Err::<(), AddressError>(AddressError::AddressUnavailable)
        } else if !mac_accepted(macs@, attachment.mac@) {
            Err(AddressError::MacInUse)
        } else {
            Ok(())
        },
{
    if !(contains_address(&net.subnet, attachment.address) && !contains_ip(
        reserved,
        attachment.address,
    )) {
        return Err(AddressError::AddressUnavailable);
    }
    let lower = to_ascii_lowercase(attachment.mac.as_str());
    if contains_text(macs, &lower) {
        return Err(AddressError::MacInUse);
    }
    Ok(())
}

/// A suggested address passes the availability check: a VM given the
/// suggestion, with a MAC no VM uses, is accepted on that network.
pub proof fn lemma_suggested_address_is_accepted(net: NetworkSpec, reserved: Seq<u32>)
    requires
        has_guest_range(net),
    ensures
        suggested_address(net, reserved) matches Some(ip) ==> address_accepted(net, reserved, ip)
            && ip != net.gateway,
        suggested_address(net, reserved) is None ==> forall|ip: u32|
            first_guest(net) <= ip <= last_guest(net) ==> !is_free_guest(net, reserved, ip as int),
{
    lemma_first_free_from(net, reserved, 0);
    lemma_guest_range(net);
    if suggested_address(net, reserved) is None {
        assert forall|ip: u32| first_guest(net) <= ip <= last_guest(net) implies !is_free_guest(
            net,
            reserved,
            ip as int,
        ) by {
            let p = preferred_guest(net);
            let l = last_guest(net);
            let f = first_guest(net);
            let i = if ip >= p {
                ip - p
            } else {
                (l - p + 1) + (ip - f)
            };
            assert(search_order(net, i) == ip);
        }
    }
}

// ---------------------------------------------------------------------------
// MAC addresses
/// A locally administered unicast MAC `02:xx:xx:xx:xx:xx` from the first five
/// bytes of `bytes`, in lower-case hexadecimal.
pub open spec fn mac_text(bytes: Seq<u8>) -> Seq<char> {
    seq!['0', '2'] + seq![':'] + hex_byte(bytes[0]) + seq![':'] + hex_byte(bytes[1]) + seq![':']
        + hex_byte(bytes[2]) + seq![':'] + hex_byte(bytes[3]) + seq![':'] + hex_byte(bytes[4])
}

pub(crate) fn push_hex_byte(s: &mut String, b: u8)
    ensures
        final(s)@ == old(s)@ + hex_byte(b),
{
    push_char(s, hex_digit_char(b / 16));
    push_char(s, hex_digit_char(b % 16));
    assert(final(s)@ =~= old(s)@ + hex_byte(b));
}

/// The MAC written from the first five of the sixteen `bytes`.
pub fn mac_from_bytes(bytes: &[u8; 16]) -> (mac: String)
    ensures
        mac@ == mac_text(bytes@),
{
    let mut mac = String::new();
    push_char(&mut mac, '0');
    push_char(&mut mac, '2');
    let mut i: usize = 0;
    while i < 5
        invariant
            i <= 5,
            mac@ == mac_prefix(bytes@, i as nat),
        decreases 5 - i,
    {
        push_char(&mut mac, ':');
        push_hex_byte(&mut mac, bytes[i]);
        assert(mac@ =~= mac_prefix(bytes@, (i + 1) as nat));
        i += 1;
    }
    proof {
        reveal_with_fuel(mac_prefix, 6);
    }
    assert(mac@ =~= mac_text(bytes@));
    mac
}

/// `02` followed by the first `n` bytes, each after a colon.
pub open spec fn mac_prefix(bytes: Seq<u8>, n: nat) -> Seq<char>
    decreases n,
{
    if n == 0 {
        seq!['0', '2']
    } else {
        mac_prefix(bytes, (n - 1) as nat) + seq![':'] + hex_byte(bytes[n - 1])
    }
}

/// Sixteen random bytes from the operating system (`getrandom::fill`, the
/// source `uuid::Uuid::new_v4` draws from), or `None` when the system cannot
/// supply them (`fill` returns its error). The bytes depend on chance:
/// nothing is stated of them.
#[verifier::external_body]
fn random_bytes() -> (bytes: Option<[u8; 16]>) {
    let mut bytes = [0u8; 16];
    match getrandom::fill(&mut bytes) {
        Ok(()) => Some(bytes),
        Err(_) => None,
    }
}

/// The bytes of the version 4 UUID that
/// `uuid::Builder::from_random_bytes(random).into_uuid()` builds: the random
/// bytes with the version nibble 4 put at the top of byte 6 and the variant
/// bits `10` at the top of byte 8 (`with_version`, `with_variant`).
#[verifier::external_body]
fn uuid_v4_bytes(random: [u8; 16]) -> (bytes: [u8; 16])
    ensures
        forall|i: int| 0 <= i < 16 && i != 6 && i != 8 ==> bytes@[i] == random@[i],
        bytes@[6] == (random@[6] & 0x0f) | 0x40,
        bytes@[8] == (random@[8] & 0x3f) | 0x80,
{
    *uuid::Builder::from_random_bytes(random).into_uuid().as_bytes()
}

/// The sixteen bytes of a fresh random version 4 UUID: version nibble 4 at
/// the top of byte 6, variant bits `10` at the top of byte 8; `None` when
/// the system cannot supply random bytes.
pub(crate) fn random_uuid_bytes() -> (r: Option<[u8; 16]>)
    ensures
        r matches Some(bytes) ==> version_4(bytes@),
{
    match random_bytes() {
        None => None,
        Some(random) => {
            let bytes = uuid_v4_bytes(random);
            let b6 = random[6];
            let b8 = random[8];
            assert(((b6 & 0x0f) | 0x40) / 16 == 4) by (bit_vector);
            assert(((b8 & 0x3f) | 0x80) / 64 == 2) by (bit_vector);
            Some(bytes)
        },
    }
}

/// A MAC candidate for a new guest, drawn from a fresh random version 4
/// UUID; `None` when the system cannot supply random bytes.
pub fn random_mac() -> (r: Option<String>)
    ensures
        r matches Some(mac) ==> exists|bytes: Seq<u8>| version_4(bytes) && mac@ == mac_text(bytes),
{
    match random_uuid_bytes() {
        None => None,
        Some(bytes) => Some(mac_from_bytes(&bytes)),
    }
}

/// Dotted-decimal text of an IPv4 address (`Ipv4Addr`'s `Display`).
pub open spec fn ipv4_text(ip: u32) -> Seq<char> {
    decimal((ip / 0x100_0000) as nat) + seq!['.'] + decimal(((ip / 0x1_0000) % 256) as nat)
        + seq!['.'] + decimal(((ip / 0x100) % 256) as nat) + seq!['.'] + decimal((ip % 256) as nat)
}

pub fn ipv4_to_text(ip: u32) -> (s: String)
    ensures
        s@ == ipv4_text(ip),
{
    let mut s = decimal_text((ip / 0x100_0000) as u64);
    push_char(&mut s, '.');
    let b = decimal_text(((ip / 0x1_0000) % 256) as u64);
    push_chars(&mut s, &chars_of(b.as_str()));
    push_char(&mut s, '.');
    let c = decimal_text(((ip / 0x100) % 256) as u64);
    push_chars(&mut s, &chars_of(c.as_str()));
    push_char(&mut s, '.');
    let d = decimal_text((ip % 256) as u64);
    push_chars(&mut s, &chars_of(d.as_str()));
    s
}

/// The address with the four given octets, most significant first.
pub fn ipv4(a: u8, b: u8, c: u8, d: u8) -> (ip: u32)
    ensures
        ip == a as int * 0x100_0000 + b as int * 0x1_0000 + c as int * 0x100 + d as int,
{
    (a as u32) * 0x100_0000 + (b as u32) * 0x1_0000 + (c as u32) * 0x100 + (d as u32)
}


// ---------------------------------------------------------------------------
// Addresses of live guests
/// What a VM contributes to the check of live addresses: its id, whether
/// it is at rest, and its guest address if it has a network.
pub struct GuestRecord {
    pub id: String,
    pub at_rest: bool,
    pub address: Option<u32>,
}

/// Whether another VM that is not at rest already uses `address`.
pub open spec fn live_address_taken(vms: Seq<GuestRecord>, id: Seq<char>, address: u32) -> bool {
    exists|i: int|
        0 <= i < vms.len() && (#[trigger] vms[i]).id@ != id && !vms[i].at_rest && vms[i].address
            == Some(address)
}

/// Decides whether starting the network of VM `id` with guest `address`
/// would clash with another live guest (see `live_address_taken`).
pub fn address_in_use(vms: &[GuestRecord], id: &String, address: u32) -> (r: bool)
    ensures
        r == live_address_taken(vms@, id@, address),
{
    let mut i: usize = 0;
    while i < vms.len()
        invariant
            i <= vms.len(),
            forall|j: int|
                0 <= j < i ==> !((#[trigger] vms@[j]).id@ != id@ && !vms@[j].at_rest
                    && vms@[j].address == Some(address)),
        decreases vms.len() - i,
    {
        let v = &vms[i];
        let same_address = match v.address {
            Some(a) => a == address,
            None => false,
        };
        if !(v.id == *id) && !v.at_rest && same_address {
            return true;
        }
        i += 1;
    }
    false
}

} // verus!
