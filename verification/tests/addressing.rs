use firemage_runtime::addressing::{
    AddressError, GuestRecord, NetworkAttachment, NetworkPolicy, NetworkSpec, Subnet, VmAttachment,
    address_in_use, address_reservations, broadcast_address, contains_address,
    ensure_network_address_available, ipv4, ipv4_to_text, mac_from_bytes, network_address,
    random_mac, suggest_address,
};

fn network(prefix_len: u8, gateway: u32) -> NetworkSpec {
    NetworkSpec {
        name: "review".to_string(),
        subnet: Subnet { address: ipv4(10, 77, 1, 0), prefix_len },
        gateway,
        policy: NetworkPolicy::Unrestricted,
    }
}

#[test]
fn suggestion_skips_gateway_reservations_and_wraps_inside_small_subnets() {
    let net = network(29, ipv4(10, 77, 1, 1));
    let mut reserved = vec![ipv4(10, 77, 1, 2), ipv4(10, 77, 1, 3)];
    assert_eq!(
        ipv4_to_text(suggest_address(&net, &reserved).unwrap()),
        "10.77.1.4"
    );
    reserved.extend([ipv4(10, 77, 1, 4), ipv4(10, 77, 1, 5), ipv4(10, 77, 1, 6)]);
    assert!(suggest_address(&net, &reserved).is_none());
    let net = network(30, ipv4(10, 77, 1, 2));
    assert_eq!(ipv4_to_text(suggest_address(&net, &[]).unwrap()), "10.77.1.1");
}

#[test]
fn subnet_bounds_follow_the_prefix() {
    let s = Subnet { address: ipv4(192, 168, 7, 77), prefix_len: 24 };
    assert_eq!(network_address(&s), ipv4(192, 168, 7, 0));
    assert_eq!(broadcast_address(&s), ipv4(192, 168, 7, 255));
    assert!(contains_address(&s, ipv4(192, 168, 7, 1)));
    assert!(!contains_address(&s, ipv4(192, 168, 8, 1)));
    let all = Subnet { address: ipv4(1, 2, 3, 4), prefix_len: 0 };
    assert_eq!(network_address(&all), 0);
    assert_eq!(broadcast_address(&all), u32::MAX);
}

#[test]
fn reservations_cover_networks_and_other_guests_only() {
    let net = NetworkSpec {
        name: "lab".to_string(),
        subnet: Subnet { address: ipv4(10, 0, 0, 0), prefix_len: 24 },
        gateway: ipv4(10, 0, 0, 1),
        policy: NetworkPolicy::HostOnly { address: ipv4(10, 0, 0, 9) },
    };
    let vms = vec![
        VmAttachment {
            id: "a".to_string(),
            attachment: Some(NetworkAttachment {
                network: "lab".to_string(),
                address: ipv4(10, 0, 0, 5),
                mac: "02:AA:00:00:00:01".to_string(),
            }),
        },
        VmAttachment {
            id: "b".to_string(),
            attachment: Some(NetworkAttachment {
                network: "lab".to_string(),
                address: ipv4(10, 0, 0, 6),
                mac: "02:aa:00:00:00:02".to_string(),
            }),
        },
    ];
    let (addresses, macs) = address_reservations(&vms, &[net.clone()], Some("b"));
    for ip in [ipv4(10, 0, 0, 0), ipv4(10, 0, 0, 1), ipv4(10, 0, 0, 255), ipv4(10, 0, 0, 9), ipv4(10, 0, 0, 5)] {
        assert!(addresses.contains(&ip));
    }
    assert!(!addresses.contains(&ipv4(10, 0, 0, 6)));
    assert!(macs.contains(&"02:aa:00:00:00:01".to_string()));
    assert!(!macs.contains(&"02:aa:00:00:00:02".to_string()));
    let suggested = suggest_address(&net, &addresses).unwrap();
    assert_eq!(suggested, ipv4(10, 0, 0, 2));
    let fresh = NetworkAttachment { network: "lab".to_string(), address: suggested, mac: "02:bb:00:00:00:01".to_string() };
    assert_eq!(ensure_network_address_available(&net, &fresh, &addresses, &macs), Ok(()));
    let taken = NetworkAttachment { network: "lab".to_string(), address: ipv4(10, 0, 0, 5), mac: "02:bb:00:00:00:01".to_string() };
    assert_eq!(
        ensure_network_address_available(&net, &taken, &addresses, &macs),
        Err(AddressError::AddressUnavailable)
    );
    let outside = NetworkAttachment { network: "lab".to_string(), address: ipv4(10, 0, 1, 5), mac: "02:bb:00:00:00:01".to_string() };
    assert_eq!(
        ensure_network_address_available(&net, &outside, &addresses, &macs),
        Err(AddressError::AddressUnavailable)
    );
    let same_mac = NetworkAttachment { network: "lab".to_string(), address: suggested, mac: "02:AA:00:00:00:01".to_string() };
    assert_eq!(
        ensure_network_address_available(&net, &same_mac, &addresses, &macs),
        Err(AddressError::MacInUse)
    );
}

#[test]
fn macs_are_locally_administered_lower_case_text() {
    let bytes: [u8; 16] = [0xab, 0x01, 0xff, 0x10, 0x7e, 9, 9, 9, 9, 9, 9, 9, 9, 9, 9, 9];
    assert_eq!(mac_from_bytes(&bytes), "02:ab:01:ff:10:7e");
    let mac = random_mac().expect("random bytes");
    assert_eq!(mac.len(), 17);
    assert!(mac.starts_with("02:"));
}

#[test]
fn dotted_decimal_text() {
    assert_eq!(ipv4_to_text(ipv4(0, 0, 0, 0)), "0.0.0.0");
    assert_eq!(ipv4_to_text(ipv4(255, 10, 0, 7)), "255.10.0.7");
}

#[test]
fn live_guests_hold_their_addresses() {
    let vms = vec![
        GuestRecord { id: "a".to_string(), at_rest: false, address: Some(ipv4(10, 0, 0, 2)) },
        GuestRecord { id: "b".to_string(), at_rest: true, address: Some(ipv4(10, 0, 0, 3)) },
    ];
    assert!(address_in_use(&vms, &"c".to_string(), ipv4(10, 0, 0, 2)));
    assert!(!address_in_use(&vms, &"a".to_string(), ipv4(10, 0, 0, 2)));
    assert!(!address_in_use(&vms, &"c".to_string(), ipv4(10, 0, 0, 3)));
}
