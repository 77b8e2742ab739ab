use exam_monitor_core::discovery::{
    announcement_targets, discovery_targets, is_discovery_probe, is_server_reply,
    targets_from_interfaces, BroadcastTarget, InterfaceAddress, DISCOVER_MESSAGE,
    LIMITED_BROADCAST, LOCALHOST, SERVER_MESSAGE,
};

fn ipv4(a: u8, b: u8, c: u8, d: u8) -> u32 {
    u32::from_be_bytes([a, b, c, d])
}

#[test]
fn targets_always_include_limited_broadcast() {
    let targets = discovery_targets(4_321);
    assert!(targets.contains(&BroadcastTarget { ip: ipv4(255, 255, 255, 255), port: 4_321 }));
}

#[test]
fn targets_use_requested_port_and_have_no_duplicates() {
    let targets = discovery_targets(1_234);
    assert!(targets.iter().all(|target| target.port == 1_234));

    let unique: std::collections::HashSet<_> = targets.iter().collect();
    assert_eq!(targets.len(), unique.len());
}

#[test]
fn targets_exclude_loopback_networks() {
    let targets = discovery_targets(1_234);
    assert!(targets
        .iter()
        .all(|target| target.ip >> 24 != 127));
}

#[test]
fn interfaces_give_their_directed_broadcasts_once() {
    let lan = ipv4(192, 168, 0, 255);
    let interfaces = vec![
        InterfaceAddress::V4 { ip: ipv4(127, 0, 0, 1), broadcast: Some(0x7fff_ffff) },
        InterfaceAddress::V4 { ip: ipv4(192, 168, 0, 7), broadcast: Some(lan) },
        InterfaceAddress::V4 { ip: ipv4(192, 168, 0, 8), broadcast: Some(lan) },
        InterfaceAddress::V4 { ip: ipv4(10, 0, 0, 2), broadcast: None },
        InterfaceAddress::V6 { ip_v6: 1 },
    ];
    assert_eq!(
        targets_from_interfaces(&interfaces, 50),
        vec![
            BroadcastTarget { ip: LIMITED_BROADCAST, port: 50 },
            BroadcastTarget { ip: lan, port: 50 },
        ]
    );
}

#[test]
fn announcements_also_go_to_loopback() {
    let targets = announcement_targets(77);
    assert_eq!(targets.last(), Some(&BroadcastTarget { ip: LOCALHOST, port: 77 }));
}

#[test]
fn datagrams_are_recognised_exactly() {
    assert_eq!(&DISCOVER_MESSAGE, b"discover");
    assert_eq!(&SERVER_MESSAGE, b"server");
    assert!(is_discovery_probe(b"discover"));
    assert!(!is_discovery_probe(b"discover!"));
    assert!(is_server_reply(b"server"));
    assert!(!is_server_reply(b"serve"));
}
