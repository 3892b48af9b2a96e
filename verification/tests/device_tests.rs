use rustle::device::{
    choose_address, clean_hostname, device_from_service, extract_instance_name, host_without_dots,
    is_private_ip, private_addresses, scan_targets, service_key, service_type_label, DeviceList,
    DiscoveredDevice, IpAddress, Ipv4Address, ResolvedService, ScanResults, SeenServiceTypes, ServiceCheck,
};

fn v4(a: u8, b: u8, c: u8, d: u8) -> Ipv4Address {
    Ipv4Address { a, b, c, d }
}

fn device(host: &str, ip: &str) -> DiscoveredDevice {
    DiscoveredDevice {
        name: host.to_string(),
        hostname: host.to_string(),
        ip: ip.to_string(),
        port: 49242,
        display_name: None,
        avatar_data: None,
    }
}

#[test]
fn private_ranges() {
    assert!(is_private_ip(&IpAddress::V4(v4(10, 1, 2, 3))));
    assert!(is_private_ip(&IpAddress::V4(v4(192, 168, 0, 1))));
    assert!(is_private_ip(&IpAddress::V4(v4(172, 16, 0, 1))));
    assert!(is_private_ip(&IpAddress::V4(v4(172, 31, 255, 255))));
    assert!(!is_private_ip(&IpAddress::V4(v4(172, 32, 0, 1))));
    assert!(!is_private_ip(&IpAddress::V4(v4(172, 15, 0, 1))));
    assert!(!is_private_ip(&IpAddress::V4(v4(192, 169, 0, 1))));
    assert!(!is_private_ip(&IpAddress::V4(v4(8, 8, 8, 8))));
    assert!(!is_private_ip(&IpAddress::V6(1)));
}

#[test]
fn private_addresses_keep_order() {
    let addrs = vec![
        IpAddress::V4(v4(8, 8, 8, 8)),
        IpAddress::V4(v4(192, 168, 178, 20)),
        IpAddress::V6(0xfe80),
        IpAddress::V4(v4(10, 0, 0, 1)),
    ];
    assert_eq!(private_addresses(&addrs), vec!["192.168.178.20".to_string(), "10.0.0.1".to_string()]);
}

#[test]
fn dotted_text_and_bits() {
    assert_eq!(v4(0, 0, 0, 0).to_text(), "0.0.0.0");
    assert_eq!(v4(255, 10, 100, 7).to_text(), "255.10.100.7");
    assert_eq!(Ipv4Address::from_bits(0xC0A80101), v4(192, 168, 1, 1));
    assert!(v4(127, 0, 0, 1).is_loopback());
}

#[test]
fn address_choice() {
    let none: Vec<String> = vec![];
    assert_eq!(
        choose_address(&vec![v4(127, 0, 0, 1), v4(192, 168, 1, 9)], &vec!["x".to_string()]),
        Some("192.168.1.9".to_string())
    );
    assert_eq!(choose_address(&vec![v4(127, 0, 0, 1)], &vec!["fe80::2".to_string()]), Some("fe80::2".to_string()));
    assert_eq!(choose_address(&vec![], &none), None);
}

#[test]
fn names() {
    assert_eq!(extract_instance_name("Rustle._rustle._tcp.local."), "Rustle");
    assert_eq!(extract_instance_name("plain"), "plain");
    assert_eq!(extract_instance_name(""), "");
    assert_eq!(clean_hostname("laptop.local."), "laptop");
    assert_eq!(clean_hostname("laptop.local.local.."), "laptop");
    assert_eq!(clean_hostname("server"), "server");
    assert_eq!(host_without_dots("box.local.."), "box.local");
    assert_eq!(service_type_label("_http._tcp.local."), "_http._tcp");
}

#[test]
fn device_list_keeps_each_device_once() {
    let mut list = DeviceList::new();
    assert!(list.is_empty());
    assert!(list.add(device("a", "10.0.0.1")));
    assert!(list.add(device("a", "10.0.0.2")));
    assert!(!list.add(device("a", "10.0.0.1")));
    assert!(list.add(device("b", "10.0.0.1")));
    assert_eq!(list.len(), 3);
    assert!(list.contains("a", "10.0.0.2"));
    assert!(!list.contains("c", "10.0.0.2"));
}

#[test]
fn services_become_devices() {
    let service = ResolvedService {
        fullname: "Rustle._rustle._tcp.local.".to_string(),
        hostname: "desk.local.".to_string(),
        port: 49242,
        ipv4: vec![v4(192, 168, 0, 7)],
        addresses: vec!["192.168.0.7".to_string()],
    };
    assert_eq!(service_key(&service), "desk.local.:49242");
    let d = device_from_service(&service).unwrap();
    assert_eq!(d.name, "Rustle");
    assert_eq!(d.hostname, "desk");
    assert_eq!(d.ip, "192.168.0.7");
    assert_eq!(d.port, 49242);
    let bare = ResolvedService { ipv4: vec![], addresses: vec![], ..service };
    assert!(device_from_service(&bare).is_none());
}

#[test]
fn scan_results_by_key() {
    let mut results = ScanResults::new();
    assert!(!results.knows("a:1"));
    results.insert("a:1".to_string(), device("a", "10.0.0.1"));
    assert!(results.knows("a:1"));
    results.insert("b:1".to_string(), device("b", "10.0.0.2"));
    assert_eq!(results.len(), 2);
    let devices = results.into_devices();
    assert_eq!(devices[0].hostname, "a");
    assert_eq!(devices[1].hostname, "b");
}

#[test]
fn service_types_are_reported_once() {
    let mut seen = SeenServiceTypes::new();
    assert!(seen.insert("_http._tcp.local."));
    assert!(!seen.insert("_http._tcp.local."));
    assert!(seen.insert("_ssh._tcp.local."));
}

#[test]
fn scan_targets_sorted_and_unique() {
    let peers = Some(vec!["nas".to_string(), "10.0.0.2".to_string(), "nas".to_string()]);
    let subnets = Some(vec!["10.0.0.0/30".to_string(), "not a subnet".to_string()]);
    assert_eq!(
        scan_targets(&peers, &subnets),
        vec!["10.0.0.1".to_string(), "10.0.0.2".to_string(), "nas".to_string()]
    );
}

#[test]
fn subnet_hosts_follow_the_prefix() {
    let t = scan_targets(&None, &Some(vec!["192.168.5.9/31".to_string()]));
    assert_eq!(t, vec!["192.168.5.8".to_string(), "192.168.5.9".to_string()]);
    let t = scan_targets(&None, &Some(vec!["192.168.5.9/32".to_string()]));
    assert_eq!(t, vec!["192.168.5.9".to_string()]);
    let t = scan_targets(&None, &Some(vec!["192.168.5.77/29".to_string()]));
    assert_eq!(t.len(), 6);
    assert_eq!(t[0], "192.168.5.73");
    assert_eq!(t[5], "192.168.5.78");
    assert!(scan_targets(&None, &None).is_empty());
    assert!(scan_targets(&None, &Some(vec!["10.0.0.0/33".to_string()])).is_empty());
}

fn service(host: &str, ip: (u8, u8, u8, u8)) -> ResolvedService {
    ResolvedService {
        fullname: "Rustle._rustle._tcp.local.".to_string(),
        hostname: format!("{host}.local."),
        port: 49242,
        ipv4: vec![v4(ip.0, ip.1, ip.2, ip.3)],
        addresses: vec![],
    }
}

#[test]
fn scan_decides_per_service() {
    let mut results = ScanResults::new();
    let s = service("desk", (192, 168, 0, 7));
    match results.examine(&s) {
        ServiceCheck::CheckAddress(ip) => assert_eq!(ip, "192.168.0.7"),
        ServiceCheck::Skip => panic!("expected an address check"),
    }
    assert!(results.accepted_device(&s, true).is_none());
    let d = results.accepted_device(&s, false).unwrap();
    assert_eq!(d.hostname, "desk");
    results.insert(service_key(&s), d);
    assert!(matches!(results.examine(&s), ServiceCheck::Skip));
    assert!(results.accepted_device(&s, false).is_none());
    let bare = ResolvedService { ipv4: vec![], ..service("x", (10, 0, 0, 1)) };
    assert!(matches!(results.examine(&bare), ServiceCheck::Skip));
    assert!(results.accepted_device(&bare, false).is_none());
}

#[test]
fn continuous_discovery_decides_per_service() {
    let mut list = DeviceList::new();
    let s = service("desk", (192, 168, 0, 7));
    assert!(matches!(list.examine(&s), ServiceCheck::CheckAddress(_)));
    assert!(list.accepted_device(&s, true).is_none());
    let d = list.accepted_device(&s, false).unwrap();
    assert!(list.add(d));
    assert!(list.accepted_device(&s, false).is_none());
    assert!(list.accepted_device(&service("desk", (192, 168, 0, 8)), false).is_some());
}

#[test]
fn subnet_grammar() {
    let t = scan_targets(&None, &Some(vec!["010.000.000.001/032".to_string()]));
    assert!(t.is_empty());
    let t = scan_targets(&None, &Some(vec!["010.000.000.001/32".to_string()]));
    assert_eq!(t, vec!["10.0.0.1".to_string()]);
    for bad in ["256.0.0.1/32", "1.2.3/32", "1.2.3.4", "1.2.3.4/", "1.2.3.4/32 ", " 1.2.3.4/32", "1.2.3.4.5/32", "1.2.3.0004/32", "1.2.3.4/8/8"] {
        assert!(scan_targets(&None, &Some(vec![bad.to_string()])).is_empty(), "{bad}");
    }
}
