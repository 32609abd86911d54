use fwp::ifaddrs::{aggregate_interfaces, AddrRecord, IfAddrRecord, LinkData};
use fwp::network::{IFF_LOOPBACK, IFF_UP};

fn rec(name: &str, flags: i32, kind: AddrRecord) -> IfAddrRecord {
    IfAddrRecord { name: name.to_string(), flags, is_physical: name.starts_with("em"), kind }
}

fn inet(a: &str, nm: Option<&str>) -> AddrRecord {
    AddrRecord::Inet {
        address: a.to_string(),
        netmask: nm.map(|s| s.to_string()),
        broadcast: None,
    }
}

#[test]
fn records_grouped_by_name_in_name_order() {
    let recs = vec![
        rec("vtnet0", IFF_UP, inet("10.0.0.5", Some("255.255.255.0"))),
        rec("lo0", IFF_UP | IFF_LOOPBACK, inet("127.0.0.1", Some("255.0.0.0"))),
        rec("em0", IFF_UP, AddrRecord::Link {
            set_mac: true,
            mac: Some("00:11:22:33:44:55".to_string()),
            data: Some(LinkData { mtu: 1500, metric: 0, baudrate: 1000000000, link_state: 2 }),
        }),
        rec("em0", IFF_UP, inet("192.168.1.10", Some("255.255.255.0"))),
        rec("em0", IFF_UP, inet("192.168.1.11", None)),
        rec("em0", IFF_UP, AddrRecord::Inet6 { address: "fe80::1".to_string(), prefix_len: Some(64) }),
        rec("vtnet0", IFF_UP, AddrRecord::Other),
    ];
    let ifs = aggregate_interfaces(&recs);
    let names: Vec<&str> = ifs.iter().map(|i| i.name.as_str()).collect();
    assert_eq!(names, vec!["em0", "vtnet0"]);
    let em0 = &ifs[0];
    assert!(em0.is_up && !em0.is_loopback && em0.is_physical);
    assert_eq!(em0.mac.as_deref(), Some("00:11:22:33:44:55"));
    assert_eq!((em0.mtu, em0.baudrate), (1500, 1000000000));
    assert_eq!(em0.link_state, "up");
    assert_eq!(em0.ipv4.len(), 2);
    assert_eq!(em0.ipv4[0].address, "192.168.1.10");
    assert_eq!(em0.ipv4[0].prefix_len, Some(24));
    assert!(!em0.ipv4[0].is_alias);
    assert!(em0.ipv4[1].is_alias);
    assert_eq!(em0.ipv4[1].prefix_len, None);
    assert_eq!(em0.ipv6.len(), 1);
    assert!(!em0.ipv6[0].is_alias);
    assert_eq!(em0.ipv6[0].prefix_len, Some(64));
    assert_eq!(ifs[1].link_state, "unknown");
    assert_eq!(ifs[1].ipv4.len(), 1);
}

#[test]
fn no_records_no_interfaces() {
    assert!(aggregate_interfaces(&Vec::new()).is_empty());
    let only_lo = vec![rec("lo0", IFF_LOOPBACK, AddrRecord::Other)];
    assert!(aggregate_interfaces(&only_lo).is_empty());
}
