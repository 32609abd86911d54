use fwp::network::DnsConfig;
use fwp::resolv::{build_resolv_conf, nameserver_request, parse_resolv_conf};
use fwp::error::ApiError;

fn strings(v: &[&str]) -> Vec<String> {
    v.iter().map(|s| s.to_string()).collect()
}

const CURRENT: &str = "# Generated by resolvconf\nsearch lan example.org\nnameserver 192.168.1.1 # router\nnameserver 8.8.8.8\noptions edns0\nfoo bar\n";

#[test]
fn read_settings() {
    let c = parse_resolv_conf(CURRENT);
    assert_eq!(c.nameservers, strings(&["192.168.1.1", "8.8.8.8"]));
    assert_eq!(c.search, strings(&["lan", "example.org"]));
    assert_eq!(c.domain, None);
    assert_eq!(c.options, strings(&["edns0"]));
    assert!(c.sortlist.is_empty());
}

#[test]
fn write_keeps_other_lines() {
    let mut c = parse_resolv_conf(CURRENT);
    c.nameservers = strings(&["1.1.1.1"]);
    c.domain = Some("example.org".into());
    let out = build_resolv_conf(CURRENT, &c);
    assert_eq!(
        out,
        "# Generated by resolvconf\nsearch lan example.org\nnameserver 1.1.1.1\noptions edns0\nfoo bar\ndomain example.org\n"
    );
}

#[test]
fn written_settings_read_back() {
    let c = DnsConfig {
        nameservers: strings(&["9.9.9.9", "2620:fe::fe"]),
        search: strings(&["a.example", "b.example"]),
        domain: Some("a.example".into()),
        options: strings(&["ndots:2", "rotate"]),
        sortlist: strings(&["10.0.0.0/8"]),
    };
    for current in [CURRENT, "", "domain old.example\nsortlist 1.2.3.4\r\n"] {
        let back = parse_resolv_conf(&build_resolv_conf(current, &c));
        assert_eq!(back.nameservers, c.nameservers);
        assert_eq!(back.search, c.search);
        assert_eq!(back.domain, c.domain);
        assert_eq!(back.options, c.options);
        assert_eq!(back.sortlist, c.sortlist);
    }
}

#[test]
fn nameserver_requests() {
    assert_eq!(nameserver_request(&strings(&[" 1.1.1.1 ", "", "::1"])).unwrap(), strings(&["1.1.1.1", "::1"]));
    assert!(matches!(
        nameserver_request(&strings(&["1.1.1.1", "1.1.1.2", "1.1.1.3", "1.1.1.4"])),
        Err(ApiError::BadRequest(m)) if m == "resolv.conf supports at most 3 nameservers"
    ));
    assert!(matches!(
        nameserver_request(&strings(&["not-an-ip"])),
        Err(ApiError::BadRequest(m)) if m == "'not-an-ip' is not a valid IP address"
    ));
    assert!(matches!(
        nameserver_request(&strings(&["1.1.1.1", "1.1.1.1"])),
        Err(ApiError::Conflict(m)) if m == "duplicate nameserver: 1.1.1.1"
    ));
}
