use fwp::error::ApiError;
use fwp::sysctl::{
    check_settable, ctl_type_name, filter_entries, make_entry, name_matches, parse_sysctl_conf,
    parse_sysctl_value, remove_from_sysctl_conf, sort_entries, upsert_sysctl_conf, validate_name,
    validate_value, SysctlEntry, SysctlValue, CTLFLAG_WR,
};

fn bad<T: std::fmt::Debug>(r: Result<T, ApiError>, msg: &str) -> bool {
    matches!(r, Err(ApiError::BadRequest(m)) if m == msg)
}

fn entry(name: &str) -> SysctlEntry {
    make_entry(&name.to_string(), 2 | CTLFLAG_WR, &"I".to_string(), &None, &Some("1".to_string()), &vec![])
        .unwrap()
}

#[test]
fn type_names() {
    assert_eq!(ctl_type_name(2), "integer");
    assert_eq!(ctl_type_name(3), "string");
    assert_eq!(ctl_type_name(0xf), "uint32");
    assert_eq!(ctl_type_name(0), "unknown");
}

#[test]
fn settable_kinds() {
    assert!(bad(check_settable("kern.x", 2), "sysctl 'kern.x' is read-only"));
    assert!(bad(check_settable("kern", 1 | CTLFLAG_WR), "sysctl 'kern' is a container node, not settable"));
    assert_eq!(check_settable("kern.x", 0x12 | CTLFLAG_WR).unwrap(), 2);
}

#[test]
fn names_and_values() {
    assert!(validate_name("net.inet.ip.forwarding").is_ok());
    assert!(bad(validate_name(""), "invalid sysctl name length"));
    assert!(bad(validate_name("kern.x-y"), "sysctl name must match [a-zA-Z0-9._]+"));
    assert!(validate_value("1").is_ok());
    assert!(bad(validate_value("1\n2"), "value must not contain newlines or null bytes"));
}

#[test]
fn typed_values() {
    assert_eq!(parse_sysctl_value("-5", 2).unwrap(), SysctlValue::I32(-5));
    assert_eq!(parse_sysctl_value("hello", 3).unwrap(), SysctlValue::Text("hello".into()));
    assert_eq!(parse_sysctl_value("255", 0xa).unwrap(), SysctlValue::U8(255));
    assert_eq!(parse_sysctl_value("+7", 9).unwrap(), SysctlValue::U64(7));
    assert!(bad(parse_sysctl_value("256", 0xa), "expected uint8, got '256'"));
    assert!(bad(parse_sysctl_value("-1", 6), "expected unsigned integer, got '-1'"));
    assert!(bad(parse_sysctl_value("x", 7), "expected long integer, got 'x'"));
    assert!(bad(parse_sysctl_value("1", 5), "cannot set sysctl of type 'opaque' (5)"));
}

#[test]
fn conf_names() {
    let names = parse_sysctl_conf("# c\nkern.a=1\n\n  net.b = 2 \nnoeq\n");
    assert_eq!(names, vec!["kern.a".to_string(), "net.b".to_string()]);
}

#[test]
fn conf_upsert_and_remove() {
    let conf = "# keep\nkern.a=1\n#kern.a=9\nnet.b=2";
    assert_eq!(upsert_sysctl_conf(conf, "kern.a", "5"), "# keep\nkern.a=5\n#kern.a=9\nnet.b=2\n");
    assert_eq!(upsert_sysctl_conf(conf, "vm.c", "3"), "# keep\nkern.a=1\n#kern.a=9\nnet.b=2\nvm.c=3\n");
    assert_eq!(upsert_sysctl_conf("", "vm.c", "3"), "vm.c=3\n");
    assert_eq!(remove_from_sysctl_conf(conf, "kern.a"), "# keep\n#kern.a=9\nnet.b=2\n");
    assert_eq!(remove_from_sysctl_conf("", "kern.a"), "\n");
}

#[test]
fn listing_entries() {
    assert!(make_entry(&"kern".to_string(), 1, &"N".to_string(), &None, &None, &vec![]).is_none());
    let e = make_entry(
        &"kern.hostname".to_string(),
        3 | CTLFLAG_WR,
        &"A".to_string(),
        &Some("Hostname".to_string()),
        &Some("box".to_string()),
        &vec!["kern.hostname".to_string()],
    )
    .unwrap();
    assert_eq!(e.typ, "string");
    assert!(e.writable && e.modified);
    let sorted = sort_entries(vec![entry("vm.b"), entry("kern.z"), entry("kern.a")]);
    let names: Vec<&str> = sorted.iter().map(|e| e.name.as_str()).collect();
    assert_eq!(names, vec!["kern.a", "kern.z", "vm.b"]);
    let kept = filter_entries(sorted, Some("KERN"));
    let names: Vec<&str> = kept.iter().map(|e| e.name.as_str()).collect();
    assert_eq!(names, vec!["kern.a", "kern.z"]);
    assert!(name_matches("Kern.IPC", "ipc"));
    assert!(!name_matches("kern.ipc", "vm"));
}

#[test]
fn set_value_is_listed_as_set() {
    for conf in ["", "# only a comment", "kern.a = 1\nvm.b=2\n", "#kern.a=1\n"] {
        let out = upsert_sysctl_conf(conf, "kern.a", "5");
        assert!(parse_sysctl_conf(&out).contains(&"kern.a".to_string()));
    }
}
