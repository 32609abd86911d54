use fwp::error::ApiError;
use fwp::files::{
    group_of, normalize, parse_id_names, perm_string, type_char, user_of, validate_name_component,
};

fn bad(r: Result<impl std::fmt::Debug, ApiError>, msg: &str) -> bool {
    matches!(r, Err(ApiError::BadRequest(m)) if m == msg)
}

#[test]
fn normalize_resolves_dots() {
    assert_eq!(normalize("/usr/./local/../bin/").unwrap(), "/usr/bin");
    assert_eq!(normalize("/../..").unwrap(), "/");
    assert_eq!(normalize("//a//b").unwrap(), "/a/b");
}

#[test]
fn normalize_refuses_relative_and_control() {
    assert!(bad(normalize("etc"), "path must be absolute"));
    assert!(bad(normalize(""), "path must be absolute"));
    assert!(bad(normalize("/etc\n"), "path contains invalid characters"));
}

#[test]
fn name_component_rules() {
    assert!(validate_name_component("report.txt").is_ok());
    assert!(bad(validate_name_component(""), "invalid name length"));
    assert!(bad(validate_name_component(&"a".repeat(256)), "invalid name length"));
    assert!(bad(validate_name_component(".."), "invalid name"));
    assert!(bad(validate_name_component("a/b"), "invalid name"));
}

#[test]
fn perm_string_special_bits() {
    assert_eq!(perm_string('-', 0o644), "-rw-r--r--");
    assert_eq!(perm_string('d', 0o755), "drwxr-xr-x");
    assert_eq!(perm_string('-', 0o4755), "-rwsr-xr-x");
    assert_eq!(perm_string('-', 0o2644), "-rw-r-Sr--");
    assert_eq!(perm_string('d', 0o1777), "drwxrwxrwt");
    assert_eq!(perm_string('d', 0o1776), "drwxrwxrwT");
}

#[test]
fn type_char_by_mode() {
    assert_eq!(type_char(true, false, 0o040755), 'd');
    assert_eq!(type_char(false, true, 0o120777), 'l');
    assert_eq!(type_char(false, false, 0o020666), 'c');
    assert_eq!(type_char(false, false, 0o060660), 'b');
    assert_eq!(type_char(false, false, 0o010644), 'p');
    assert_eq!(type_char(false, false, 0o140755), 's');
    assert_eq!(type_char(false, false, 0o100644), '-');
}

#[test]
fn passwd_first_entry_wins() {
    let passwd = "root:*:0:0:Charlie:/root:/bin/sh\ntoor:*:0:0:Bourne:/root:\nwww:*:80:80::/nonexistent:/usr/sbin/nologin\nbad line\n";
    let users = parse_id_names(passwd, true);
    assert_eq!(user_of(&users, 0), "root");
    assert_eq!(user_of(&users, 80), "www");
    assert_eq!(user_of(&users, 1234), "1234");
}

#[test]
fn group_last_entry_wins() {
    let group = "wheel:*:0:root\nalt:*:0:\nstaff:*:20:\n";
    let groups = parse_id_names(group, false);
    assert_eq!(group_of(&groups, 0), "alt");
    assert_eq!(group_of(&groups, 20), "staff");
    assert_eq!(group_of(&groups, 7), "7");
}
