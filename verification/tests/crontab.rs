use fwp::crontab::{build_task, EntryInput};
use fwp::crontab::{
    is_cron_alias_str, is_env_var, parse_body, serialize_body, source_path, strip_comment,
    validate_command, validate_field, validate_special, validate_username,
};
use fwp::error::ApiError;

fn bad<T: std::fmt::Debug>(r: Result<T, ApiError>, msg: &str) -> bool {
    matches!(r, Err(ApiError::BadRequest(m)) if m == msg)
}

fn strings(v: &[&str]) -> Vec<String> {
    v.iter().map(|s| s.to_string()).collect()
}

#[test]
fn body_written_back_unchanged() {
    let body = strings(&[
        "SHELL=/bin/sh",
        "# nightly backup",
        "0 3 * * * root /usr/local/bin/backup",
        "",
        "#*/5 * * * * root /usr/bin/true",
        "@reboot root /bin/sh /root/boot.sh",
        "garbage line",
    ]);
    let blocks = parse_body(&body, 10, true);
    assert_eq!(serialize_body(&blocks), format!("{}\n", body.join("\n")));
    let user = strings(&["MAILTO=\"\"", "*/10 * * * * /usr/bin/fetch"]);
    assert_eq!(serialize_body(&parse_body(&user, 0, false)), format!("{}\n", user.join("\n")));
}

#[test]
fn aliases_env_and_comments() {
    assert!(is_cron_alias_str("@daily"));
    assert!(!is_cron_alias_str("@sometimes"));
    assert!(is_env_var("PATH=/bin:/usr/bin"));
    assert!(!is_env_var("0 3 * * * root x=1"));
    assert_eq!(strip_comment("#  nightly backup"), " nightly backup");
    assert_eq!(strip_comment("## x"), "x");
}

#[test]
fn field_rules() {
    assert!(validate_field("*/5", "minute").is_ok());
    assert!(bad(validate_field("", "minute"), "minute must not be empty"));
    assert!(bad(validate_field("1\n2", "hour"), "invalid hour"));
    assert!(validate_command("/usr/bin/true").is_ok());
    assert!(bad(validate_command("   "), "command must not be empty"));
    assert!(validate_special("@hourly").is_ok());
    assert!(bad(validate_special("@often"), "unknown schedule alias: @often"));
    assert!(validate_username("www-data").is_ok());
    assert!(validate_username("a b").is_err());
}

#[test]
fn sources() {
    assert_eq!(source_path("system").unwrap(), ("/etc/crontab".to_string(), true));
    assert_eq!(source_path("alice").unwrap(), ("/var/cron/tabs/alice".to_string(), false));
    assert!(source_path("../etc").is_err());
}

#[test]
fn task_with_bad_minute_is_bad_request() {
    let input = EntryInput {
        minute: Some("abc".into()),
        hour: None,
        dom: None,
        month: None,
        dow: None,
        special: None,
        user: None,
        command: "true".into(),
        comment: String::new(),
        disabled: None,
    };
    assert!(matches!(build_task(&input, false), Err(ApiError::BadRequest(_))));
    let ok = EntryInput { minute: Some("*/5".into()), ..input };
    let (line, _) = build_task(&ok, false).unwrap();
    assert!(line.starts_with("*/5 ") && line.ends_with(" true"));
}
