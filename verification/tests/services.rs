use fwp::error::ApiError;
use fwp::services::{
    action_failure, check_pidfile, check_procname, expand_vars, is_enabled, parse_script_text,
    parse_var_line, pidfile_path, process_table, read_vars, resolve_rcvar, service_names,
    service_source, sort_services, try_fast_check, validate_action, validate_name, var_lookup,
    ServiceInfo,
};

fn pairs(v: &[(&str, &str)]) -> Vec<(String, String)> {
    v.iter().map(|(a, b)| (a.to_string(), b.to_string())).collect()
}

fn svc(name: &str, enabled: bool) -> ServiceInfo {
    ServiceInfo { name: name.into(), description: None, enabled, running: false, source: "system".into() }
}

#[test]
fn names_and_actions() {
    assert!(validate_name("sshd").is_ok());
    assert!(matches!(validate_name(""), Err(ApiError::BadRequest(m)) if m == "invalid service name length"));
    assert!(matches!(validate_name("ss hd"), Err(ApiError::BadRequest(m)) if m == "invalid service name"));
    assert!(validate_action("restart").is_ok());
    assert!(matches!(validate_action("reload"), Err(ApiError::BadRequest(m)) if m == "action must be start, stop, or restart"));
    assert!(matches!(action_failure("start", "sshd", ""), ApiError::Command(m) if m == "service start sshd failed"));
}

#[test]
fn assignments_of_three_forms() {
    let mut vars = vec![];
    parse_var_line("sshd_enable=\"YES\"", &mut vars);
    parse_var_line("  ntpd_flags=-g # comment", &mut vars);
    parse_var_line(": ${sshd_enable:=\"NO\"}", &mut vars);
    parse_var_line(": ${foo_enable:=\"NO\"}", &mut vars);
    parse_var_line("not an assignment", &mut vars);
    assert_eq!(var_lookup(&vars, "sshd_enable").as_deref(), Some("YES"));
    assert_eq!(var_lookup(&vars, "ntpd_flags").as_deref(), Some("-g"));
    assert_eq!(var_lookup(&vars, "foo_enable").as_deref(), Some("NO"));
    assert_eq!(var_lookup(&vars, "bar"), None);
}

#[test]
fn later_files_override() {
    let mut vars = vec![];
    read_vars("sshd_enable=\"NO\"\nntpd_enable=\"NO\"\n", &mut vars);
    read_vars("sshd_enable=\"YES\"\n", &mut vars);
    assert!(is_enabled(&vars, "sshd_enable"));
    assert!(!is_enabled(&vars, "ntpd_enable"));
    assert!(!is_enabled(&vars, "absent_enable"));
}

#[test]
fn script_description_and_vars() {
    let script = "#!/bin/sh\n# PROVIDE: nginx\nname=\"nginx\"\nrcvar=\"${name}_enable\"\ndesc=\"Web server\"\ndesc=\"Second\"\ncommand=\"/usr/local/sbin/${name}\"\npidfile=\"/var/run/${name}.pid\"\n";
    let (desc, vars) = parse_script_text(script);
    assert_eq!(desc.as_deref(), Some("Web server"));
    assert_eq!(resolve_rcvar("nginx", &vars), "nginx_enable");
    assert_eq!(pidfile_path(&vars).as_deref(), Some("/var/run/nginx.pid"));
    assert_eq!(expand_vars("${name}-${undefined}", &vars), None);
    assert_eq!(expand_vars("${command} -t", &vars).as_deref(), Some("/usr/local/sbin/nginx -t"));
}

#[test]
fn rcvar_falls_back_to_file_name() {
    assert_eq!(resolve_rcvar("foo", &vec![]), "foo_enable");
    assert_eq!(resolve_rcvar("foo", &pairs(&[("name", "bar")])), "bar_enable");
}

#[test]
fn processes_and_running_checks() {
    let procs = process_table("  PID COMMAND\n    1 /sbin/init --\n  812 /usr/local/sbin/nginx -g daemon\n  900 \n   -3 bad\n");
    assert_eq!(procs, vec![(1, "/sbin/init --".to_string()), (812, "/usr/local/sbin/nginx -g daemon".to_string())]);
    assert_eq!(check_pidfile(Some("812\n"), &procs), Some(true));
    assert_eq!(check_pidfile(Some("999"), &procs), Some(false));
    assert_eq!(check_pidfile(Some("garbage"), &procs), None);
    assert_eq!(check_pidfile(None, &procs), None);
    assert!(check_procname("/usr/local/sbin/nginx", &procs));
    assert!(check_procname("nginx", &procs));
    assert!(!check_procname("/sbin/nginx", &procs));
    let vars = pairs(&[("procname", "/usr/local/sbin/nginx")]);
    assert_eq!(try_fast_check(&vars, &procs, None), Some(true));
    assert_eq!(try_fast_check(&pairs(&[("pidfile", "/p")]), &procs, Some(false)), Some(false));
    assert_eq!(try_fast_check(&pairs(&[("command", "/bin/x --y")]), &procs, None), None);
}

#[test]
fn service_list_and_order() {
    let names = service_names("sshd\nDAEMON\n\ncron\nsshd\n  ntpd \n");
    assert_eq!(names, vec!["cron".to_string(), "ntpd".to_string(), "sshd".to_string()]);
    assert_eq!(service_source(Some("/etc/rc.d/sshd")), "system");
    assert_eq!(service_source(Some("/usr/local/etc/rc.d/nginx")), "local");
    assert_eq!(service_source(None), "unknown");
    let sorted = sort_services(vec![svc("zfs", false), svc("sshd", true), svc("cron", true), svc("abc", false)]);
    let order: Vec<&str> = sorted.iter().map(|s| s.name.as_str()).collect();
    assert_eq!(order, vec!["cron", "sshd", "abc", "zfs"]);
}
