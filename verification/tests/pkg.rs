use fwp::error::ApiError;
use fwp::pkg::{
    gc_tasks, parse_dep_list, parse_file_list, parse_package_list, parse_preview,
    parse_search_results, parse_tsv, preview_args, push_line, run_args, set_status, task_index,
    validate_name, validate_names, validate_search, PkgTask, TaskStatus,
};

fn bad<T: std::fmt::Debug>(r: Result<T, ApiError>, msg: &str) -> bool {
    matches!(r, Err(ApiError::BadRequest(m)) if m == msg)
}

fn strings(v: &[&str]) -> Vec<String> {
    v.iter().map(|s| s.to_string()).collect()
}

fn task(id: &str, created_at: i64) -> PkgTask {
    PkgTask {
        id: id.into(),
        action: "install".into(),
        packages: strings(&["vim"]),
        status: TaskStatus::Running,
        exit_code: None,
        lines: vec![],
        created_at,
    }
}

#[test]
fn package_names_and_patterns() {
    assert!(validate_name("py311-django{4}@x+y").is_ok());
    assert!(bad(validate_name(""), "invalid package name"));
    assert!(bad(validate_name("vim; rm"), "invalid package name"));
    assert!(bad(validate_names(&vec![]), "no packages specified"));
    assert!(bad(validate_names(&strings(&["vim", "a b"])), "invalid package name"));
    assert!(validate_search("vim*").is_ok());
    assert!(bad(validate_search("a/b"), "invalid search pattern"));
}

#[test]
fn tsv_field_count() {
    assert_eq!(parse_tsv("a\tb\tc", 3).unwrap(), strings(&["a", "b", "c"]));
    assert!(matches!(parse_tsv("a\tb", 3), Err(ApiError::Internal(m)) if m == "expected 3 fields, got 2"));
}

#[test]
fn dependency_lines() {
    let deps = parse_dep_list("curl\t8.5.0\n\nbroken line\nlibnghttp2\t1.58.0\n");
    let got: Vec<(String, String)> = deps.iter().map(|d| (d.name.clone(), d.version.clone())).collect();
    assert_eq!(
        got,
        vec![("curl".to_string(), "8.5.0".to_string()), ("libnghttp2".to_string(), "1.58.0".to_string())]
    );
}

#[test]
fn package_rows() {
    let out = "vim\t9.1\teditors/vim\tVi IMproved\t0\t40 MiB\thttps://vim.org\tm@x\t1700000000\n\nbash\t5.2\tshells/bash\tGNU shell\t1\t9 MiB\thttps://gnu.org\tm@y\tbad\n";
    let ps = parse_package_list(out).unwrap();
    assert_eq!(ps.len(), 2);
    assert_eq!(ps[0].name, "vim");
    assert!(!ps[0].automatic);
    assert_eq!(ps[0].install_timestamp, 1700000000);
    assert!(ps[1].automatic);
    assert_eq!(ps[1].install_timestamp, 0);
    assert!(matches!(parse_package_list("only\ttwo\n"), Err(ApiError::Internal(m)) if m == "expected 9 fields, got 2"));
}

#[test]
fn search_rows_capped() {
    let one = "vim\t9.1\teditors/vim\tVi IMproved\t40 MiB\n";
    let r = parse_search_results(one).unwrap();
    assert_eq!(r.len(), 1);
    assert_eq!(r[0].size, "40 MiB");
    let many = one.repeat(150);
    assert_eq!(parse_search_results(&many).unwrap().len(), 100);
}

#[test]
fn file_rows() {
    let fs = parse_file_list("/usr/local/bin/vim\troot\twheel\t0755\n/usr/local/share/x\t\t\t\n");
    assert_eq!(fs.len(), 2);
    assert_eq!(fs[0].owner.as_deref(), Some("root"));
    assert_eq!(fs[0].mode.as_deref(), Some("0755"));
    assert_eq!(fs[1].owner, None);
    assert_eq!(fs[1].group, None);
}

#[test]
fn preview_sections() {
    let out = "Updating database\nNew packages to be INSTALLED:\n\tvim: 9.1 [FreeBSD]\n\tlibiconv: 1.17 [FreeBSD]\n\nNumber of packages to be installed: 2\nInstalled packages to be REMOVED:\n\tnano: 7.2\n";
    let p = parse_preview(out);
    assert_eq!(p.install, strings(&["vim", "libiconv"]));
    assert_eq!(p.delete, strings(&["nano"]));
}

#[test]
fn command_arguments() {
    let pk = strings(&["vim", "git"]);
    assert_eq!(preview_args("delete", &pk), strings(&["delete", "-n", "-R", "vim", "git"]));
    assert_eq!(preview_args("install", &pk), strings(&["install", "-n", "vim", "git"]));
    assert_eq!(run_args("delete", &pk, true), strings(&["delete", "-y", "-R", "vim", "git"]));
    assert_eq!(run_args("delete", &pk, false), strings(&["delete", "-y", "vim", "git"]));
}

#[test]
fn task_table() {
    let mut tasks = vec![task("a", 100), task("b", 950), task("c", 1000)];
    assert_eq!(task_index(&tasks, "b"), Some(1));
    assert_eq!(task_index(&tasks, "z"), None);
    push_line(&mut tasks, "b", "fetching");
    assert_eq!(tasks[1].lines, strings(&["fetching"]));
    push_line(&mut tasks, "z", "ignored");
    set_status(&mut tasks, "b", TaskStatus::Done, Some(0));
    assert_eq!(tasks[1].status, TaskStatus::Done);
    assert_eq!(tasks[1].exit_code, Some(0));
    gc_tasks(&mut tasks, 1500);
    let ids: Vec<&str> = tasks.iter().map(|t| t.id.as_str()).collect();
    assert_eq!(ids, vec!["b", "c"]);
}
