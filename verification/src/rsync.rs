//! Rsync sync tasks: validation of their fields, the argument vector a run
//! uses, and the two `/etc/crontab` lines that schedule one.
use vstd::prelude::*;
use crate::error::{ApiError, ApiResult, bad_request, is_bad_request};
use crate::num::{dec, int_dec, push_dec, push_i64};
use crate::pattern::{regex_match, regex_is_match};
use crate::text::{
    all_chars, any_ctrl, byte_len, bytes_exceed, chars_of, contains_char, eq_ignore_case,
    eq_ignore_case_str, find_char, has_ctrl, is_alnum, is_alnum_char, join, join_strings, lines,
    owned, push_char, push_str, second_piece, second_piece_str, split_lines, split_once,
    split_once_str, split_ws, starts_with, starts_with_str, contains_sub, contains_str, trim,
    trim_start, trim_str, trim_start_str, words, trim_end, trim_end_str, ends_with, ends_with_str,
    strip_trailing, strip_trailing_str, str_lt, string_lt, to_lowercase_str, unicode_lower, str_eq,
};
use crate::num::{parse_signed64, parse_i64};
use crate::crontab::{is_cron_alias, is_cron_alias_str};

verus! {

/// Whether rsync is present, and the version it reports.
#[derive(Debug, Clone)]
pub struct RsyncStatus {
    pub installed: bool,
    pub version: Option<String>,
}

/// A stored sync task.
#[derive(Debug, Clone)]
pub struct RsyncTask {
    pub id: i64,
    pub description: String,
    pub source: String,
    pub dest: String,
    pub archive: bool,
    pub compress: bool,
    pub delete: bool,
    pub verbose: bool,
    pub port: Option<i32>,
    pub extra_args: String,
    pub run_user: String,
    pub cron_expr: String,
    pub cron_enabled: bool,
    pub last_run_at: Option<i64>,
    pub last_status: Option<String>,
    pub created_at: i64,
    pub updated_at: i64,
}

/// Fields of a task to create or replace; absent flags take their defaults.
#[derive(Debug, Clone)]
pub struct CreateTaskReq {
    pub description: String,
    pub source: String,
    pub dest: String,
    pub archive: Option<bool>,
    pub compress: Option<bool>,
    pub delete: Option<bool>,
    pub verbose: Option<bool>,
    pub port: Option<i32>,
    pub extra_args: Option<String>,
    pub run_user: Option<String>,
    pub cron_expr: Option<String>,
    pub cron_enabled: Option<bool>,
}

/// Options of a manual run.
#[derive(Debug, Clone)]
pub struct RunReq {
    pub dry_run: Option<bool>,
}

/// A remote directory to list.
#[derive(Debug, Clone)]
pub struct BrowseQuery {
    pub spec: String,
    pub port: Option<i32>,
}

/// One child of a listed remote directory.
#[derive(Debug, Clone)]
pub struct RsyncBrowseEntry {
    pub name: String,
    pub path: String,
    pub is_dir: bool,
}

// ───────────────────────── status ─────────────────────────

/// The word after the first word equal (ignoring ASCII case) to `kw`.
pub open spec fn word_after(ws: Seq<Seq<char>>, kw: Seq<char>) -> Option<Seq<char>>
    decreases ws.len(),
{
    if ws.len() == 0 {
        None
    } else if eq_ignore_case(ws[0], kw) {
        if ws.len() > 1 {
            Some(ws[1])
        } else {
            None
        }
    } else {
        word_after(ws.drop_first(), kw)
    }
}

/// The version that `rsync --version` prints: on its first line, the word
/// after `version`.
pub open spec fn rsync_version(out: Seq<char>) -> Option<Seq<char>> {
    if lines(out).len() == 0 {
        None
    } else {
        word_after(words(lines(out)[0]), "version"@)
    }
}

fn word_after_vec(ws: &Vec<String>, kw: &str) -> (r: Option<String>)
    ensures
        match r {
            Some(w) => word_after(ws.deep_view(), kw@) == Some(w@),
            None => word_after(ws.deep_view(), kw@) is None,
        },
{
    let ghost dv = ws.deep_view();
    let mut i: usize = 0;
    assert(dv.skip(0) =~= dv);
    while i < ws.len()
        invariant
            i <= ws@.len() == dv.len(),
            dv == ws.deep_view(),
            word_after(dv.skip(i as int), kw@) == word_after(dv, kw@),
        decreases ws@.len() - i,
    {
        assert(dv.skip(i as int)[0] == dv[i as int]);
        if eq_ignore_case_str(ws[i].as_str(), kw) {
            if i + 1 < ws.len() {
                assert(dv.skip(i as int)[1] == dv[i + 1]);
                return Some(ws[i + 1].clone());
            }
            return None;
        }
        assert(dv.skip(i as int).drop_first() =~= dv.skip(i + 1));
        i += 1;
    }
    None
}

/// Status of the rsync install. Whether the binary exists, and what its
/// `--version` printed, are read by the caller; the output is consulted only
/// when rsync is installed.
pub fn check_status(installed: bool, version_output: Option<&str>) -> (st: RsyncStatus)
    ensures
        st.installed == installed,
        !installed ==> st.version is None,
        installed ==> match version_output {
            None => st.version is None,
            Some(out) => match rsync_version(out@) {
                Some(v) => (st.version matches Some(x) && x@ == v),
                None => st.version is None,
            },
        },
{
    let version = if !installed {
        None
    } else {
        match version_output {
            None => None,
            Some(out) => {
                let ls = split_lines(out);
                if ls.len() == 0 {
                    None
                } else {
                    assert(ls.deep_view()[0] == ls@[0]@);
                    let ws = split_ws(ls[0].as_str());
                    word_after_vec(&ws, "version")
                }
            },
        }
    };
    RsyncStatus { installed, version }
}

/// Operations that need rsync are refused until it is installed.
pub fn ensure_installed(installed: bool) -> (r: ApiResult<()>)
    ensures
        installed ==> r is Ok,
        !installed ==> (r matches Err(ApiError::Conflict(m)) && m@ == "rsync is not installed"@),
{
    if !installed {
        return Err(ApiError::Conflict(owned("rsync is not installed")));
    }
    Ok(())
}

// ───────────────────────── validation ─────────────────────────

/// A description: non-empty, at most 128 bytes, no control characters.
pub fn validate_description(desc: &str) -> (r: ApiResult<()>)
    ensures
        r is Ok <==> (desc@.len() > 0 && byte_len(desc@) <= 128 && !any_ctrl(desc@)),
        desc@.len() == 0 ==> is_bad_request(r, "description must not be empty"@),
        desc@.len() > 0 && byte_len(desc@) > 128 ==> is_bad_request(
            r,
            "description too long (max 128 chars)"@,
        ),
        desc@.len() > 0 && byte_len(desc@) <= 128 && any_ctrl(desc@) ==> is_bad_request(
            r,
            "description contains control characters"@,
        ),
{
    if desc.is_empty() {
        return bad_request("description must not be empty");
    }
    if bytes_exceed(desc, 128) {
        return bad_request("description too long (max 128 chars)");
    }
    if has_ctrl(desc) {
        return bad_request("description contains control characters");
    }
    Ok(())
}

/// A source or destination: non-empty, no control characters. Local and
/// remote (`user@host:path`) forms are both accepted.
pub fn validate_path_spec(p: &str) -> (r: ApiResult<()>)
    ensures
        r is Ok <==> (p@.len() > 0 && !any_ctrl(p@)),
        p@.len() == 0 ==> is_bad_request(r, "path must not be empty"@),
        p@.len() > 0 && any_ctrl(p@) ==> is_bad_request(r, "path contains control characters"@),
{
    if p.is_empty() {
        return bad_request("path must not be empty");
    }
    if has_ctrl(p) {
        return bad_request("path contains control characters");
    }
    Ok(())
}

/// Extra arguments: no control characters.
pub fn validate_extra_args(s: &str) -> (r: ApiResult<()>)
    ensures
        r is Ok <==> !any_ctrl(s@),
        any_ctrl(s@) ==> is_bad_request(r, "extra args contain control characters"@),
{
    if has_ctrl(s) {
        return bad_request("extra args contain control characters");
    }
    Ok(())
}

/// A character allowed in a run-as user name.
pub open spec fn user_char(c: char) -> bool {
    is_alnum(c) || c == '_' || c == '-' || c == '.'
}

/// The run-as user: empty (root), or at most 32 bytes of ASCII letters,
/// digits, `_`, `-` and `.`.
pub fn validate_run_user(u: &str) -> (r: ApiResult<()>)
    ensures
        r is Ok <==> (u@.len() == 0 || (byte_len(u@) <= 32 && all_chars(u@, |c: char| user_char(c)))),
        !(r is Ok) ==> is_bad_request(r, "run_user must be a valid username"@),
{
    if u.is_empty() {
        return Ok(());
    }
    if bytes_exceed(u, 32) {
        return bad_request("run_user must be a valid username");
    }
    let v = chars_of(u);
    let mut i: usize = 0;
    while i < v.len()
        invariant
            i <= v@.len(),
            v@ == u@,
            forall|k: int| 0 <= k < i ==> user_char(#[trigger] v@[k]),
        decreases v@.len() - i,
    {
        let c = v[i];
        if !(is_alnum_char(c) || c == '_' || c == '-' || c == '.') {
            assert(!user_char(u@[i as int]));
            return bad_request("run_user must be a valid username");
        }
        i += 1;
    }
    Ok(())
}

/// A character allowed in a cron time field.
pub open spec fn cron_field_char(c: char) -> bool {
    ('0' <= c && c <= '9') || c == '*' || c == '/' || c == ',' || c == '-'
}

/// Whether every character of `w` may stand in a cron time field.
pub open spec fn cron_field_ok(w: Seq<char>) -> bool {
    all_chars(w, |c: char| cron_field_char(c))
}

fn cron_field_ok_str(w: &str) -> (b: bool)
    ensures
        b == cron_field_ok(w@),
{
    let v = chars_of(w);
    let mut i: usize = 0;
    while i < v.len()
        invariant
            i <= v@.len(),
            v@ == w@,
            forall|k: int| 0 <= k < i ==> cron_field_char(#[trigger] v@[k]),
        decreases v@.len() - i,
    {
        let c = v[i];
        if !(('0' <= c && c <= '9') || c == '*' || c == '/' || c == ',' || c == '-') {
            assert(!cron_field_char(w@[i as int]));
            return false;
        }
        i += 1;
    }
    true
}

/// A schedule: empty (not scheduled), one `@`-alias, or five fields made of
/// digits and `* / , -`.
pub open spec fn cron_expr_ok(expr: Seq<char>) -> bool {
    let ws = words(expr);
    expr.len() == 0 || (ws.len() == 1 && is_cron_alias(ws[0])) || (ws.len() == 5 && forall|k: int|
        0 <= k < 5 ==> cron_field_ok(#[trigger] ws[k]))
}

pub fn validate_cron_expr(expr: &str) -> (r: ApiResult<()>)
    ensures
        r is Ok <==> cron_expr_ok(expr@),
        expr@.len() > 0 && !(words(expr@).len() == 1 && is_cron_alias(words(expr@)[0]))
            && words(expr@).len() != 5 ==> is_bad_request(
            r,
            "cron_expr must have 5 fields or a @-alias"@,
        ),
        words(expr@).len() == 5 && !cron_expr_ok(expr@) ==> is_bad_request(
            r,
            "cron field has invalid characters"@,
        ),
{
    if expr.is_empty() {
        return Ok(());
    }
    let fields = split_ws(expr);
    let ghost dv = fields.deep_view();
    if fields.len() == 1 && is_cron_alias_str(fields[0].as_str()) {
        assert(dv[0] == fields@[0]@);
        return Ok(());
    }
    proof {
        if fields.len() == 1 {
            assert(dv[0] == fields@[0]@);
        }
    }
    if fields.len() != 5 {
        return bad_request("cron_expr must have 5 fields or a @-alias");
    }
    let mut i: usize = 0;
    while i < 5
        invariant
            i <= 5,
            fields@.len() == 5,
            dv == fields.deep_view(),
            dv == words(expr@),
            forall|k: int| 0 <= k < i ==> cron_field_ok(#[trigger] dv[k]),
        decreases 5 - i,
    {
        assert(dv[i as int] == fields@[i as int]@);
        if !cron_field_ok_str(fields[i].as_str()) {
            return bad_request("cron field has invalid characters");
        }
        i += 1;
    }
    Ok(())
}

/// rsync's own test for a remote endpoint: not absolute, and holds a `:`.
pub open spec fn is_remote_spec(p: Seq<char>) -> bool {
    !starts_with(p, "/"@) && p.contains(':')
}

pub fn is_remote(p: &str) -> (b: bool)
    ensures
        b == is_remote_spec(p@),
{
    !starts_with_str(p, "/") && contains_char(p, ':')
}

// ───────────────────────── the argument vector ─────────────────────────

/// `[flag]` when `on`, else nothing.
pub open spec fn flag_if(on: bool, flag: Seq<char>) -> Seq<Seq<char>> {
    if on {
        seq![flag]
    } else {
        seq![]
    }
}

/// The ssh command used for remote endpoints; a positive port is passed on.
pub open spec fn ssh_command(port: Option<i32>) -> Seq<char> {
    match port {
        Some(p) if p > 0 => "ssh -o BatchMode=yes"@ + " -p "@ + dec(p as nat),
        _ => "ssh -o BatchMode=yes"@,
    }
}

/// The arguments rsync is run with for `t`: the option flags, an ssh
/// wrapper when either end is remote, the extra arguments split on
/// whitespace, then source and destination.
pub open spec fn rsync_args(t: RsyncTask, dry_run: bool) -> Seq<Seq<char>> {
    flag_if(t.archive, "-a"@) + flag_if(t.verbose, "-v"@) + flag_if(t.compress, "-z"@) + flag_if(
        t.delete,
        "--delete"@,
    ) + flag_if(dry_run, "-n"@) + (if is_remote_spec(t.source@) || is_remote_spec(t.dest@) {
        seq!["-e"@, ssh_command(t.port)]
    } else {
        seq![]
    }) + words(t.extra_args@) + seq![t.source@, t.dest@]
}

/// When either end is remote and the task names a port, rsync is told to
/// reach it with `ssh -o BatchMode=yes -p <port>`: `-e` and that command
/// stand side by side in the arguments.
pub proof fn lemma_rsync_ssh_port(t: RsyncTask, dry_run: bool, port: i32)
    requires
        is_remote_spec(t.source@) || is_remote_spec(t.dest@),
        t.port == Some(port),
        port > 0,
    ensures
        exists|k: int|
            #![trigger rsync_args(t, dry_run)[k]]
            0 <= k && k + 1 < rsync_args(t, dry_run).len() && rsync_args(t, dry_run)[k] == "-e"@ && rsync_args(
                t,
                dry_run,
            )[k + 1] == "ssh -o BatchMode=yes -p "@ + dec(port as nat),
{
    reveal_strlit("ssh -o BatchMode=yes");
    reveal_strlit(" -p ");
    reveal_strlit("ssh -o BatchMode=yes -p ");
    let a = rsync_args(t, dry_run);
    let flags = flag_if(t.archive, "-a"@) + flag_if(t.verbose, "-v"@) + flag_if(t.compress, "-z"@) + flag_if(
        t.delete,
        "--delete"@,
    ) + flag_if(dry_run, "-n"@);
    let k = flags.len() as int;
    let ssh = ssh_command(t.port);
    assert(a == flags + seq!["-e"@, ssh] + words(t.extra_args@) + seq![t.source@, t.dest@]);
    assert(a[k] == "-e"@);
    assert(a[k + 1] == ssh);
    assert(ssh =~= "ssh -o BatchMode=yes -p "@ + dec(port as nat));
}

/// The option flags asked for are passed, and the source and the
/// destination come last, in that order.
#[verifier::spinoff_prover]
#[verifier::rlimit(50)]
pub proof fn lemma_rsync_args_ends(t: RsyncTask, dry_run: bool)
    ensures
        ({
            let a = rsync_args(t, dry_run);
            &&& a.len() >= 2 && a[a.len() - 2] == t.source@ && a[a.len() - 1] == t.dest@
            &&& t.archive ==> a.contains("-a"@)
            &&& t.verbose ==> a.contains("-v"@)
            &&& t.compress ==> a.contains("-z"@)
            &&& t.delete ==> a.contains("--delete"@)
            &&& dry_run ==> a.contains("-n"@)
        }),
{
    let a = rsync_args(t, dry_run);
    let f1 = flag_if(t.archive, "-a"@);
    let f2 = flag_if(t.verbose, "-v"@);
    let f3 = flag_if(t.compress, "-z"@);
    let f4 = flag_if(t.delete, "--delete"@);
    let f5 = flag_if(dry_run, "-n"@);
    let e: Seq<Seq<char>> = if is_remote_spec(t.source@) || is_remote_spec(t.dest@) {
        seq!["-e"@, ssh_command(t.port)]
    } else {
        seq![]
    };
    let tail = e + words(t.extra_args@) + seq![t.source@, t.dest@];
    assert(a =~= f1 + f2 + f3 + f4 + f5 + tail);
    assert(a[a.len() - 2] == t.source@ && a[a.len() - 1] == t.dest@);
    if t.archive {
        assert(a[0] == "-a"@);
    }
    if t.verbose {
        assert(a[f1.len() as int] == "-v"@);
    }
    if t.compress {
        assert(a[(f1.len() + f2.len()) as int] == "-z"@);
    }
    if t.delete {
        assert(a[(f1.len() + f2.len() + f3.len()) as int] == "--delete"@);
    }
    if dry_run {
        assert(a[(f1.len() + f2.len() + f3.len() + f4.len()) as int] == "-n"@);
    }
}

fn push_flag(args: &mut Vec<String>, on: bool, flag: &str)
    ensures
        final(args).deep_view() == old(args).deep_view() + flag_if(on, flag@),
{
    let ghost a0 = args.deep_view();
    if on {
        args.push(owned(flag));
        assert(args.deep_view() =~= a0 + flag_if(on, flag@));
    } else {
        assert(args.deep_view() =~= a0 + flag_if(on, flag@));
    }
}

pub fn build_rsync_args(task: &RsyncTask, dry_run: bool) -> (args: Vec<String>)
    ensures
        args.deep_view() == rsync_args(*task, dry_run),
{
    let mut args: Vec<String> = Vec::new();
    assert(args.deep_view() =~= Seq::<Seq<char>>::empty());
    push_flag(&mut args, task.archive, "-a");
    push_flag(&mut args, task.verbose, "-v");
    push_flag(&mut args, task.compress, "-z");
    push_flag(&mut args, task.delete, "--delete");
    push_flag(&mut args, dry_run, "-n");
    let ghost a0 = args.deep_view();
    if is_remote(task.source.as_str()) || is_remote(task.dest.as_str()) {
        let mut ssh = owned("ssh -o BatchMode=yes");
        match task.port {
            Some(port) => {
                if port > 0 {
                    push_str(&mut ssh, " -p ");
                    push_dec(&mut ssh, port as u64);
                }
            },
            None => {},
        }
        assert(ssh@ =~= ssh_command(task.port));
        args.push(owned("-e"));
        args.push(ssh);
        assert(args.deep_view() =~= a0 + seq!["-e"@, ssh_command(task.port)]);
    } else {
        assert(args.deep_view() =~= a0 + Seq::<Seq<char>>::empty());
    }
    let ghost a1 = args.deep_view();
    let extra = split_ws(task.extra_args.as_str());
    let mut i: usize = 0;
    while i < extra.len()
        invariant
            i <= extra@.len(),
            args.deep_view() == a1 + extra.deep_view().take(i as int),
        decreases extra@.len() - i,
    {
        let ghost before = args.deep_view();
        assert(extra.deep_view()[i as int] == extra@[i as int]@);
        args.push(extra[i].clone());
        assert(args.deep_view() =~= before.push(extra@[i as int]@));
        assert(extra.deep_view().take(i + 1) =~= extra.deep_view().take(i as int).push(
            extra@[i as int]@,
        ));
        assert(args.deep_view() =~= a1 + extra.deep_view().take(i + 1));
        i += 1;
    }
    assert(extra.deep_view().take(extra@.len() as int) =~= extra.deep_view());
    let ghost a2 = args.deep_view();
    args.push(task.source.clone());
    args.push(task.dest.clone());
    assert(args.deep_view() =~= a2 + seq![task.source@, task.dest@]);
    assert(args.deep_view() =~= rsync_args(*task, dry_run));
    args
}

// ───────────────────────── shell quoting ─────────────────────────

/// Characters that need no quoting.
pub open spec fn shell_safe(c: char) -> bool {
    is_alnum(c) || "-_./:=,@+"@.contains(c)
}

/// Each `'` becomes `'\''`.
pub open spec fn escape_quotes(s: Seq<char>) -> Seq<char>
    decreases s.len(),
{
    if s.len() == 0 {
        seq![]
    } else {
        escape_quotes(s.drop_last()) + if s.last() == '\'' {
            "'\\''"@
        } else {
            seq![s.last()]
        }
    }
}

/// One argument as `/bin/sh` reads it back: `''` when empty, bare when
/// every character is safe, else single-quoted.
pub open spec fn shell_quote(s: Seq<char>) -> Seq<char> {
    if s.len() == 0 {
        "''"@
    } else if all_chars(s, |c: char| shell_safe(c)) {
        s
    } else {
        "'"@ + escape_quotes(s) + "'"@
    }
}

fn is_shell_safe(c: char) -> (b: bool)
    ensures
        b == shell_safe(c),
{
    proof {
        reveal_strlit("-_./:=,@+");
    }
    let r = is_alnum_char(c) || c == '-' || c == '_' || c == '.' || c == '/' || c == ':' || c
        == '=' || c == ',' || c == '@' || c == '+';
    proof {
        let t = "-_./:=,@+"@;
        if t.contains(c) {
            let k = choose|k: int| 0 <= k < t.len() && t[k] == c;
            assert(t[k] == c);
        }
        if c == '-' { assert(t[0] == c); }
        if c == '_' { assert(t[1] == c); }
        if c == '.' { assert(t[2] == c); }
        if c == '/' { assert(t[3] == c); }
        if c == ':' { assert(t[4] == c); }
        if c == '=' { assert(t[5] == c); }
        if c == ',' { assert(t[6] == c); }
        if c == '@' { assert(t[7] == c); }
        if c == '+' { assert(t[8] == c); }
    }
    r
}

pub fn shell_quote_one(s: &str) -> (r: String)
    ensures
        r@ == shell_quote(s@),
{
    proof {
        reveal_strlit("''");
        reveal_strlit("'");
        reveal_strlit("'\\''");
    }
    if s.is_empty() {
        return owned("''");
    }
    let v = chars_of(s);
    let mut all_safe = true;
    let mut i: usize = 0;
    while i < v.len()
        invariant
            i <= v@.len(),
            v@ == s@,
            all_safe == forall|k: int| 0 <= k < i ==> shell_safe(#[trigger] v@[k]),
        decreases v@.len() - i,
    {
        if !is_shell_safe(v[i]) {
            all_safe = false;
        }
        i += 1;
    }
    if all_safe {
        return owned(s);
    }
    let mut out = owned("'");
    let mut j: usize = 0;
    while j < v.len()
        invariant
            j <= v@.len(),
            v@ == s@,
            out@ == "'"@ + escape_quotes(v@.take(j as int)),
        decreases v@.len() - j,
    {
        assert(v@.take(j + 1).drop_last() =~= v@.take(j as int));
        if v[j] == '\'' {
            push_str(&mut out, "'\\''");
        } else {
            push_char(&mut out, v[j]);
        }
        assert(out@ =~= "'"@ + escape_quotes(v@.take(j + 1)));
        j += 1;
    }
    assert(v@.take(v@.len() as int) =~= v@);
    push_char(&mut out, '\'');
    assert(out@ =~= "'"@ + escape_quotes(s@) + "'"@);
    out
}

/// The arguments as one `/bin/sh -c` command line.
pub open spec fn shell_line(parts: Seq<Seq<char>>) -> Seq<char> {
    join(parts.map_values(|p: Seq<char>| shell_quote(p)), " "@)
}

pub fn shell_join(parts: &Vec<String>) -> (r: String)
    ensures
        r@ == shell_line(parts.deep_view()),
{
    let mut quoted: Vec<String> = Vec::new();
    let mut i: usize = 0;
    while i < parts.len()
        invariant
            i <= parts@.len(),
            quoted.deep_view() == parts.deep_view().take(i as int).map_values(
                |p: Seq<char>| shell_quote(p),
            ),
        decreases parts@.len() - i,
    {
        let q = shell_quote_one(parts[i].as_str());
        let ghost before = quoted.deep_view();
        assert(parts.deep_view()[i as int] == parts@[i as int]@);
        quoted.push(q);
        assert(quoted.deep_view() =~= before.push(shell_quote(parts@[i as int]@)));
        assert(quoted.deep_view() =~= parts.deep_view().take(i + 1).map_values(
            |p: Seq<char>| shell_quote(p),
        ));
        i += 1;
    }
    assert(parts.deep_view().take(parts@.len() as int) =~= parts.deep_view());
    join_strings(&quoted, " ")
}

// ───────────────────────── crontab lines ─────────────────────────

/// The comment line that anchors a task's block in `/etc/crontab`.
pub open spec fn comment_line(id: i64, description: Seq<char>) -> Seq<char> {
    "# [fwp-managed, rsync="@ + int_dec(id as int) + "] "@ + description
        + " (managed by FreeBSD-Web-Panel — do not edit manually)"@
}

pub fn cron_comment_line(task: &RsyncTask) -> (r: String)
    ensures
        r@ == comment_line(task.id, task.description@),
{
    let mut s = owned("# [fwp-managed, rsync=");
    push_i64(&mut s, task.id);
    push_str(&mut s, "] ");
    push_str(&mut s, task.description.as_str());
    push_str(&mut s, " (managed by FreeBSD-Web-Panel — do not edit manually)");
    s
}

/// The schedule line: expression, the user cron runs it as (`root` when
/// none is set), and the quoted rsync command.
pub open spec fn command_line(t: RsyncTask) -> Seq<char> {
    t.cron_expr@ + " "@ + (if t.run_user@.len() == 0 {
        "root"@
    } else {
        t.run_user@
    }) + " "@ + shell_line(seq!["/usr/local/bin/rsync"@] + rsync_args(t, false))
}

pub fn cron_cmd_line(task: &RsyncTask) -> (r: String)
    ensures
        r@ == command_line(*task),
{
    let mut parts: Vec<String> = Vec::new();
    parts.push(owned("/usr/local/bin/rsync"));
    let args = build_rsync_args(task, false);
    let mut i: usize = 0;
    assert(parts.deep_view() =~= seq!["/usr/local/bin/rsync"@]);
    while i < args.len()
        invariant
            i <= args@.len(),
            parts.deep_view() == seq!["/usr/local/bin/rsync"@] + args.deep_view().take(i as int),
        decreases args@.len() - i,
    {
        let ghost before = parts.deep_view();
        assert(args.deep_view()[i as int] == args@[i as int]@);
        parts.push(args[i].clone());
        assert(parts.deep_view() =~= before.push(args@[i as int]@));
        assert(parts.deep_view() =~= seq!["/usr/local/bin/rsync"@] + args.deep_view().take(i + 1));
        i += 1;
    }
    assert(args.deep_view().take(args@.len() as int) =~= args.deep_view());
    let mut s = task.cron_expr.clone();
    push_str(&mut s, " ");
    if task.run_user.as_str().is_empty() {
        push_str(&mut s, "root");
    } else {
        push_str(&mut s, task.run_user.as_str());
    }
    push_str(&mut s, " ");
    let joined = shell_join(&parts);
    push_str(&mut s, joined.as_str());
    s
}

/// The task id in an `[fwp-managed, rsync=<id>]` comment line.
pub open spec fn fwp_tag(line: Seq<char>) -> Option<i64> {
    let l = trim_start(line);
    if !starts_with(l, "#"@) {
        None
    } else {
        let l2 = trim_start(l.drop_first());
        if !contains_sub(l2, "[fwp-managed"@) {
            None
        } else {
            let tag = crate::text::before_char(l2, ']');
            match second_piece(tag, "rsync="@) {
                None => None,
                Some(part) => match parse_signed64(trim(part)) {
                    Some(n) => Some(n as i64),
                    None => None,
                },
            }
        }
    }
}

pub fn parse_fwp_tag(line: &str) -> (r: Option<i64>)
    ensures
        r == fwp_tag(line@),
{
    proof {
        reveal_strlit("#");
    }
    let l = trim_start_str(line);
    if !starts_with_str(l.as_str(), "#") {
        return None;
    }
    let lv = chars_of(l.as_str());
    let rest = crate::text::string_from(&lv, 1, lv.len());
    assert(rest@ =~= l@.drop_first());
    let l2 = trim_start_str(rest.as_str());
    if !contains_str(l2.as_str(), "[fwp-managed") {
        return None;
    }
    let tag = crate::text::before_char_str(l2.as_str(), ']');
    match second_piece_str(tag.as_str(), "rsync=") {
        None => None,
        Some(part) => {
            let t = trim_str(part.as_str());
            parse_i64(t.as_str())
        },
    }
}

/// A task is kept in `/etc/crontab` when its schedule is enabled and set;
/// otherwise its block is removed.
pub fn cron_block_wanted(task: &RsyncTask) -> (b: bool)
    ensures
        b == (task.cron_enabled && task.cron_expr@.len() > 0),
{
    task.cron_enabled && !task.cron_expr.as_str().is_empty()
}

// ───────────────────────── remote browsing ─────────────────────────

/// `[user@]host:/path` split into host part and absolute path, when valid.
pub open spec fn remote_spec_ok(host: Seq<char>, path: Seq<char>) -> bool {
    &&& host.len() > 0
    &&& !host.contains('/')
    &&& regex_match(r"^[a-zA-Z0-9._@\-]+$"@, host) == Some(true)
    &&& starts_with(path, "/"@)
    &&& !path.contains('\'')
    &&& !any_ctrl(path)
}

pub fn parse_remote_spec(spec: &str) -> (r: ApiResult<(String, String)>)
    ensures
        match r {
            Ok((h, p)) => split_once(spec@, ':') == Some((h@, p@)) && remote_spec_ok(h@, p@),
            Err(_) => match split_once(spec@, ':') {
                None => true,
                Some((h, p)) => !remote_spec_ok(h, p),
            },
        },
        split_once(spec@, ':') is None ==> is_bad_request(r, "spec must be host:path"@),
{
    let (host, path) = match split_once_str(spec, ':') {
        None => return bad_request("spec must be host:path"),
        Some(hp) => hp,
    };
    if host.as_str().is_empty() || contains_char(host.as_str(), '/') {
        return bad_request("invalid host part");
    }
    match regex_is_match(r"^[a-zA-Z0-9._@\-]+$", host.as_str()) {
        Some(true) => {},
        Some(false) => return bad_request("invalid host"),
        None => return Err(ApiError::Internal(owned("host pattern does not compile"))),
    }
    if !starts_with_str(path.as_str(), "/") {
        return bad_request("remote path must be absolute");
    }
    if contains_char(path.as_str(), '\'') || has_ctrl(path.as_str()) {
        return bad_request("invalid remote path");
    }
    Ok((host, path))
}

// ───────────────────────── remote browse ─────────────────────────

/// A child as listed: its name, its full `host:path`, whether it is a
/// directory.
pub type BrowseView = (Seq<char>, Seq<char>, bool);

pub open spec fn browse_view(e: RsyncBrowseEntry) -> BrowseView {
    (e.name@, e.path@, e.is_dir)
}

/// The child one line of `ls -1Ap` names: trailing whitespace dropped, a
/// trailing `/` marks a directory and is not part of the name; an empty
/// name, `.` and `..` name no child.
pub open spec fn listing_item(line: Seq<char>) -> Option<(Seq<char>, bool)> {
    let t = trim_end(line);
    let name = strip_trailing(t, '/');
    if t.len() == 0 || name.len() == 0 || name == "."@ || name == ".."@ {
        None
    } else {
        Some((name, ends_with(t, "/"@)))
    }
}

/// The spec of a child: `host:` then the listed path, a `/` unless that
/// path ends in one, and the name.
pub open spec fn browse_path(host: Seq<char>, rpath: Seq<char>, name: Seq<char>) -> Seq<char> {
    host + ":"@ + rpath + (if ends_with(rpath, "/"@) {
        Seq::<char>::empty()
    } else {
        "/"@
    }) + name
}

/// The children in listing order.
pub open spec fn listed_entries(ls: Seq<Seq<char>>, host: Seq<char>, rpath: Seq<char>) -> Seq<BrowseView>
    decreases ls.len(),
{
    if ls.len() == 0 {
        seq![]
    } else {
        let prev = listed_entries(ls.drop_last(), host, rpath);
        match listing_item(ls.last()) {
            Some((n, d)) => prev.push((n, browse_path(host, rpath, n), d)),
            None => prev,
        }
    }
}

/// `a` is shown before `b`: directories first, then by lowercase name.
pub open spec fn browse_before(a: BrowseView, b: BrowseView) -> bool {
    (a.2 && !b.2) || (a.2 == b.2 && str_lt(unicode_lower(a.0), unicode_lower(b.0)))
}

/// `x` placed into ordered `s` after every child it is not shown before.
pub open spec fn browse_insert(s: Seq<BrowseView>, x: BrowseView) -> Seq<BrowseView>
    decreases s.len(),
{
    if s.len() == 0 {
        seq![x]
    } else if browse_before(x, s.last()) {
        browse_insert(s.drop_last(), x).push(s.last())
    } else {
        s.push(x)
    }
}

/// The children in the order shown: directories first, then by lowercase
/// name; children that compare equal keep their listing order.
pub open spec fn browse_order(s: Seq<BrowseView>) -> Seq<BrowseView>
    decreases s.len(),
{
    if s.len() == 0 {
        seq![]
    } else {
        browse_insert(browse_order(s.drop_last()), s.last())
    }
}

proof fn lemma_browse_insert_at(s: Seq<BrowseView>, x: BrowseView, j: int)
    requires
        0 <= j <= s.len(),
        forall|k: int| j <= k < s.len() ==> browse_before(x, #[trigger] s[k]),
        j == 0 || !browse_before(x, s[j - 1]),
    ensures
        browse_insert(s, x) == s.take(j) + seq![x] + s.skip(j),
    decreases s.len(),
{
    if s.len() == 0 {
        assert(s.take(j) + seq![x] + s.skip(j) =~= seq![x]);
    } else if j == s.len() {
        assert(s.take(j) + seq![x] + s.skip(j) =~= s.push(x));
    } else {
        let t = s.drop_last();
        assert(browse_before(x, s[s.len() - 1]));
        assert forall|k: int| j <= k < t.len() implies browse_before(x, #[trigger] t[k]) by {
            assert(t[k] == s[k]);
        }
        if j > 0 {
            assert(t[j - 1] == s[j - 1]);
        }
        lemma_browse_insert_at(t, x, j);
        assert(t.take(j) + seq![x] + t.skip(j) + seq![s.last()] =~= s.take(j) + seq![x] + s.skip(j));
    }
}

fn browse_before_exec(a_dir: bool, a_key: &String, b_dir: bool, b_key: &String) -> (r: bool)
    ensures
        r == ((a_dir && !b_dir) || (a_dir == b_dir && str_lt(a_key@, b_key@))),
{
    (a_dir && !b_dir) || (a_dir == b_dir && string_lt(a_key, b_key))
}

/// What browsing asks of the remote side: the host part, the directory,
/// the ssh port (22 when none is given) and the `ls` command run there.
#[derive(Debug, Clone)]
pub struct BrowseTarget {
    pub host: String,
    pub path: String,
    pub port: i32,
    pub remote_cmd: String,
}

/// Checks a browse request: the spec as `parse_remote_spec` takes it, then
/// a port of 1 to 65535.
pub fn browse_target(q: &BrowseQuery) -> (r: ApiResult<BrowseTarget>)
    ensures
        match split_once(q.spec@, ':') {
            Some((h, p)) => {
                let port = match q.port {
                    Some(n) => n,
                    None => 22i32,
                };
                &&& (remote_spec_ok(h, p) && 1 <= port <= 65535) <==> r is Ok
                &&& remote_spec_ok(h, p) && !(1 <= port <= 65535) ==> is_bad_request(r, "port must be 1-65535"@)
                &&& r matches Ok(t) ==> t.host@ == h && t.path@ == p && t.port == port && t.remote_cmd@
                    == "ls -1Ap -- '"@ + p + "'"@
            },
            None => is_bad_request(r, "spec must be host:path"@),
        },
{
    let (host, path) = parse_remote_spec(q.spec.as_str())?;
    let port: i32 = match q.port {
        Some(n) => n,
        None => 22,
    };
    if !(1 <= port && port <= 65535) {
        return bad_request("port must be 1-65535");
    }
    let mut remote_cmd = owned("ls -1Ap -- '");
    push_str(&mut remote_cmd, path.as_str());
    push_str(&mut remote_cmd, "'");
    Ok(BrowseTarget { host, path, port, remote_cmd })
}

/// The error when the remote listing failed: what ssh printed on standard
/// error (trimmed), or the exit status when it printed nothing (-1 when it
/// had none).
pub fn browse_failure(stderr: &str, code: Option<i32>) -> (r: String)
    ensures
        r@ == if trim(stderr@).len() > 0 {
            trim(stderr@)
        } else {
            "remote listing failed (exit "@ + int_dec(
                match code {
                    Some(c) => c as int,
                    None => -1,
                },
            ) + ")"@
        },
{
    let t = trim_str(stderr);
    if !t.as_str().is_empty() {
        return t;
    }
    let mut m = owned("remote listing failed (exit ");
    let c: i64 = match code {
        Some(c) => c as i64,
        None => -1,
    };
    push_i64(&mut m, c);
    push_str(&mut m, ")");
    m
}

/// The children of a remote directory from what `ls -1Ap` printed there,
/// `host` and `remote_path` being the two halves of the browsed spec.
pub fn browse_entries(host: &str, remote_path: &str, listing: &str) -> (r: Vec<RsyncBrowseEntry>)
    ensures
        r@.map_values(|e: RsyncBrowseEntry| browse_view(e)) == browse_order(
            listed_entries(lines(listing@), host@, remote_path@),
        ),
{
    let ls = split_lines(listing);
    let ghost lv = ls.deep_view();
    let slash = ends_with_str(remote_path, "/");
    let mut out: Vec<RsyncBrowseEntry> = Vec::new();
    let mut keys: Vec<String> = Vec::new();
    let mut i: usize = 0;
    assert(out@.map_values(|e: RsyncBrowseEntry| browse_view(e)) =~= Seq::<BrowseView>::empty());
    assert(lv.take(0) =~= Seq::<Seq<char>>::empty());
    while i < ls.len()
        invariant
            i <= ls@.len(),
            lv == ls.deep_view(),
            lv == lines(listing@),
            slash == ends_with(remote_path@, "/"@),
            keys@.len() == out@.len(),
            forall|k: int| 0 <= k < out@.len() ==> (#[trigger] keys@[k])@ == unicode_lower(out@[k].name@),
            out@.map_values(|e: RsyncBrowseEntry| browse_view(e)) == browse_order(
                listed_entries(lv.take(i as int), host@, remote_path@),
            ),
        decreases ls@.len() - i,
    {
        let ghost prev = lv.take(i as int);
        assert(lv.take(i + 1).drop_last() =~= prev);
        assert(lv.take(i + 1).last() == lv[i as int]);
        assert(lv[i as int] == ls@[i as int]@);
        let t = trim_end_str(ls[i].as_str());
        let is_dir = ends_with_str(t.as_str(), "/");
        let name = strip_trailing_str(t.as_str(), '/');
        if t.as_str().is_empty() || name.as_str().is_empty() || str_eq(name.as_str(), ".") || str_eq(
            name.as_str(),
            "..",
        ) {
            proof {
                reveal_strlit(".");
                reveal_strlit("..");
                assert(listing_item(lv[i as int]) is None);
                assert(listed_entries(lv.take(i + 1), host@, remote_path@) == listed_entries(
                    prev,
                    host@,
                    remote_path@,
                ));
            }
            i += 1;
        } else {
            let mut path = owned(host);
            push_str(&mut path, ":");
            push_str(&mut path, remote_path);
            if !slash {
                push_str(&mut path, "/");
            }
            push_str(&mut path, name.as_str());
            proof {
                reveal_strlit("");
                assert(path@ =~= browse_path(host@, remote_path@, name@));
            }
            let key = to_lowercase_str(name.as_str());
            let ghost sv = out@.map_values(|e: RsyncBrowseEntry| browse_view(e));
            let ghost x: BrowseView = (name@, path@, is_dir);
            let mut j = out.len();
            while j > 0 && browse_before_exec(is_dir, &key, out[j - 1].is_dir, &keys[j - 1])
                invariant
                    j <= out@.len(),
                    keys@.len() == out@.len(),
                    forall|k: int| 0 <= k < out@.len() ==> (#[trigger] keys@[k])@ == unicode_lower(out@[k].name@),
                    sv == out@.map_values(|e: RsyncBrowseEntry| browse_view(e)),
                    key@ == unicode_lower(x.0),
                    x.2 == is_dir,
                    forall|k: int| j <= k < sv.len() ==> browse_before(x, #[trigger] sv[k]),
                decreases j,
            {
                assert(sv[j - 1] == browse_view(out@[j - 1]));
                assert(keys@[j - 1]@ == unicode_lower(out@[j - 1].name@));
                j -= 1;
            }
            proof {
                if j > 0 {
                    assert(sv[j - 1] == browse_view(out@[j - 1]));
                    assert(keys@[j - 1]@ == unicode_lower(out@[j - 1].name@));
                }
                lemma_browse_insert_at(sv, x, j as int);
            }
            let ghost ko = keys@;
            let ghost oo = out@;
            out.insert(j, RsyncBrowseEntry { name, path, is_dir });
            keys.insert(j, key);
            proof {
                reveal_strlit(".");
                reveal_strlit("..");
                assert(listing_item(lv[i as int]) == Some((name@, is_dir)));
                let le = listed_entries(prev, host@, remote_path@);
                assert(listed_entries(lv.take(i + 1), host@, remote_path@) == le.push(x));
                assert(le.push(x).drop_last() =~= le);
                assert(browse_order(le.push(x)) == browse_insert(browse_order(le), x));
                assert(out@.map_values(|e: RsyncBrowseEntry| browse_view(e)) =~= sv.take(j as int) + seq![x]
                    + sv.skip(j as int));
                assert forall|k: int| 0 <= k < out@.len() implies (#[trigger] keys@[k])@ == unicode_lower(
                    out@[k].name@,
                ) by {
                    if k < j {
                        assert(keys@[k] == ko[k] && out@[k] == oo[k]);
                    } else if k > j {
                        assert(keys@[k] == ko[k - 1] && out@[k] == oo[k - 1]);
                    }
                }
            }
            i += 1;
        }
    }
    assert(lv.take(i as int) =~= lv);
    out
}

// ───────────────────────── the crontab block ─────────────────────────

/// How many lines a task's block takes from line `i`: its tag line, and the
/// next line too unless that one is a tag line itself.
pub open spec fn block_len(ls: Seq<Seq<char>>, i: int) -> int {
    if i + 1 < ls.len() && fwp_tag(ls[i + 1]) is None {
        2
    } else {
        1
    }
}

/// Copy the lines from `i` on after `out`, putting `block` in place of each
/// block of task `id`; also whether any was found.
pub open spec fn replace_scan(
    ls: Seq<Seq<char>>,
    id: i64,
    block: Seq<Seq<char>>,
    i: int,
    out: Seq<Seq<char>>,
    found: bool,
) -> (Seq<Seq<char>>, bool)
    decreases ls.len() - i,
{
    if i < 0 || i >= ls.len() {
        (out, found)
    } else if fwp_tag(ls[i]) == Some(id) {
        replace_scan(ls, id, block, i + block_len(ls, i), out + block, true)
    } else {
        replace_scan(ls, id, block, i + 1, out.push(ls[i]), found)
    }
}

/// Lines joined, with a final newline.
pub open spec fn with_final_newline(ls: Seq<Seq<char>>) -> Seq<char> {
    let j = join(ls, "\n"@);
    if j.len() > 0 && j.last() == '\n' {
        j
    } else {
        j.push('\n')
    }
}

/// `/etc/crontab` with the block of `task` written: in place of each block
/// it already has, else appended after a blank line.
pub open spec fn upserted_crontab(content: Seq<char>, task: RsyncTask) -> Seq<char> {
    let block = seq![comment_line(task.id, task.description@), command_line(task)];
    let (out, found) = replace_scan(lines(content), task.id, block, 0, Seq::empty(), false);
    if found {
        with_final_newline(out)
    } else if out.len() > 0 && out.last().len() > 0 {
        with_final_newline(out.push(""@) + block)
    } else {
        with_final_newline(out + block)
    }
}

/// Drop the lines from `i` on of each block of task `id`, and with each the
/// blank line written just before it; also whether any was found.
pub open spec fn remove_scan(ls: Seq<Seq<char>>, id: i64, i: int, out: Seq<Seq<char>>, found: bool) -> (
    Seq<Seq<char>>,
    bool,
)
    decreases ls.len() - i,
{
    if i < 0 || i >= ls.len() {
        (out, found)
    } else if fwp_tag(ls[i]) == Some(id) {
        let out2 = if out.len() > 0 && out.last().len() == 0 {
            out.drop_last()
        } else {
            out
        };
        remove_scan(ls, id, i + block_len(ls, i), out2, true)
    } else {
        remove_scan(ls, id, i + 1, out.push(ls[i]), found)
    }
}

fn finish_lines(out: &Vec<String>) -> (r: String)
    ensures
        r@ == with_final_newline(out.deep_view()),
{
    let mut r = join_strings(out, "\n");
    let e = crate::text::ends_with_str(r.as_str(), "\n");
    proof {
        reveal_strlit("\n");
        let j = r@;
        assert("\n"@ =~= seq!['\n']);
        if e {
            assert(j.skip(j.len() - 1)[0] == "\n"@[0]);
        } else if j.len() > 0 && j.last() == '\n' {
            assert(j.skip(j.len() - 1) =~= "\n"@);
        }
        assert(e == (j.len() > 0 && j.last() == '\n'));
    }
    if !e {
        push_char(&mut r, '\n');
    }
    r
}

fn is_tag_of(line: &String, id: i64) -> (b: bool)
    ensures
        b == (fwp_tag(line@) == Some(id)),
{
    match parse_fwp_tag(line.as_str()) {
        Some(t) => t == id,
        None => false,
    }
}

/// The crontab text with the block of `task` written (see `upserted_crontab`).
pub fn upsert_cron_block(content: &str, task: &RsyncTask) -> (r: String)
    ensures
        r@ == upserted_crontab(content@, *task),
{
    let ls = split_lines(content);
    let ghost lv = ls.deep_view();
    let c = cron_comment_line(task);
    let m = cron_cmd_line(task);
    let ghost block = seq![c@, m@];
    let mut out: Vec<String> = Vec::new();
    let mut found = false;
    let mut i: usize = 0;
    assert(out.deep_view() =~= Seq::<Seq<char>>::empty());
    while i < ls.len()
        invariant
            i <= ls@.len(),
            lv == ls.deep_view(),
            lv.len() == ls@.len(),
            block == seq![c@, m@],
            replace_scan(lv, task.id, block, i as int, out.deep_view(), found) == replace_scan(
                lv,
                task.id,
                block,
                0,
                Seq::empty(),
                false,
            ),
        decreases ls@.len() - i,
    {
        assert(lv[i as int] == ls@[i as int]@);
        if is_tag_of(&ls[i], task.id) {
            let ghost o0 = out.deep_view();
            out.push(c.clone());
            out.push(m.clone());
            assert(out.deep_view() =~= o0 + block);
            found = true;
            if i + 1 < ls.len() && parse_fwp_tag(ls[i + 1].as_str()).is_none() {
                assert(lv[i + 1] == ls@[i + 1]@);
                i += 2;
            } else {
                i += 1;
            }
        } else {
            let ghost o0 = out.deep_view();
            out.push(ls[i].clone());
            assert(out.deep_view() =~= o0.push(lv[i as int]));
            i += 1;
        }
    }
    if !found {
        if out.len() > 0 && !out[out.len() - 1].as_str().is_empty() {
            let ghost o0 = out.deep_view();
            out.push(owned(""));
            assert(out.deep_view() =~= o0.push(""@));
        }
        let ghost o1 = out.deep_view();
        out.push(c);
        out.push(m);
        assert(out.deep_view() =~= o1 + block);
    }
    finish_lines(&out)
}

/// The crontab text without the block of task `id` (and the blank line
/// before it); `None`, leaving the file as it is, when it has no such block.
pub fn remove_cron_block(content: &str, id: i64) -> (r: Option<String>)
    ensures
        ({
            let (out, found) = remove_scan(lines(content@), id, 0, Seq::empty(), false);
            match r {
                Some(t) => found && t@ == with_final_newline(out),
                None => !found,
            }
        }),
{
    let ls = split_lines(content);
    let ghost lv = ls.deep_view();
    let mut out: Vec<String> = Vec::new();
    let mut found = false;
    let mut i: usize = 0;
    assert(out.deep_view() =~= Seq::<Seq<char>>::empty());
    while i < ls.len()
        invariant
            i <= ls@.len(),
            lv == ls.deep_view(),
            lv.len() == ls@.len(),
            remove_scan(lv, id, i as int, out.deep_view(), found) == remove_scan(
                lv,
                id,
                0,
                Seq::empty(),
                false,
            ),
        decreases ls@.len() - i,
    {
        assert(lv[i as int] == ls@[i as int]@);
        if is_tag_of(&ls[i], id) {
            found = true;
            if i + 1 < ls.len() && parse_fwp_tag(ls[i + 1].as_str()).is_none() {
                assert(lv[i + 1] == ls@[i + 1]@);
                i += 2;
            } else {
                i += 1;
            }
            if out.len() > 0 && out[out.len() - 1].as_str().is_empty() {
                let ghost o0 = out.deep_view();
                out.pop();
                assert(out.deep_view() =~= o0.drop_last());
            }
        } else {
            let ghost o0 = out.deep_view();
            out.push(ls[i].clone());
            assert(out.deep_view() =~= o0.push(lv[i as int]));
            i += 1;
        }
    }
    if !found {
        return None;
    }
    Some(finish_lines(&out))
}

} // verus!
