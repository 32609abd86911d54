//! rc services.
use vstd::prelude::*;
use crate::error::{ApiError, ApiResult, bad_request, is_bad_request};
use crate::num::parse_signed64;
use crate::pattern::{regex_capture_one, regex_capture_pair, regex_group1, regex_groups, regex_is_match, regex_match};
use crate::smb::PropsView;
use crate::text::{
    byte_len, bytes_exceed, chars_of, contains_char, contains_str, contains_sub, eq_ignore_case,
    eq_ignore_case_str, file_name_of, is_ws, is_ws_char, lines, owned, path_file_name, push_str,
    replace_all, replace_str, split_lines, split_ws, starts_with, starts_with_str, str_eq,
    string_from, trim, trim_start, trim_start_str, trim_str, words, sort_strings, sorted_strs,
    str_le, str_lt, string_lt, lemma_str_lt_total, lemma_str_le_trans, lemma_str_lt_trans,
    lemma_str_lt_irreflexive,
};

verus! {

/// A service as listed.
#[derive(Debug, Clone)]
pub struct ServiceInfo {
    pub name: String,
    pub description: Option<String>,
    pub enabled: bool,
    pub running: bool,
    pub source: String,
}

/// What a service action printed.
#[derive(Debug, Clone)]
pub struct ServiceActionResponse {
    pub name: String,
    pub action: String,
    pub output: String,
}

/// A service and an action on it.
#[derive(Debug, Clone)]
pub struct ActionPath {
    pub name: String,
    pub action: String,
}


// ───────────────────────── names ─────────────────────────

/// A service name: 1 to 128 bytes matching `^[a-zA-Z0-9_.-]+$`.
pub open spec fn service_name_ok(name: Seq<char>) -> bool {
    0 < byte_len(name) <= 128 && regex_match(r"^[a-zA-Z0-9_.-]+$"@, name) == Some(true)
}

pub fn validate_name(name: &str) -> (r: ApiResult<()>)
    ensures
        r is Ok <==> service_name_ok(name@),
        !(0 < byte_len(name@) <= 128) ==> is_bad_request(r, "invalid service name length"@),
        0 < byte_len(name@) <= 128 && regex_match(r"^[a-zA-Z0-9_.-]+$"@, name@) == Some(false)
            ==> is_bad_request(r, "invalid service name"@),
{
    proof {
        crate::text::lemma_byte_len_zero(name@);
    }
    if name.is_empty() || bytes_exceed(name, 128) {
        return bad_request("invalid service name length");
    }
    match regex_is_match(r"^[a-zA-Z0-9_.-]+$", name) {
        Some(true) => Ok(()),
        Some(false) => bad_request("invalid service name"),
        None => Err(ApiError::Internal(owned("service name pattern does not compile"))),
    }
}

/// The actions a service takes.
pub open spec fn action_ok(a: Seq<char>) -> bool {
    a == "start"@ || a == "stop"@ || a == "restart"@
}

pub fn validate_action(action: &str) -> (r: ApiResult<()>)
    ensures
        r is Ok <==> action_ok(action@),
        !action_ok(action@) ==> is_bad_request(r, "action must be start, stop, or restart"@),
{
    if str_eq(action, "start") || str_eq(action, "stop") || str_eq(action, "restart") {
        Ok(())
    } else {
        bad_request("action must be start, stop, or restart")
    }
}

/// The error of a failed action: its output, or a note when it printed
/// nothing.
pub fn action_failure(action: &str, name: &str, output: &str) -> (r: ApiError)
    ensures
        r matches ApiError::Command(m) && m@ == if output@.len() == 0 {
            "service "@ + action@ + " "@ + name@ + " failed"@
        } else {
            output@
        },
{
    if output.is_empty() {
        let mut m = owned("service ");
        push_str(&mut m, action);
        push_str(&mut m, " ");
        push_str(&mut m, name);
        push_str(&mut m, " failed");
        ApiError::Command(m)
    } else {
        ApiError::Command(owned(output))
    }
}

// ───────────────────────── shell variables ─────────────────────────

/// Index of the entry for `k` in a variable list.
pub open spec fn find_key(ps: PropsView, k: Seq<char>) -> Option<int>
    decreases ps.len(),
{
    if ps.len() == 0 {
        None
    } else if ps[0].0 == k {
        Some(0)
    } else {
        match find_key(ps.drop_first(), k) {
            Some(i) => Some(i + 1),
            None => None,
        }
    }
}

proof fn lemma_find_key(ps: PropsView, k: Seq<char>, i: int)
    requires
        0 <= i <= ps.len(),
        forall|j: int| 0 <= j < i ==> ps[j].0 != k,
        i == ps.len() || ps[i].0 == k,
    ensures
        find_key(ps, k) == if i == ps.len() {
            None::<int>
        } else {
            Some(i)
        },
    decreases i,
{
    if i > 0 {
        let t = ps.drop_first();
        assert forall|j: int| 0 <= j < i - 1 implies t[j].0 != k by {
            assert(t[j] == ps[j + 1]);
        }
        if i < ps.len() {
            assert(t[i - 1] == ps[i]);
        }
        lemma_find_key(t, k, i - 1);
    }
}

/// The value of `k`, if set.
pub open spec fn var_get(ps: PropsView, k: Seq<char>) -> Option<Seq<char>> {
    match find_key(ps, k) {
        Some(i) => Some(ps[i].1),
        None => None,
    }
}

/// `map.insert(k, v)` on a list with one entry per key.
pub open spec fn var_insert(ps: PropsView, k: Seq<char>, v: Seq<char>) -> PropsView {
    match find_key(ps, k) {
        Some(i) => ps.update(i, (k, v)),
        None => ps.push((k, v)),
    }
}

/// `map.entry(k).or_insert(v)`.
pub open spec fn var_default(ps: PropsView, k: Seq<char>, v: Seq<char>) -> PropsView {
    match find_key(ps, k) {
        Some(_) => ps,
        None => ps.push((k, v)),
    }
}

fn key_index(ps: &Vec<(String, String)>, k: &str) -> (r: Option<usize>)
    ensures
        match r {
            Some(i) => find_key(ps.deep_view(), k@) == Some(i as int) && i < ps@.len(),
            None => find_key(ps.deep_view(), k@) is None,
        },
{
    let ghost dv = ps.deep_view();
    let mut j: usize = 0;
    while j < ps.len()
        invariant
            j <= ps@.len() == dv.len(),
            dv == ps.deep_view(),
            forall|x: int| 0 <= x < j ==> dv[x].0 != k@,
        decreases ps@.len() - j,
    {
        assert(dv[j as int] == (ps@[j as int].0@, ps@[j as int].1@));
        if str_eq(ps[j].0.as_str(), k) {
            proof {
                lemma_find_key(dv, k@, j as int);
            }
            return Some(j);
        }
        j += 1;
    }
    proof {
        lemma_find_key(dv, k@, j as int);
    }
    None
}

pub fn var_lookup(ps: &Vec<(String, String)>, k: &str) -> (r: Option<String>)
    ensures
        match r {
            Some(v) => var_get(ps.deep_view(), k@) == Some(v@),
            None => var_get(ps.deep_view(), k@) is None,
        },
{
    match key_index(ps, k) {
        Some(i) => {
            assert(ps.deep_view()[i as int] == (ps@[i as int].0@, ps@[i as int].1@));
            Some(ps[i].1.clone())
        },
        None => None,
    }
}

fn insert_var(ps: &mut Vec<(String, String)>, k: String, v: String)
    ensures
        final(ps).deep_view() == var_insert(old(ps).deep_view(), k@, v@),
{
    let ghost o = ps.deep_view();
    match key_index(ps, k.as_str()) {
        Some(i) => {
            let _old = ps.remove(i);
            let ghost kv = (k@, v@);
            ps.insert(i, (k, v));
            assert(ps.deep_view() =~= o.update(i as int, kv));
        },
        None => {
            let ghost kv = (k@, v@);
            ps.push((k, v));
            assert(ps.deep_view() =~= o.push(kv));
        },
    }
}

fn default_var(ps: &mut Vec<(String, String)>, k: String, v: String)
    ensures
        final(ps).deep_view() == var_default(old(ps).deep_view(), k@, v@),
{
    let ghost o = ps.deep_view();
    match key_index(ps, k.as_str()) {
        Some(_) => {},
        None => {
            let ghost kv = (k@, v@);
            ps.push((k, v));
            assert(ps.deep_view() =~= o.push(kv));
        },
    }
}

/// `var="value"`.
pub open spec fn re_assign_dq() -> Seq<char> {
    r#"^\s*([a-zA-Z_][a-zA-Z0-9_]*)="([^"]*)""#@
}

/// `var=value`.
pub open spec fn re_assign_uq() -> Seq<char> {
    r##"^\s*([a-zA-Z_][a-zA-Z0-9_]*)=([^\s"#]+)"##@
}

/// `: ${var:="value"}`.
pub open spec fn re_default() -> Seq<char> {
    r#"^\s*:\s*\$\{([a-zA-Z_][a-zA-Z0-9_]*):="([^"]*)"\}"#@
}

/// One line of a shell file read into the variables: a quoted or unquoted
/// assignment sets the variable; a `${var:=default}` sets it only when unset.
pub open spec fn var_line(ps: PropsView, line: Seq<char>) -> PropsView {
    match regex_groups(re_assign_dq(), line) {
        Some(kv) => var_insert(ps, kv.0, kv.1),
        None => match regex_groups(re_assign_uq(), line) {
            Some(kv) => var_insert(ps, kv.0, kv.1),
            None => match regex_groups(re_default(), line) {
                Some(kv) => var_default(ps, kv.0, kv.1),
                None => ps,
            },
        },
    }
}

pub fn parse_var_line(line: &str, vars: &mut Vec<(String, String)>)
    ensures
        final(vars).deep_view() == var_line(old(vars).deep_view(), line@),
{
    match regex_capture_pair(r#"^\s*([a-zA-Z_][a-zA-Z0-9_]*)="([^"]*)""#, line) {
        Some((k, v)) => insert_var(vars, k, v),
        None => match regex_capture_pair(r##"^\s*([a-zA-Z_][a-zA-Z0-9_]*)=([^\s"#]+)"##, line) {
            Some((k, v)) => insert_var(vars, k, v),
            None => match regex_capture_pair(
                r#"^\s*:\s*\$\{([a-zA-Z_][a-zA-Z0-9_]*):="([^"]*)"\}"#,
                line,
            ) {
                Some((k, v)) => default_var(vars, k, v),
                None => {},
            },
        },
    }
}

pub open spec fn vars_fold(ps: PropsView, ls: Seq<Seq<char>>) -> PropsView
    decreases ls.len(),
{
    if ls.len() == 0 {
        ps
    } else {
        var_line(vars_fold(ps, ls.drop_last()), ls.last())
    }
}

/// Reads every line of a shell file into the variables.
pub fn read_vars(content: &str, vars: &mut Vec<(String, String)>)
    ensures
        final(vars).deep_view() == vars_fold(old(vars).deep_view(), lines(content@)),
{
    let ls = split_lines(content);
    let ghost lv = ls.deep_view();
    let ghost v0 = vars.deep_view();
    let mut i: usize = 0;
    assert(lv.take(0) =~= Seq::<Seq<char>>::empty());
    while i < ls.len()
        invariant
            i <= ls@.len() == lv.len(),
            lv == ls.deep_view(),
            vars.deep_view() == vars_fold(v0, lv.take(i as int)),
        decreases ls@.len() - i,
    {
        assert(lv.take(i + 1).drop_last() =~= lv.take(i as int));
        assert(lv.take(i + 1).last() == ls@[i as int]@);
        parse_var_line(ls[i].as_str(), vars);
        i += 1;
    }
    assert(lv.take(i as int) =~= lv);
}

/// `desc="..."`.
pub open spec fn re_desc() -> Seq<char> {
    r#"^\s*desc="([^"]*)""#@
}

pub open spec fn desc_fold(ls: Seq<Seq<char>>) -> Option<Seq<char>>
    decreases ls.len(),
{
    if ls.len() == 0 {
        None
    } else {
        match desc_fold(ls.drop_last()) {
            Some(d) => Some(d),
            None => regex_group1(re_desc(), ls.last()),
        }
    }
}

/// An rc.d script's description (its first `desc="..."`) and variables.
pub fn parse_script_text(content: &str) -> (r: (Option<String>, Vec<(String, String)>))
    ensures
        match r.0 {
            Some(d) => desc_fold(lines(content@)) == Some(d@),
            None => desc_fold(lines(content@)) is None,
        },
        r.1.deep_view() == vars_fold(seq![], lines(content@)),
{
    let ls = split_lines(content);
    let ghost lv = ls.deep_view();
    let mut vars: Vec<(String, String)> = Vec::new();
    let mut desc: Option<String> = None;
    let mut i: usize = 0;
    assert(lv.take(0) =~= Seq::<Seq<char>>::empty());
    assert(vars.deep_view() =~= Seq::<(Seq<char>, Seq<char>)>::empty());
    while i < ls.len()
        invariant
            i <= ls@.len() == lv.len(),
            lv == ls.deep_view(),
            vars.deep_view() == vars_fold(seq![], lv.take(i as int)),
            match desc {
                Some(d) => desc_fold(lv.take(i as int)) == Some(d@),
                None => desc_fold(lv.take(i as int)) is None,
            },
        decreases ls@.len() - i,
    {
        assert(lv.take(i + 1).drop_last() =~= lv.take(i as int));
        assert(lv.take(i + 1).last() == ls@[i as int]@);
        if desc.is_none() {
            desc = regex_capture_one(r#"^\s*desc="([^"]*)""#, ls[i].as_str());
        }
        parse_var_line(ls[i].as_str(), &mut vars);
        i += 1;
    }
    assert(lv.take(i as int) =~= lv);
    (desc, vars)
}

/// One pass of `${k}` replacements, in the order of the list.
pub open spec fn expand_pass(s: Seq<char>, ps: PropsView) -> Seq<char>
    decreases ps.len(),
{
    if ps.len() == 0 {
        s
    } else {
        replace_all(expand_pass(s, ps.drop_last()), "${"@ + ps.last().0 + "}"@, ps.last().1)
    }
}

pub open spec fn expand_iter(s: Seq<char>, ps: PropsView, n: nat) -> Seq<char>
    decreases n,
{
    if n == 0 {
        s
    } else {
        let t = expand_pass(s, ps);
        if t == s {
            s
        } else {
            expand_iter(t, ps, (n - 1) as nat)
        }
    }
}

/// `${var}` references expanded (at most five passes, stopping when a
/// pass changes nothing); `None` when a `${` is left. The variables are
/// applied in the order of the list (a map is walked in no set order).
pub open spec fn expanded(value: Seq<char>, ps: PropsView) -> Option<Seq<char>> {
    let r = expand_iter(value, ps, 5);
    if contains_sub(r, "${"@) {
        None
    } else {
        Some(r)
    }
}

fn expand_pass_exec(s: &String, ps: &Vec<(String, String)>) -> (r: String)
    ensures
        r@ == expand_pass(s@, ps.deep_view()),
{
    proof {
        reveal_strlit("${");
        reveal_strlit("}");
    }
    let ghost dv = ps.deep_view();
    let mut out = s.clone();
    let mut i: usize = 0;
    assert(dv.take(0) =~= Seq::<(Seq<char>, Seq<char>)>::empty());
    while i < ps.len()
        invariant
            i <= ps@.len() == dv.len(),
            dv == ps.deep_view(),
            out@ == expand_pass(s@, dv.take(i as int)),
        decreases ps@.len() - i,
    {
        assert(dv[i as int] == (ps@[i as int].0@, ps@[i as int].1@));
        assert(dv.take(i + 1).drop_last() =~= dv.take(i as int));
        assert(dv.take(i + 1).last() == dv[i as int]);
        proof {
            reveal_strlit("${");
            reveal_strlit("}");
        }
        let mut pat = owned("${");
        push_str(&mut pat, ps[i].0.as_str());
        push_str(&mut pat, "}");
        out = replace_str(out.as_str(), pat.as_str(), ps[i].1.as_str());
        i += 1;
    }
    assert(dv.take(i as int) =~= dv);
    out
}

pub fn expand_vars(value: &str, vars: &Vec<(String, String)>) -> (r: Option<String>)
    ensures
        match r {
            Some(v) => expanded(value@, vars.deep_view()) == Some(v@),
            None => expanded(value@, vars.deep_view()) is None,
        },
{
    let ghost dv = vars.deep_view();
    let mut result = owned(value);
    let mut n: usize = 5;
    let mut done = false;
    while n > 0 && !done
        invariant
            n <= 5,
            dv == vars.deep_view(),
            done ==> expand_pass(result@, dv) == result@,
            expand_iter(result@, dv, n as nat) == expand_iter(value@, dv, 5),
        decreases n + if done { 0usize } else { 1usize },
    {
        let next = expand_pass_exec(&result, vars);
        if str_eq(next.as_str(), result.as_str()) {
            done = true;
        } else {
            result = next;
            n -= 1;
        }
    }
    proof {
        if done {
            assert(n > 0 ==> expand_iter(result@, dv, n as nat) == result@);
        }
        assert(expand_iter(value@, dv, 5) == result@);
    }
    if contains_str(result.as_str(), "${") {
        None
    } else {
        Some(result)
    }
}


// ───────────────────────── processes ─────────────────────────

/// `s.parse::<i32>().ok()`.
pub open spec fn parse_i32(s: Seq<char>) -> Option<i32> {
    match parse_signed64(s) {
        Some(n) => if i32::MIN <= n <= i32::MAX {
            Some(n as i32)
        } else {
            None
        },
        None => None,
    }
}

fn parse_i32_exec(s: &str) -> (r: Option<i32>)
    ensures
        r == parse_i32(s@),
{
    match crate::num::parse_i64(s) {
        Some(n) => if -2147483648 <= n && n <= 2147483647 {
            Some(n as i32)
        } else {
            None
        },
        None => None,
    }
}

/// Index of the first whitespace character.
pub open spec fn find_ws(s: Seq<char>) -> Option<int>
    decreases s.len(),
{
    if s.len() == 0 {
        None
    } else if is_ws(s[0]) {
        Some(0)
    } else {
        match find_ws(s.drop_first()) {
            Some(i) => Some(i + 1),
            None => None,
        }
    }
}

proof fn lemma_find_ws(s: Seq<char>, i: int)
    requires
        0 <= i <= s.len(),
        forall|k: int| 0 <= k < i ==> !is_ws(s[k]),
        i == s.len() || is_ws(s[i]),
    ensures
        find_ws(s) == if i == s.len() {
            None::<int>
        } else {
            Some(i)
        },
    decreases i,
{
    if i > 0 {
        let t = s.drop_first();
        assert forall|k: int| 0 <= k < i - 1 implies !is_ws(t[k]) by {
            assert(t[k] == s[k + 1]);
        }
        if i < s.len() {
            assert(t[i - 1] == s[i]);
        }
        lemma_find_ws(t, i - 1);
    }
}

/// A `ps -o pid= -o command=` line: the pid (positive) and the command.
pub open spec fn ps_row(line: Seq<char>) -> Option<(i32, Seq<char>)> {
    let l = trim_start(line);
    match find_ws(l) {
        None => None,
        Some(w) => match parse_i32(l.take(w)) {
            None => None,
            Some(pid) => {
                let cmd = trim(l.skip(w));
                if pid > 0 && cmd.len() > 0 {
                    Some((pid, cmd))
                } else {
                    None
                }
            },
        },
    }
}

pub open spec fn find_pid(ps: Seq<(i32, Seq<char>)>, pid: i32) -> Option<int>
    decreases ps.len(),
{
    if ps.len() == 0 {
        None
    } else if ps[0].0 == pid {
        Some(0)
    } else {
        match find_pid(ps.drop_first(), pid) {
            Some(i) => Some(i + 1),
            None => None,
        }
    }
}

proof fn lemma_find_pid(ps: Seq<(i32, Seq<char>)>, pid: i32, i: int)
    requires
        0 <= i <= ps.len(),
        forall|k: int| 0 <= k < i ==> ps[k].0 != pid,
        i == ps.len() || ps[i].0 == pid,
    ensures
        find_pid(ps, pid) == if i == ps.len() {
            None::<int>
        } else {
            Some(i)
        },
    decreases i,
{
    if i > 0 {
        let t = ps.drop_first();
        assert forall|k: int| 0 <= k < i - 1 implies t[k].0 != pid by {
            assert(t[k] == ps[k + 1]);
        }
        if i < ps.len() {
            assert(t[i - 1] == ps[i]);
        }
        lemma_find_pid(t, pid, i - 1);
    }
}

/// The process table: one command per pid (a later line for the same pid
/// replaces the earlier one).
pub open spec fn ps_fold(ls: Seq<Seq<char>>) -> Seq<(i32, Seq<char>)>
    decreases ls.len(),
{
    if ls.len() == 0 {
        seq![]
    } else {
        let t = ps_fold(ls.drop_last());
        match ps_row(ls.last()) {
            None => t,
            Some(row) => match find_pid(t, row.0) {
                Some(i) => t.update(i, row),
                None => t.push(row),
            },
        }
    }
}

pub open spec fn procs_view(ps: Seq<(i32, String)>) -> Seq<(i32, Seq<char>)> {
    ps.map_values(|p: (i32, String)| (p.0, p.1@))
}

fn ps_row_exec(line: &str) -> (r: Option<(i32, String)>)
    ensures
        match r {
            Some(p) => ps_row(line@) == Some((p.0, p.1@)),
            None => ps_row(line@) is None,
        },
{
    let l = trim_start_str(line);
    let v = chars_of(l.as_str());
    let n = v.len();
    let mut w: usize = 0;
    while w < n && !is_ws_char(v[w])
        invariant
            w <= n == v@.len(),
            v@ == l@,
            forall|k: int| 0 <= k < w ==> !is_ws(v@[k]),
        decreases n - w,
    {
        w += 1;
    }
    proof {
        lemma_find_ws(l@, w as int);
    }
    if w == n {
        return None;
    }
    let head = string_from(&v, 0, w);
    assert(head@ =~= l@.take(w as int));
    match parse_i32_exec(head.as_str()) {
        None => None,
        Some(pid) => {
            let tail = string_from(&v, w, n);
            assert(tail@ =~= l@.skip(w as int));
            let cmd = trim_str(tail.as_str());
            if pid > 0 && !cmd.as_str().is_empty() {
                Some((pid, cmd))
            } else {
                None
            }
        },
    }
}

fn pid_index(ps: &Vec<(i32, String)>, pid: i32) -> (r: Option<usize>)
    ensures
        match r {
            Some(i) => find_pid(procs_view(ps@), pid) == Some(i as int) && i < ps@.len(),
            None => find_pid(procs_view(ps@), pid) is None,
        },
{
    let ghost pv = procs_view(ps@);
    let mut j: usize = 0;
    while j < ps.len()
        invariant
            j <= ps@.len() == pv.len(),
            pv == procs_view(ps@),
            forall|k: int| 0 <= k < j ==> pv[k].0 != pid,
        decreases ps@.len() - j,
    {
        if ps[j].0 == pid {
            proof {
                lemma_find_pid(pv, pid, j as int);
            }
            return Some(j);
        }
        j += 1;
    }
    proof {
        lemma_find_pid(pv, pid, j as int);
    }
    None
}

/// The running processes of `ps -ax -o pid= -o command=` output.
pub fn process_table(raw: &str) -> (r: Vec<(i32, String)>)
    ensures
        procs_view(r@) == ps_fold(lines(raw@)),
{
    let ls = split_lines(raw);
    let ghost lv = ls.deep_view();
    let mut out: Vec<(i32, String)> = Vec::new();
    let mut i: usize = 0;
    assert(lv.take(0) =~= Seq::<Seq<char>>::empty());
    assert(procs_view(out@) =~= Seq::<(i32, Seq<char>)>::empty());
    while i < ls.len()
        invariant
            i <= ls@.len() == lv.len(),
            lv == ls.deep_view(),
            procs_view(out@) == ps_fold(lv.take(i as int)),
        decreases ls@.len() - i,
    {
        assert(lv.take(i + 1).drop_last() =~= lv.take(i as int));
        assert(lv.take(i + 1).last() == ls@[i as int]@);
        match ps_row_exec(ls[i].as_str()) {
            None => {},
            Some(row) => {
                let ghost o = out@;
                let ghost rv = (row.0, row.1@);
                match pid_index(&out, row.0) {
                    Some(k) => {
                        let _old = out.remove(k);
                        out.insert(k, row);
                        assert(procs_view(out@) =~= procs_view(o).update(k as int, rv));
                    },
                    None => {
                        out.push(row);
                        assert(procs_view(out@) =~= procs_view(o).push(rv));
                    },
                }
            },
        }
        i += 1;
    }
    assert(lv.take(i as int) =~= lv);
    out
}

/// A pid file's first word as a pid: whether that process runs, or `None`
/// when the file could not be read or holds no pid.
pub open spec fn pidfile_running(content: Option<Seq<char>>, procs: Seq<(i32, Seq<char>)>) -> Option<bool> {
    match content {
        None => None,
        Some(c) => {
            let ws = words(trim(c));
            if ws.len() == 0 {
                None
            } else {
                match parse_i32(ws[0]) {
                    None => None,
                    Some(pid) => Some(find_pid(procs, pid) is Some),
                }
            }
        },
    }
}

pub fn check_pidfile(content: Option<&str>, procs: &Vec<(i32, String)>) -> (r: Option<bool>)
    ensures
        r == pidfile_running(
            match content {
                Some(c) => Some(c@),
                None => None,
            },
            procs_view(procs@),
        ),
{
    match content {
        None => None,
        Some(c) => {
            let t = trim_str(c);
            let ws = split_ws(t.as_str());
            if ws.len() == 0 {
                return None;
            }
            assert(ws.deep_view()[0] == ws@[0]@);
            match parse_i32_exec(ws[0].as_str()) {
                None => None,
                Some(pid) => Some(pid_index(procs, pid).is_some()),
            }
        },
    }
}

/// A command's executable (its first word) is the process name, or, for a
/// bare name, has it as its file name.
pub open spec fn runs_as(cmd: Seq<char>, pn: Seq<char>) -> bool {
    let ws = words(cmd);
    let exe = if ws.len() > 0 {
        ws[0]
    } else {
        seq![]
    };
    exe == pn || (!pn.contains('/') && path_file_name(exe) == Some(pn))
}

pub open spec fn procname_running(procname: Seq<char>, procs: Seq<(i32, Seq<char>)>) -> bool {
    exists|i: int| 0 <= i < procs.len() && runs_as(#[trigger] procs[i].1, trim(procname))
}

pub fn check_procname(procname: &str, procs: &Vec<(i32, String)>) -> (r: bool)
    ensures
        r == procname_running(procname@, procs_view(procs@)),
{
    let pn = trim_str(procname);
    let ghost pv = procs_view(procs@);
    let bare = !contains_char(pn.as_str(), '/');
    let mut i: usize = 0;
    while i < procs.len()
        invariant
            i <= procs@.len() == pv.len(),
            pv == procs_view(procs@),
            pn@ == trim(procname@),
            bare == !pn@.contains('/'),
            forall|k: int| 0 <= k < i ==> !runs_as(#[trigger] pv[k].1, pn@),
        decreases procs@.len() - i,
    {
        assert(pv[i as int].1 == procs@[i as int].1@);
        let ws = split_ws(procs[i].1.as_str());
        let exe = if ws.len() > 0 {
            assert(ws.deep_view()[0] == ws@[0]@);
            ws[0].clone()
        } else {
            String::new()
        };
        let mut hit = str_eq(exe.as_str(), pn.as_str());
        if !hit && bare {
            hit = match file_name_of(exe.as_str()) {
                Some(f) => str_eq(f.as_str(), pn.as_str()),
                None => false,
            };
        }
        if hit {
            assert(runs_as(pv[i as int].1, pn@));
            return true;
        }
        i += 1;
    }
    false
}

/// The expanded pid file of a script, if it names one.
pub fn pidfile_path(vars: &Vec<(String, String)>) -> (r: Option<String>)
    ensures
        match r {
            Some(p) => var_get(vars.deep_view(), "pidfile"@) matches Some(raw) && expanded(
                raw,
                vars.deep_view(),
            ) == Some(p@),
            None => match var_get(vars.deep_view(), "pidfile"@) {
                Some(raw) => expanded(raw, vars.deep_view()) is None,
                None => true,
            },
        },
{
    match var_lookup(vars, "pidfile") {
        Some(raw) => expand_vars(raw.as_str(), vars),
        None => None,
    }
}

/// Whether a service runs, from its pid file (`pid_check`: what reading
/// `pidfile_path` gave, `None` if nothing) or else its process name (or
/// command) looked up in the process table; `None` when neither decides.
pub open spec fn fast_check(ps: PropsView, procs: Seq<(i32, Seq<char>)>, pid_check: Option<bool>) -> Option<bool> {
    match pid_check {
        Some(r) => Some(r),
        None => {
            let raw = match var_get(ps, "procname"@) {
                Some(p) => Some(p),
                None => var_get(ps, "command"@),
            };
            match raw {
                None => None,
                Some(v) => match expanded(v, ps) {
                    None => None,
                    Some(pn) => if has_space(pn) {
                        None
                    } else {
                        Some(procname_running(pn, procs))
                    },
                },
            }
        },
    }
}

/// Some character of `s` is whitespace.
pub open spec fn has_space(s: Seq<char>) -> bool {
    exists|k: int| 0 <= k < s.len() && is_ws(#[trigger] s[k])
}

fn has_ws(s: &str) -> (b: bool)
    ensures
        b == has_space(s@),
{
    let v = chars_of(s);
    let mut i: usize = 0;
    while i < v.len()
        invariant
            i <= v@.len(),
            v@ == s@,
            forall|k: int| 0 <= k < i ==> !is_ws(#[trigger] s@[k]),
        decreases v@.len() - i,
    {
        if is_ws_char(v[i]) {
            assert(is_ws(s@[i as int]));
            return true;
        }
        i += 1;
    }
    false
}

pub fn try_fast_check(vars: &Vec<(String, String)>, procs: &Vec<(i32, String)>, pid_check: Option<bool>) -> (r: Option<bool>)
    ensures
        r == fast_check(vars.deep_view(), procs_view(procs@), pid_check),
{
    match pid_check {
        Some(b) => Some(b),
        None => {
            let raw = match var_lookup(vars, "procname") {
                Some(p) => Some(p),
                None => var_lookup(vars, "command"),
            };
            match raw {
                None => None,
                Some(v) => match expand_vars(v.as_str(), vars) {
                    None => None,
                    Some(pn) => if has_ws(pn.as_str()) {
                        None
                    } else {
                        Some(check_procname(pn.as_str(), procs))
                    },
                },
            }
        },
    }
}

/// The rc.conf variable that enables a service: the script's `rcvar`
/// (expanded), else `<name>_enable` with the script's `name` (expanded) or
/// the file name.
pub open spec fn rcvar_of(filename: Seq<char>, ps: PropsView) -> Seq<char> {
    match var_get(ps, "rcvar"@) {
        Some(raw) if expanded(raw, ps) is Some => expanded(raw, ps)->Some_0,
        _ => {
            let n = match var_get(ps, "name"@) {
                Some(n) => match expanded(n, ps) {
                    Some(e) => e,
                    None => filename,
                },
                None => filename,
            };
            n + "_enable"@
        },
    }
}

pub fn resolve_rcvar(filename: &str, vars: &Vec<(String, String)>) -> (r: String)
    ensures
        r@ == rcvar_of(filename@, vars.deep_view()),
{
    match var_lookup(vars, "rcvar") {
        Some(raw) => match expand_vars(raw.as_str(), vars) {
            Some(e) => {
                return e;
            },
            None => {},
        },
        None => {},
    }
    let mut n = match var_lookup(vars, "name") {
        Some(nm) => match expand_vars(nm.as_str(), vars) {
            Some(e) => e,
            None => owned(filename),
        },
        None => owned(filename),
    };
    push_str(&mut n, "_enable");
    n
}

/// A service is enabled when its rcvar is set to `YES` (in any case).
pub fn is_enabled(rcconf: &Vec<(String, String)>, rcvar: &str) -> (b: bool)
    ensures
        b == (var_get(rcconf.deep_view(), rcvar@) matches Some(v) && eq_ignore_case(v, "YES"@)),
{
    match var_lookup(rcconf, rcvar) {
        Some(v) => eq_ignore_case_str(v.as_str(), "YES"),
        None => false,
    }
}

/// Where a service's script lives.
pub fn service_source(script_path: Option<&str>) -> (r: &'static str)
    ensures
        r@ == match script_path {
            Some(p) => if starts_with(p@, "/etc/rc.d/"@) {
                "system"@
            } else {
                "local"@
            },
            None => "unknown"@,
        },
{
    match script_path {
        Some(p) => if starts_with_str(p, "/etc/rc.d/") {
            "system"
        } else {
            "local"
        },
        None => "unknown",
    }
}


// ───────────────────────── the service list ─────────────────────────

/// Dependency markers that are not services.
pub open spec fn is_pseudo(n: Seq<char>) -> bool {
    n == "DAEMON"@ || n == "FILESYSTEMS"@ || n == "LOGIN"@ || n == "NETWORKING"@ || n
        == "SERVERS"@
}

/// The names `service -l` lists, trimmed, blank lines and markers left out.
pub open spec fn listed_names(out: Seq<char>) -> Seq<Seq<char>> {
    lines(out).map_values(|l: Seq<char>| trim(l)).filter(|l: Seq<char>| l.len() > 0 && !is_pseudo(l))
}

fn listed_names_exec(out: &str) -> (r: Vec<String>)
    ensures
        r.deep_view() == listed_names(out@),
{
    let ls = split_lines(out);
    let ghost lv = ls.deep_view();
    let ghost tv = lv.map_values(|l: Seq<char>| trim(l));
    let ghost keep = |l: Seq<char>| l.len() > 0 && !is_pseudo(l);
    let mut r: Vec<String> = Vec::new();
    let mut i: usize = 0;
    assert(tv.take(0).filter(keep) =~= Seq::<Seq<char>>::empty());
    while i < ls.len()
        invariant
            i <= ls@.len() == lv.len() == tv.len(),
            lv == ls.deep_view(),
            tv == lv.map_values(|l: Seq<char>| trim(l)),
            keep == (|l: Seq<char>| l.len() > 0 && !is_pseudo(l)),
            r.deep_view() == tv.take(i as int).filter(keep),
        decreases ls@.len() - i,
    {
        let t = trim_str(ls[i].as_str());
        assert(t@ == tv[i as int]);
        assert(tv.take(i + 1) =~= tv.take(i as int).push(tv[i as int]));
        proof {
            tv.take(i as int).lemma_filter_push(tv[i as int], keep);
        }
        let pseudo = str_eq(t.as_str(), "DAEMON") || str_eq(t.as_str(), "FILESYSTEMS") || str_eq(
            t.as_str(),
            "LOGIN",
        ) || str_eq(t.as_str(), "NETWORKING") || str_eq(t.as_str(), "SERVERS");
        if !t.as_str().is_empty() && !pseudo {
            let ghost o = r.deep_view();
            r.push(t);
            assert(r.deep_view() =~= o.push(tv[i as int]));
        }
        i += 1;
    }
    assert(tv.take(i as int) =~= tv);
    r
}

/// The services of `service -l` output: sorted, each once, markers left out.
pub fn service_names(list_output: &str) -> (r: Vec<String>)
    ensures
        sorted_strs(r.deep_view()),
        r.deep_view().no_duplicates(),
        forall|x: Seq<char>| r.deep_view().contains(x) <==> listed_names(list_output@).contains(x),
{
    broadcast use vstd::seq_lib::group_to_multiset_ensures;

    let names = listed_names_exec(list_output);
    let sorted = sort_strings(&names);
    let ghost sv = sorted.deep_view();
    assert forall|x: Seq<char>| sv.contains(x) <==> names.deep_view().contains(x) by {
        assert(sv.to_multiset().count(x) == names.deep_view().to_multiset().count(x));
    }
    let mut out: Vec<String> = Vec::new();
    let mut i: usize = 0;
    assert(out.deep_view() =~= Seq::<Seq<char>>::empty());
    while i < sorted.len()
        invariant
            i <= sorted@.len() == sv.len(),
            sv == sorted.deep_view(),
            sorted_strs(sv),
            sorted_strs(out.deep_view()),
            out.deep_view().no_duplicates(),
            forall|x: Seq<char>| out.deep_view().contains(x) <==> sv.take(i as int).contains(x),
            i > 0 ==> out.deep_view().len() > 0 && out.deep_view().last() == sv[i - 1],
            i == 0 ==> out.deep_view().len() == 0,
        decreases sorted@.len() - i,
    {
        let ghost o = out.deep_view();
        let x = &sorted[i];
        assert(sv[i as int] == x@);
        assert(sv.take(i + 1) =~= sv.take(i as int).push(x@));
        let dup = out.len() > 0 && string_eq_last(&out, x);
        if !dup {
            proof {
                if i > 0 {
                    assert(str_le(sv[i - 1], sv[i as int]));
                    assert(o.last() != x@);
                    assert forall|a: int| 0 <= a < o.len() implies str_lt(#[trigger] o[a], x@) by {
                        assert(str_le(o[a], o.last()) || a == o.len() - 1) by {
                            if a < o.len() - 1 {
                                assert(str_le(o[a], o[o.len() - 1]));
                            }
                        }
                        lemma_str_le_trans(o[a], o.last(), x@);
                        if o[a] == x@ {
                            assert(str_le(x@, o.last()));
                            assert(str_lt(o.last(), x@));
                            if str_lt(x@, o.last()) {
                                lemma_str_lt_trans(x@, o.last(), x@);
                            }
                            lemma_str_lt_irreflexive(x@);
                        }
                    }
                }
            }
            out.push(x.clone());
            assert(out.deep_view() =~= o.push(x@));
            proof {
                assert forall|a: int, b: int| 0 <= a < b < out.deep_view().len() implies str_le(
                    #[trigger] out.deep_view()[a],
                    #[trigger] out.deep_view()[b],
                ) by {
                    if b == o.len() {
                        if i > 0 {
                            assert(str_lt(o[a], x@));
                        }
                    } else {
                        assert(out.deep_view()[a] == o[a] && out.deep_view()[b] == o[b]);
                    }
                }
                assert forall|a: int, b: int| 0 <= a < out.deep_view().len() && 0 <= b
                    < out.deep_view().len() && a != b implies out.deep_view()[a]
                    != out.deep_view()[b] by {
                    if a == o.len() && i > 0 {
                        assert(str_lt(o[b], x@));
                        lemma_str_lt_irreflexive(x@);
                    } else if b == o.len() && i > 0 {
                        assert(str_lt(o[a], x@));
                        lemma_str_lt_irreflexive(x@);
                    }
                }
                assert forall|y: Seq<char>| out.deep_view().contains(y) <==> sv.take(i + 1).contains(y) by {
                    if out.deep_view().contains(y) {
                        let k = choose|k: int| 0 <= k < out.deep_view().len() && #[trigger] out.deep_view()[k] == y;
                        if k < o.len() {
                            assert(o[k] == y);
                            assert(o.contains(y));
                            assert(sv.take(i as int).contains(y));
                            let j = choose|j: int| 0 <= j < i && #[trigger] sv.take(i as int)[j] == y;
                            assert(sv.take(i + 1)[j] == y);
                        } else {
                            assert(sv.take(i + 1)[i as int] == y);
                        }
                    }
                    if sv.take(i + 1).contains(y) {
                        let j = choose|j: int| 0 <= j <= i && #[trigger] sv.take(i + 1)[j] == y;
                        if j < i {
                            assert(sv.take(i as int)[j] == y);
                            assert(o.contains(y));
                            let k = choose|k: int| 0 <= k < o.len() && #[trigger] o[k] == y;
                            assert(out.deep_view()[k] == y);
                        } else {
                            assert(out.deep_view()[o.len() as int] == y);
                        }
                    }
                }
            }
        } else {
            proof {
                assert forall|y: Seq<char>| out.deep_view().contains(y) <==> sv.take(i + 1).contains(y) by {
                    if sv.take(i + 1).contains(y) {
                        let j = choose|j: int| 0 <= j <= i && #[trigger] sv.take(i + 1)[j] == y;
                        if j < i {
                            assert(sv.take(i as int)[j] == y);
                        } else {
                            assert(o[o.len() - 1] == y);
                        }
                    }
                    if out.deep_view().contains(y) {
                        assert(sv.take(i as int).contains(y));
                        let j = choose|j: int| 0 <= j < i && #[trigger] sv.take(i as int)[j] == y;
                        assert(sv.take(i + 1)[j] == y);
                    }
                }
            }
        }
        i += 1;
    }
    assert(sv.take(i as int) =~= sv);
    out
}

fn string_eq_last(v: &Vec<String>, x: &String) -> (b: bool)
    requires
        v@.len() > 0,
    ensures
        b == (v.deep_view().last() == x@),
{
    let n = v.len();
    assert(v.deep_view()[n - 1] == v@[n - 1]@);
    crate::text::string_eq(&v[n - 1], x)
}


/// List order: enabled services first, then by name.
pub open spec fn svc_lt(a: ServiceInfo, b: ServiceInfo) -> bool {
    (a.enabled && !b.enabled) || (a.enabled == b.enabled && str_lt(a.name@, b.name@))
}

pub open spec fn svc_le(a: ServiceInfo, b: ServiceInfo) -> bool {
    svc_lt(a, b) || (a.enabled == b.enabled && a.name@ == b.name@)
}

pub open spec fn svc_sorted(s: Seq<ServiceInfo>) -> bool {
    forall|i: int, j: int| 0 <= i < j < s.len() ==> svc_le(#[trigger] s[i], #[trigger] s[j])
}

proof fn lemma_svc_le_trans(a: ServiceInfo, b: ServiceInfo, c: ServiceInfo)
    requires
        svc_le(a, b),
        svc_le(b, c),
    ensures
        svc_le(a, c),
{
    if a.enabled == b.enabled && b.enabled == c.enabled {
        lemma_str_le_trans(a.name@, b.name@, c.name@);
    }
}

proof fn lemma_svc_total(a: ServiceInfo, b: ServiceInfo)
    ensures
        svc_lt(a, b) || svc_le(b, a),
{
    lemma_str_lt_total(a.name@, b.name@);
}

proof fn lemma_insert_sorted_svc(s: Seq<ServiceInfo>, k: int, x: ServiceInfo)
    requires
        svc_sorted(s),
        0 <= k <= s.len(),
        forall|a: int| 0 <= a < k ==> svc_le(#[trigger] s[a], x),
        k < s.len() ==> svc_lt(x, s[k]),
    ensures
        svc_sorted(s.insert(k, x)),
{
    let t = s.insert(k, x);
    assert forall|i: int, j: int| 0 <= i < j < t.len() implies svc_le(#[trigger] t[i], #[trigger] t[j]) by {
        if j < k {
            assert(t[i] == s[i] && t[j] == s[j]);
        } else if j == k {
            assert(t[i] == s[i] && t[j] == x);
        } else if i < k {
            assert(t[i] == s[i] && t[j] == s[j - 1]);
            assert(svc_le(s[k], s[j - 1]) || k == j - 1);
            lemma_svc_le_trans(x, s[k], s[j - 1]);
            lemma_svc_le_trans(s[i], x, s[j - 1]);
        } else if i == k {
            assert(t[i] == x && t[j] == s[j - 1]);
            if j - 1 > k {
                assert(svc_le(s[k], s[j - 1]));
            }
            lemma_svc_le_trans(x, s[k], s[j - 1]);
        } else {
            assert(t[i] == s[i - 1] && t[j] == s[j - 1]);
        }
    }
}

fn svc_lt_exec(a: &ServiceInfo, b: &ServiceInfo) -> (r: bool)
    ensures
        r == svc_lt(*a, *b),
{
    (a.enabled && !b.enabled) || (a.enabled == b.enabled && string_lt(&a.name, &b.name))
}

/// The services, enabled ones first, each group by name.
pub fn sort_services(v: Vec<ServiceInfo>) -> (r: Vec<ServiceInfo>)
    ensures
        svc_sorted(r@),
        r@.to_multiset() == v@.to_multiset(),
{
    broadcast use vstd::seq_lib::group_to_multiset_ensures;

    let ghost v0 = v@;
    let mut src = v;
    let mut out: Vec<ServiceInfo> = Vec::new();
    assert(v0.take(v0.len() as int) =~= v0);
    assert(v0.skip(v0.len() as int) =~= Seq::<ServiceInfo>::empty());
    while src.len() > 0
        invariant
            src@.len() <= v0.len(),
            src@ == v0.take(src@.len() as int),
            svc_sorted(out@),
            out@.to_multiset() == v0.skip(src@.len() as int).to_multiset(),
        decreases src@.len(),
    {
        let ghost n = src@.len();
        let x = src.pop().unwrap();
        assert(x == v0[n - 1]);
        assert(src@ =~= v0.take(n - 1));
        let mut k: usize = 0;
        while k < out.len() && !svc_lt_exec(&x, &out[k])
            invariant
                k <= out@.len(),
                forall|a: int| 0 <= a < k ==> svc_le(#[trigger] out@[a], x),
            decreases out@.len() - k,
        {
            proof {
                lemma_svc_total(x, out@[k as int]);
            }
            k += 1;
        }
        proof {
            lemma_insert_sorted_svc(out@, k as int, x);
        }
        let ghost o0 = out@;
        out.insert(k, x);
        proof {
            vstd::seq_lib::to_multiset_insert(o0, k as int, x);
            assert(v0.skip(n - 1) =~= v0.skip(n as int).insert(0, x));
            vstd::seq_lib::to_multiset_insert(v0.skip(n as int), 0, x);
        }
    }
    assert(v0.skip(0) =~= v0);
    out
}

} // verus!
