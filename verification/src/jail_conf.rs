//! Reading and writing `/etc/jail.conf`.
use vstd::prelude::*;
use crate::error::{ApiError, ApiResult, is_not_found};
use crate::smb::{PropsView, last_value, or_default, prop_get};
use crate::text::{
    lemma_sorted_unique,
    before_char, before_char_str, chars_of, contains_char, contains_str, contains_sub, ends_with,
    ends_with_str, find_char, find_char_vec, join, join_strings, lines, owned, push_str, str_eq, replace_all, replace_str, split_lines,
    sort_strings, sorted_strs, starts_with, starts_with_str, string_eq, string_from, strip_trailing, strip_trailing_str, trim, trim_str,
};

verus! {

/// A jail block of `jail.conf`: its name and its parameters (the global ones
/// first, then its own), with `${name}`-style variables substituted. A later
/// pair overrides an earlier one with the same key.
#[derive(Debug, Clone)]
pub struct ParsedJail {
    pub name: String,
    pub params: Vec<(String, String)>,
}

// ───────────────────────── one parameter ─────────────────────────

/// A value in double quotes loses them.
pub open spec fn unquote(v: Seq<char>) -> Seq<char> {
    if starts_with(v, "\""@) && ends_with(v, "\""@) && v.len() >= 2 {
        v.subrange(1, v.len() - 1)
    } else {
        v
    }
}

/// `key = value;`, `key += value;` or a bare `key;` (which means `true`).
pub open spec fn param_of(line: Seq<char>) -> (Seq<char>, Seq<char>) {
    let l = trim(strip_trailing(line, ';'));
    match find_char(l, '=') {
        Some(eq) => (trim(strip_trailing(trim(l.take(eq)), '+')), unquote(trim(l.skip(eq + 1)))),
        None => (l, "true"@),
    }
}

fn unquote_str(v: &str) -> (r: String)
    ensures
        r@ == unquote(v@),
{
    if starts_with_str(v, "\"") && ends_with_str(v, "\"") {
        let c = chars_of(v);
        if c.len() >= 2 {
            return string_from(&c, 1, c.len() - 1);
        }
    }
    owned(v)
}

/// One parameter line read into its key and value; every line gives one.
pub fn parse_param(line: &str) -> (r: Option<(String, String)>)
    ensures
        r matches Some((k, v)) && k@ == param_of(line@).0 && v@ == param_of(line@).1,
{
    let a = strip_trailing_str(line, ';');
    let l = trim_str(a.as_str());
    let v = chars_of(l.as_str());
    let n = v.len();
    match find_char_vec(&v, '=') {
        Some(eq) => {
            assert(eq < n);
            let head = string_from(&v, 0, eq);
            assert(head@ =~= l@.take(eq as int));
            let k1 = trim_str(head.as_str());
            let k2 = strip_trailing_str(k1.as_str(), '+');
            let key = trim_str(k2.as_str());
            let tail = string_from(&v, eq + 1, n);
            assert(tail@ =~= l@.skip(eq + 1));
            let val = trim_str(tail.as_str());
            let value = unquote_str(val.as_str());
            Some((key, value))
        },
        None => Some((l, owned("true"))),
    }
}

// ───────────────────────── variables ─────────────────────────

/// `${name}`, `${path}`, `${host.hostname}` and then `$name`, replaced in
/// that order.
pub open spec fn subst(v: Seq<char>, name: Seq<char>, path: Seq<char>, host: Seq<char>) -> Seq<
    char,
> {
    replace_all(
        replace_all(
            replace_all(replace_all(v, "${name}"@, name), "${path}"@, path),
            "${host.hostname}"@,
            host,
        ),
        "$name"@,
        name,
    )
}

/// The jail's path (empty if unset) and hostname (its name if unset).
pub open spec fn path_of(ps: PropsView) -> Seq<char> {
    or_default(last_value(ps, "path"@), seq![])
}

pub open spec fn host_of(ps: PropsView, name: Seq<char>) -> Seq<char> {
    or_default(last_value(ps, "host.hostname"@), name)
}

/// Every value of `ps` with the variables of jail `name` substituted.
pub open spec fn subst_all(ps: PropsView, name: Seq<char>) -> PropsView {
    ps.map_values(
        |p: (Seq<char>, Seq<char>)| (p.0, subst(p.1, name, path_of(ps), host_of(ps, name))),
    )
}

fn subst_one(v: &str, name: &str, path: &str, host: &str) -> (r: String)
    ensures
        r@ == subst(v@, name@, path@, host@),
{
    proof {
        reveal_strlit("${name}");
        reveal_strlit("${path}");
        reveal_strlit("${host.hostname}");
        reveal_strlit("$name");
    }
    let a = replace_str(v, "${name}", name);
    let b = replace_str(a.as_str(), "${path}", path);
    let c = replace_str(b.as_str(), "${host.hostname}", host);
    replace_str(c.as_str(), "$name", name)
}

/// Replaces `${name}`, `${path}`, `${host.hostname}` and `$name` in every
/// value; path and hostname are read before any value changes.
pub fn substitute_vars(params: &mut Vec<(String, String)>, name: &str)
    ensures
        final(params).deep_view() == subst_all(old(params).deep_view(), name@),
{
    let ghost dv = params.deep_view();
    let path = match prop_get(params, "path") {
        Some(p) => p,
        None => String::new(),
    };
    let host = match prop_get(params, "host.hostname") {
        Some(h) => h,
        None => owned(name),
    };
    assert(path@ == path_of(dv));
    assert(host@ == host_of(dv, name@));
    let n = params.len();
    let mut out: Vec<(String, String)> = Vec::new();
    let mut i: usize = 0;
    while i < n
        invariant
            i <= n == params@.len() == dv.len(),
            dv == params.deep_view(),
            path@ == path_of(dv),
            host@ == host_of(dv, name@),
            out.deep_view() == subst_all(dv, name@).take(i as int),
        decreases n - i,
    {
        let ghost before = out.deep_view();
        let k = params[i].0.clone();
        let v = subst_one(params[i].1.as_str(), name, path.as_str(), host.as_str());
        assert(dv[i as int] == (params@[i as int].0@, params@[i as int].1@));
        out.push((k, v));
        assert(out.deep_view() =~= before.push((k@, v@)));
        assert(subst_all(dv, name@).take(i + 1) =~= subst_all(dv, name@).take(i as int).push(
            subst_all(dv, name@)[i as int],
        ));
        i += 1;
    }
    assert(subst_all(dv, name@).take(n as int) =~= subst_all(dv, name@));
    *params = out;
}

// ───────────────────────── scanning the file ─────────────────────────

/// What a scan of `jail.conf` has seen so far: whether it is inside a
/// `/* */` comment, the block being read (if any), the global parameters
/// and the closed blocks, each with the globals seen before it in front.
pub struct ConfScan {
    pub in_comment: bool,
    pub open: bool,
    pub cur_name: Seq<char>,
    pub cur: PropsView,
    pub globals: PropsView,
    pub entries: Seq<(Seq<char>, PropsView)>,
}

pub open spec fn scan_start() -> ConfScan {
    ConfScan {
        in_comment: false,
        open: false,
        cur_name: seq![],
        cur: seq![],
        globals: seq![],
        entries: seq![],
    }
}

/// The name before the `{` of a block header.
pub open spec fn block_name(l: Seq<char>) -> Seq<char> {
    trim(strip_trailing(l, '{'))
}

pub open spec fn is_block_name(n: Seq<char>) -> bool {
    !n.contains('=') && !n.contains(';') && n.len() > 0
}

/// A line with its `#` comment cut off, trimmed.
pub open spec fn uncommented(t: Seq<char>) -> Seq<char> {
    trim(before_char(t, '#'))
}

/// The scan after one more line.
pub open spec fn conf_step(st: ConfScan, raw: Seq<char>) -> ConfScan {
    let t = trim(raw);
    let l = uncommented(t);
    if st.in_comment {
        if contains_sub(t, "*/"@) {
            ConfScan {
                in_comment: false,
                open: st.open,
                cur_name: st.cur_name,
                cur: st.cur,
                globals: st.globals,
                entries: st.entries,
            }
        } else {
            st
        }
    } else if starts_with(t, "/*"@) {
        if contains_sub(t, "*/"@) {
            st
        } else {
            ConfScan {
                in_comment: true,
                open: st.open,
                cur_name: st.cur_name,
                cur: st.cur,
                globals: st.globals,
                entries: st.entries,
            }
        }
    } else if l.len() == 0 {
        st
    } else if ends_with(l, "{"@) {
        if is_block_name(block_name(l)) {
            ConfScan {
                in_comment: false,
                open: true,
                cur_name: block_name(l),
                cur: seq![],
                globals: st.globals,
                entries: st.entries,
            }
        } else {
            st
        }
    } else if starts_with(l, "}"@) {
        if st.open {
            ConfScan {
                in_comment: false,
                open: false,
                cur_name: st.cur_name,
                cur: st.cur,
                globals: st.globals,
                entries: st.entries.push((st.cur_name, st.globals + st.cur)),
            }
        } else {
            st
        }
    } else if st.open {
        ConfScan {
            in_comment: false,
            open: true,
            cur_name: st.cur_name,
            cur: st.cur.push(param_of(l)),
            globals: st.globals,
            entries: st.entries,
        }
    } else {
        ConfScan {
            in_comment: false,
            open: false,
            cur_name: st.cur_name,
            cur: st.cur,
            globals: st.globals.push(param_of(l)),
            entries: st.entries,
        }
    }
}

pub open spec fn conf_scan(ls: Seq<Seq<char>>) -> ConfScan
    decreases ls.len(),
{
    if ls.len() == 0 {
        scan_start()
    } else {
        conf_step(conf_scan(ls.drop_last()), ls.last())
    }
}

/// The jails of a `jail.conf` text, in order, variables substituted.
pub open spec fn parsed_jails(content: Seq<char>) -> Seq<(Seq<char>, PropsView)> {
    conf_scan(lines(content)).entries.map_values(
        |e: (Seq<char>, PropsView)| (e.0, subst_all(e.1, e.0)),
    )
}

pub open spec fn jail_view(j: ParsedJail) -> (Seq<char>, PropsView) {
    (j.name@, j.params.deep_view())
}

pub open spec fn jails_view(js: Seq<ParsedJail>) -> Seq<(Seq<char>, PropsView)> {
    js.map_values(|j: ParsedJail| jail_view(j))
}

struct Scan {
    in_comment: bool,
    open: bool,
    cur_name: String,
    cur: Vec<(String, String)>,
    globals: Vec<(String, String)>,
    entries: Vec<(String, Vec<(String, String)>)>,
}

impl Scan {
    spec fn scan_view(&self) -> ConfScan {
        ConfScan {
            in_comment: self.in_comment,
            open: self.open,
            cur_name: self.cur_name@,
            cur: self.cur.deep_view(),
            globals: self.globals.deep_view(),
            entries: self.entries.deep_view(),
        }
    }
}

fn copy_pairs(src: &Vec<(String, String)>) -> (r: Vec<(String, String)>)
    ensures
        r.deep_view() == src.deep_view(),
{
    let ghost dv = src.deep_view();
    let mut out: Vec<(String, String)> = Vec::new();
    let mut i: usize = 0;
    while i < src.len()
        invariant
            i <= src@.len() == dv.len(),
            dv == src.deep_view(),
            out.deep_view() == dv.take(i as int),
        decreases src@.len() - i,
    {
        let ghost before = out.deep_view();
        let k = src[i].0.clone();
        let v = src[i].1.clone();
        out.push((k, v));
        assert(dv[i as int] == (src@[i as int].0@, src@[i as int].1@));
        assert(out.deep_view() =~= before.push((k@, v@)));
        assert(dv.take(i + 1) =~= dv.take(i as int).push(dv[i as int]));
        i += 1;
    }
    assert(dv.take(i as int) =~= dv);
    out
}

fn push_pair(ps: &mut Vec<(String, String)>, p: (String, String))
    ensures
        final(ps).deep_view() == old(ps).deep_view().push((p.0@, p.1@)),
{
    let ghost before = ps.deep_view();
    ps.push(p);
    assert(ps.deep_view() =~= before.push((p.0@, p.1@)));
}

fn scan_line(st: &mut Scan, raw: &str)
    ensures
        final(st).scan_view() == conf_step(old(st).scan_view(), raw@),
{
    proof {
        reveal_strlit("*/");
        reveal_strlit("/*");
        reveal_strlit("{");
        reveal_strlit("}");
    }
    let t = trim_str(raw);
    if st.in_comment {
        if contains_str(t.as_str(), "*/") {
            st.in_comment = false;
        }
        return;
    }
    if starts_with_str(t.as_str(), "/*") {
        if !contains_str(t.as_str(), "*/") {
            st.in_comment = true;
        }
        return;
    }
    let b = before_char_str(t.as_str(), '#');
    let l = trim_str(b.as_str());
    if l.as_str().is_empty() {
        return;
    }
    if ends_with_str(l.as_str(), "{") {
        let s1 = strip_trailing_str(l.as_str(), '{');
        let n = trim_str(s1.as_str());
        if !contains_char(n.as_str(), '=') && !contains_char(n.as_str(), ';') && !n.as_str().is_empty() {
            st.open = true;
            st.cur_name = n;
            st.cur = Vec::new();
            assert(st.cur.deep_view() =~= Seq::<(Seq<char>, Seq<char>)>::empty());
        }
        return;
    }
    if starts_with_str(l.as_str(), "}") {
        if st.open {
            let mut merged = copy_pairs(&st.globals);
            let mut i: usize = 0;
            let ghost g = st.globals.deep_view();
            let ghost c = st.cur.deep_view();
            while i < st.cur.len()
                invariant
                    i <= st.cur@.len() == c.len(),
                    c == st.cur.deep_view(),
                    merged.deep_view() == g + c.take(i as int),
                decreases st.cur@.len() - i,
            {
                let k = st.cur[i].0.clone();
                let v = st.cur[i].1.clone();
                assert(c[i as int] == (st.cur@[i as int].0@, st.cur@[i as int].1@));
                push_pair(&mut merged, (k, v));
                assert(c.take(i + 1) =~= c.take(i as int).push(c[i as int]));
                assert(g + c.take(i + 1) =~= (g + c.take(i as int)).push(c[i as int]));
                i += 1;
            }
            assert(c.take(i as int) =~= c);
            let ghost before = st.entries.deep_view();
            let nm = st.cur_name.clone();
            st.entries.push((nm, merged));
            assert(st.entries.deep_view() =~= before.push((st.cur_name@, g + c)));
            st.open = false;
        }
        return;
    }
    let p = parse_param(l.as_str());
    match p {
        Some(kv) => {
            if st.open {
                push_pair(&mut st.cur, kv);
            } else {
                push_pair(&mut st.globals, kv);
            }
        },
        None => {},
    }
}

fn finish_entry(name: &String, merged: &Vec<(String, String)>) -> (r: ParsedJail)
    ensures
        jail_view(r) == (name@, subst_all(merged.deep_view(), name@)),
{
    let mut params = copy_pairs(merged);
    substitute_vars(&mut params, name.as_str());
    ParsedJail { name: name.clone(), params }
}

/// The jails of a `jail.conf` text: `/* */` and `#` comments skipped,
/// `name {` ... `}` blocks read, each block's parameters put after the
/// global ones seen before it, variables substituted. It always succeeds.
pub fn parse_jail_conf_from_str(content: &str) -> (r: ApiResult<Vec<ParsedJail>>)
    ensures
        r matches Ok(js) && jails_view(js@) == parsed_jails(content@),
{
    let ls = split_lines(content);
    let ghost lv = ls.deep_view();
    let mut st = Scan {
        in_comment: false,
        open: false,
        cur_name: String::new(),
        cur: Vec::new(),
        globals: Vec::new(),
        entries: Vec::new(),
    };
    proof {
        assert(st.cur.deep_view() =~= Seq::<(Seq<char>, Seq<char>)>::empty());
        assert(st.globals.deep_view() =~= Seq::<(Seq<char>, Seq<char>)>::empty());
        assert(st.entries.deep_view() =~= Seq::<(Seq<char>, PropsView)>::empty());
        assert(st.cur_name@ =~= Seq::<char>::empty());
        assert(lv.take(0) =~= Seq::<Seq<char>>::empty());
    }
    let mut i: usize = 0;
    while i < ls.len()
        invariant
            i <= ls@.len() == lv.len(),
            lv == ls.deep_view(),
            lv == lines(content@),
            st.scan_view() == conf_scan(lv.take(i as int)),
        decreases ls@.len() - i,
    {
        scan_line(&mut st, ls[i].as_str());
        assert(lv.take(i + 1).drop_last() =~= lv.take(i as int));
        i += 1;
    }
    assert(lv.take(i as int) =~= lv);
    let ghost ev = st.entries.deep_view();
    let mut out: Vec<ParsedJail> = Vec::new();
    let mut j: usize = 0;
    while j < st.entries.len()
        invariant
            j <= st.entries@.len() == ev.len(),
            ev == st.entries.deep_view(),
            ev == conf_scan(lines(content@)).entries,
            jails_view(out@) == parsed_jails(content@).take(j as int),
        decreases st.entries@.len() - j,
    {
        let e = finish_entry(&st.entries[j].0, &st.entries[j].1);
        assert(ev[j as int] == (st.entries@[j as int].0@, st.entries@[j as int].1.deep_view()));
        let ghost before = out@;
        out.push(e);
        assert(jails_view(out@) =~= jails_view(before).push(jail_view(e)));
        assert(parsed_jails(content@).take(j + 1) =~= parsed_jails(content@).take(j as int).push(
            parsed_jails(content@)[j as int],
        ));
        j += 1;
    }
    assert(parsed_jails(content@).take(j as int) =~= parsed_jails(content@));
    Ok(out)
}


/// The jails of `/etc/jail.conf` given its text, or `NotFound` when the
/// file could not be read.
pub fn parse_jail_conf(content: Option<&str>) -> (r: ApiResult<Vec<ParsedJail>>)
    ensures
        match content {
            None => is_not_found(r, "/etc/jail.conf not found"@),
            Some(c) => r matches Ok(js) && jails_view(js@) == parsed_jails(c@),
        },
{
    match content {
        None => Err(ApiError::NotFound(owned("/etc/jail.conf not found"))),
        Some(c) => parse_jail_conf_from_str(c),
    }
}

// ───────────────────────── global parameters ─────────────────────────

/// A scan for the parameters outside every block.
pub struct GlobalScan {
    pub in_comment: bool,
    pub in_block: bool,
    pub globals: PropsView,
}

pub open spec fn global_step(st: GlobalScan, raw: Seq<char>) -> GlobalScan {
    let t = trim(raw);
    let l = uncommented(t);
    if st.in_comment {
        if contains_sub(t, "*/"@) {
            GlobalScan { in_comment: false, in_block: st.in_block, globals: st.globals }
        } else {
            st
        }
    } else if starts_with(t, "/*"@) {
        if contains_sub(t, "*/"@) {
            st
        } else {
            GlobalScan { in_comment: true, in_block: st.in_block, globals: st.globals }
        }
    } else if l.len() == 0 {
        st
    } else if ends_with(l, "{"@) {
        GlobalScan { in_comment: false, in_block: true, globals: st.globals }
    } else if starts_with(l, "}"@) {
        GlobalScan { in_comment: false, in_block: false, globals: st.globals }
    } else if st.in_block {
        st
    } else {
        GlobalScan { in_comment: false, in_block: false, globals: st.globals.push(param_of(l)) }
    }
}

pub open spec fn global_scan(ls: Seq<Seq<char>>) -> GlobalScan
    decreases ls.len(),
{
    if ls.len() == 0 {
        GlobalScan { in_comment: false, in_block: false, globals: seq![] }
    } else {
        global_step(global_scan(ls.drop_last()), ls.last())
    }
}

/// The global parameters of a `jail.conf` text, variables substituted with
/// an empty jail name.
pub open spec fn global_params(content: Seq<char>) -> PropsView {
    subst_all(global_scan(lines(content)).globals, seq![])
}

fn global_line(in_comment: &mut bool, in_block: &mut bool, globals: &mut Vec<(String, String)>, raw: &str)
    ensures
        ({
            let st = global_step(
                GlobalScan {
                    in_comment: *old(in_comment),
                    in_block: *old(in_block),
                    globals: old(globals).deep_view(),
                },
                raw@,
            );
            &&& *final(in_comment) == st.in_comment
            &&& *final(in_block) == st.in_block
            &&& final(globals).deep_view() == st.globals
        }),
{
    proof {
        reveal_strlit("*/");
        reveal_strlit("/*");
        reveal_strlit("{");
        reveal_strlit("}");
    }
    let t = trim_str(raw);
    if *in_comment {
        if contains_str(t.as_str(), "*/") {
            *in_comment = false;
        }
        return;
    }
    if starts_with_str(t.as_str(), "/*") {
        if !contains_str(t.as_str(), "*/") {
            *in_comment = true;
        }
        return;
    }
    let b = before_char_str(t.as_str(), '#');
    let l = trim_str(b.as_str());
    if l.as_str().is_empty() {
        return;
    }
    if ends_with_str(l.as_str(), "{") {
        *in_block = true;
        return;
    }
    if starts_with_str(l.as_str(), "}") {
        *in_block = false;
        return;
    }
    if *in_block {
        return;
    }
    match parse_param(l.as_str()) {
        Some(kv) => push_pair(globals, kv),
        None => {},
    }
}

/// The parameters set outside every jail block, with `${name}` and `$name`
/// replaced by nothing.
pub fn parse_global_params(content: &str) -> (r: Vec<(String, String)>)
    ensures
        r.deep_view() == global_params(content@),
{
    let ls = split_lines(content);
    let ghost lv = ls.deep_view();
    let mut in_comment = false;
    let mut in_block = false;
    let mut globals: Vec<(String, String)> = Vec::new();
    assert(globals.deep_view() =~= Seq::<(Seq<char>, Seq<char>)>::empty());
    assert(lv.take(0) =~= Seq::<Seq<char>>::empty());
    let mut i: usize = 0;
    while i < ls.len()
        invariant
            i <= ls@.len() == lv.len(),
            lv == ls.deep_view(),
            lv == lines(content@),
            global_scan(lv.take(i as int)) == (GlobalScan {
                in_comment,
                in_block,
                globals: globals.deep_view(),
            }),
        decreases ls@.len() - i,
    {
        global_line(&mut in_comment, &mut in_block, &mut globals, ls[i].as_str());
        assert(lv.take(i + 1).drop_last() =~= lv.take(i as int));
        i += 1;
    }
    assert(lv.take(i as int) =~= lv);
    proof {
        reveal_strlit("");
        assert(""@ =~= Seq::<char>::empty());
    }
    substitute_vars(&mut globals, "");
    globals
}

// ───────────────────────── removing a block ─────────────────────────

/// A trimmed line that opens the block of jail `name`.
pub open spec fn opens_block(t: Seq<char>, name: Seq<char>) -> bool {
    (t == name + "{"@ || starts_with(t, name + " {"@)) && trim(strip_trailing(t, '{')) == name
}

/// Where the removal scan stands: outside the block, inside it, or just
/// past its closing `}` (a blank line there goes with the block).
pub open spec fn removal_scan(ls: Seq<Seq<char>>, name: Seq<char>) -> (u8, Seq<Seq<char>>)
    decreases ls.len(),
{
    if ls.len() == 0 {
        (0, seq![])
    } else {
        let prev = removal_scan(ls.drop_last(), name);
        let t = trim(ls.last());
        if prev.0 == 1 {
            if starts_with(t, "}"@) {
                (2, prev.1)
            } else {
                (1, prev.1)
            }
        } else if prev.0 == 2 && t.len() == 0 {
            (0, prev.1)
        } else if opens_block(t, name) {
            (1, prev.1)
        } else {
            (0, prev.1.push(ls.last()))
        }
    }
}

/// `conf` without the block of jail `name` (from its header line to the
/// first line that starts with `}`, and the blank line right after it),
/// trailing newlines collapsed to one.
pub open spec fn without_block(conf: Seq<char>, name: Seq<char>) -> Seq<char> {
    let c = strip_trailing(join(removal_scan(lines(conf), name).1, "\n"@), '\n');
    if c.len() == 0 {
        seq![]
    } else {
        c + "\n"@
    }
}

fn opens_block_exec(t: &str, name: &str) -> (b: bool)
    ensures
        b == opens_block(t@, name@),
{
    let mut a = owned(name);
    push_str(&mut a, "{");
    let mut c = owned(name);
    push_str(&mut c, " {");
    if str_eq(t, a.as_str()) || starts_with_str(t, c.as_str()) {
        let s1 = strip_trailing_str(t, '{');
        let s2 = trim_str(s1.as_str());
        str_eq(s2.as_str(), name)
    } else {
        false
    }
}

/// `conf` with the block of jail `name` taken out.
pub fn remove_jail_block(conf: &str, name: &str) -> (r: String)
    ensures
        r@ == without_block(conf@, name@),
{
    proof {
        reveal_strlit("}");
        reveal_strlit("\n");
    }
    let ls = split_lines(conf);
    let ghost lv = ls.deep_view();
    let mut kept: Vec<String> = Vec::new();
    let mut state: u8 = 0;
    assert(kept.deep_view() =~= Seq::<Seq<char>>::empty());
    assert(lv.take(0) =~= Seq::<Seq<char>>::empty());
    let mut i: usize = 0;
    while i < ls.len()
        invariant
            i <= ls@.len() == lv.len(),
            lv == ls.deep_view(),
            lv == lines(conf@),
            removal_scan(lv.take(i as int), name@) == (state, kept.deep_view()),
        decreases ls@.len() - i,
    {
        assert(lv.take(i + 1).drop_last() =~= lv.take(i as int));
        assert(lv.take(i + 1).last() == ls@[i as int]@);
        let t = trim_str(ls[i].as_str());
        if state == 1 {
            if starts_with_str(t.as_str(), "}") {
                state = 2;
            }
        } else if state == 2 && t.as_str().is_empty() {
            state = 0;
        } else if opens_block_exec(t.as_str(), name) {
            state = 1;
        } else {
            let ghost before = kept.deep_view();
            kept.push(ls[i].clone());
            assert(kept.deep_view() =~= before.push(ls@[i as int]@));
            state = 0;
        }
        i += 1;
    }
    assert(lv.take(i as int) =~= lv);
    let joined = join_strings(&kept, "\n");
    let c = strip_trailing_str(joined.as_str(), '\n');
    if c.as_str().is_empty() {
        String::new()
    } else {
        let mut out = c;
        push_str(&mut out, "\n");
        out
    }
}

// ───────────────────────── writing a block ─────────────────────────

/// `value` given and not empty.
pub open spec fn given(o: Option<Seq<char>>) -> bool {
    o matches Some(v) && v.len() > 0
}

pub open spec fn host_lines(name: Seq<char>, hostname: Option<Seq<char>>) -> Seq<Seq<char>> {
    match hostname {
        Some(hn) => if hn.len() > 0 && hn != name {
            seq!["    host.hostname = \""@ + hn + "\";"@]
        } else {
            seq![]
        },
        None => seq![],
    }
}

pub open spec fn iface_lines(interface: Option<Seq<char>>) -> Seq<Seq<char>> {
    match interface {
        Some(i) => if i.len() > 0 {
            seq!["    interface = \""@ + i + "\";"@]
        } else {
            seq![]
        },
        None => seq![],
    }
}

/// `ip4`/`ip6`: `inherit`, or an address list written unquoted.
pub open spec fn ip_lines(family: Seq<char>, ip: Option<Seq<char>>) -> Seq<Seq<char>> {
    match ip {
        Some(v) => if v.len() == 0 {
            seq![]
        } else if v == "inherit"@ {
            seq!["    "@ + family + " = \"inherit\";"@]
        } else {
            seq!["    "@ + family + ".addr = "@ + v + ";"@]
        },
        None => seq![],
    }
}

pub open spec fn fstab_lines(fstab: Option<Seq<char>>) -> Seq<Seq<char>> {
    match fstab {
        Some(f) => seq!["    mount.fstab = \""@ + f + "\";"@],
        None => seq![],
    }
}

/// The lines of a new jail's block. Path and hostname are written only
/// where they differ from `/jails/<name>` and the jail's name.
pub open spec fn new_block_lines(
    name: Seq<char>,
    path: Seq<char>,
    hostname: Option<Seq<char>>,
    interface: Option<Seq<char>>,
    ip4: Option<Seq<char>>,
    ip6: Option<Seq<char>>,
    fstab: Option<Seq<char>>,
) -> Seq<Seq<char>> {
    seq![name + " {"@] + (if path != "/jails/"@ + name {
        seq!["    path = \""@ + path + "\";"@]
    } else {
        seq![]
    }) + host_lines(name, hostname) + iface_lines(interface) + ip_lines("ip4"@, ip4) + ip_lines(
        "ip6"@,
        ip6,
    ) + fstab_lines(fstab) + seq!["}"@]
}

pub open spec fn opt_view(o: Option<&str>) -> Option<Seq<char>> {
    match o {
        Some(s) => Some(s@),
        None => None,
    }
}

fn push_all(out: &mut Vec<String>, extra: Vec<String>)
    ensures
        final(out).deep_view() == old(out).deep_view() + extra.deep_view(),
{
    let ghost ev = extra.deep_view();
    let ghost start = out.deep_view();
    let mut i: usize = 0;
    while i < extra.len()
        invariant
            i <= extra@.len() == ev.len(),
            ev == extra.deep_view(),
            out.deep_view() == start + ev.take(i as int),
        decreases extra@.len() - i,
    {
        let ghost before = out.deep_view();
        out.push(extra[i].clone());
        assert(out.deep_view() =~= before.push(ev[i as int]));
        assert(start + ev.take(i + 1) =~= (start + ev.take(i as int)).push(ev[i as int]));
        i += 1;
    }
    assert(ev.take(i as int) =~= ev);
}

fn quoted_line(prefix: &str, v: &str, suffix: &str) -> (r: Vec<String>)
    ensures
        r.deep_view() == seq![prefix@ + v@ + suffix@],
{
    let mut s = owned(prefix);
    push_str(&mut s, v);
    push_str(&mut s, suffix);
    let mut out: Vec<String> = Vec::new();
    out.push(s);
    assert(out.deep_view() =~= seq![prefix@ + v@ + suffix@]);
    out
}

fn none_lines() -> (r: Vec<String>)
    ensures
        r.deep_view() == Seq::<Seq<char>>::empty(),
{
    let out: Vec<String> = Vec::new();
    assert(out.deep_view() =~= Seq::<Seq<char>>::empty());
    out
}

fn ip_lines_exec(family: &str, ip: Option<&str>) -> (r: Vec<String>)
    ensures
        r.deep_view() == ip_lines(family@, opt_view(ip)),
{
    proof {
        reveal_strlit("");
        reveal_strlit("    ");
    }
    match ip {
        Some(v) => {
            if v.is_empty() {
                none_lines()
            } else if str_eq(v, "inherit") {
                let mut p = owned("    ");
                push_str(&mut p, family);
                let r = quoted_line(p.as_str(), "", " = \"inherit\";");
                assert(p@ + ""@ =~= p@);
                r
            } else {
                let mut p = owned("    ");
                push_str(&mut p, family);
                push_str(&mut p, ".addr = ");
                quoted_line(p.as_str(), v, ";")
            }
        },
        None => none_lines(),
    }
}

/// The `jail.conf` block of a new jail, lines joined by newlines.
pub fn generate_jail_block(
    name: &str,
    path: &str,
    hostname: Option<&str>,
    interface: Option<&str>,
    ip4: Option<&str>,
    ip6: Option<&str>,
    fstab_path: Option<&str>,
) -> (r: String)
    ensures
        r@ == join(
            new_block_lines(
                name@,
                path@,
                opt_view(hostname),
                opt_view(interface),
                opt_view(ip4),
                opt_view(ip6),
                opt_view(fstab_path),
            ),
            "\n"@,
        ),
{
    proof {
        reveal_strlit("");
    }
    let mut ls = quoted_line(name, "", " {");
    let mut dp = owned("/jails/");
    push_str(&mut dp, name);
    if !str_eq(path, dp.as_str()) {
        push_all(&mut ls, quoted_line("    path = \"", path, "\";"));
    } else {
        push_all(&mut ls, none_lines());
    }
    let hl = match hostname {
        Some(hn) => if !hn.is_empty() && !str_eq(hn, name) {
            quoted_line("    host.hostname = \"", hn, "\";")
        } else {
            none_lines()
        },
        None => none_lines(),
    };
    push_all(&mut ls, hl);
    let il = match interface {
        Some(i) => if !i.is_empty() {
            quoted_line("    interface = \"", i, "\";")
        } else {
            none_lines()
        },
        None => none_lines(),
    };
    push_all(&mut ls, il);
    push_all(&mut ls, ip_lines_exec("ip4", ip4));
    push_all(&mut ls, ip_lines_exec("ip6", ip6));
    let fl = match fstab_path {
        Some(f) => quoted_line("    mount.fstab = \"", f, "\";"),
        None => none_lines(),
    };
    push_all(&mut ls, fl);
    push_all(&mut ls, quoted_line("}", "", ""));
    proof {
        let want = new_block_lines(
            name@,
            path@,
            opt_view(hostname),
            opt_view(interface),
            opt_view(ip4),
            opt_view(ip6),
            opt_view(fstab_path),
        );
        assert(ls.deep_view() =~= want);
    }
    join_strings(&ls, "\n")
}

/// `conf` with `block` added at its end after a blank line (or `block`
/// alone when `conf` is empty).
pub open spec fn appended(conf: Seq<char>, block: Seq<char>) -> Seq<char> {
    if conf.len() == 0 {
        block
    } else if ends_with(conf, "\n"@) {
        conf + "\n"@ + block + "\n"@
    } else {
        conf + "\n"@ + "\n"@ + block + "\n"@
    }
}

pub fn append_block(conf: &str, block: &str) -> (r: String)
    ensures
        r@ == appended(conf@, block@),
{
    if conf.is_empty() {
        return owned(block);
    }
    let mut out = owned(conf);
    if !ends_with_str(conf, "\n") {
        push_str(&mut out, "\n");
    }
    push_str(&mut out, "\n");
    push_str(&mut out, block);
    push_str(&mut out, "\n");
    out
}

/// After the old block is taken out, the new one goes at the end, ended
/// by a newline.
pub open spec fn replaced(without_old: Seq<char>, block: Seq<char>) -> Seq<char> {
    if without_old.len() == 0 {
        block + "\n"@
    } else {
        appended(without_old, block)
    }
}

pub fn replace_block_text(without_old: &str, block: &str) -> (r: String)
    ensures
        r@ == replaced(without_old@, block@),
{
    if without_old.is_empty() {
        let mut out = owned(block);
        push_str(&mut out, "\n");
        out
    } else {
        append_block(without_old, block)
    }
}


// ───────────────────────── writing a block from parameters ─────────────────────────

/// Parameters written as a bare `key;` when on: the fixed ones and every
/// `allow.*`.
pub open spec fn is_bool_param(k: Seq<char>) -> bool {
    k == "persist"@ || k == "mount.devfs"@ || k == "mount.fdescfs"@ || k == "mount.procfs"@ || k
        == "exec.clean"@ || k == "vnet"@ || starts_with(k, "allow."@)
}

/// Parameters the kernel reports but `jail.conf` cannot set.
pub open spec fn is_readonly_param(k: Seq<char>) -> bool {
    k == "jid"@ || k == "dying"@ || k == "lastjid"@ || k == "children.cur"@ || k == "osrelease"@
        || k == "osreldate"@ || k == "cpuset.id"@ || k == "ip4.saddrsel"@ || k == "ip6.saddrsel"@
}

pub open spec fn flag_on(v: Seq<char>) -> bool {
    v == "true"@ || v == "1"@
}

pub open spec fn global_on(globals: PropsView, k: Seq<char>) -> bool {
    match last_value(globals, k) {
        Some(g) => flag_on(g),
        None => false,
    }
}

pub open spec fn global_same(globals: PropsView, k: Seq<char>, v: Seq<char>) -> bool {
    match last_value(globals, k) {
        Some(g) => trim(g) == v,
        None => false,
    }
}

/// The line (if any) written for one parameter: read-only ones, flags that
/// are off or already on globally, empty values and values equal to the
/// global one are left out.
pub open spec fn param_line(k: Seq<char>, raw: Seq<char>, globals: PropsView) -> Seq<Seq<char>> {
    let v = trim(raw);
    if is_readonly_param(k) {
        seq![]
    } else if is_bool_param(k) {
        if flag_on(v) && !global_on(globals, k) {
            seq!["    "@ + k + ";"@]
        } else {
            seq![]
        }
    } else if v.len() == 0 || global_same(globals, k, v) {
        seq![]
    } else {
        seq!["    "@ + k + " = \""@ + v + "\";"@]
    }
}

pub open spec fn params_lines(keys: Seq<Seq<char>>, ps: PropsView, globals: PropsView) -> Seq<
    Seq<char>,
>
    decreases keys.len(),
{
    if keys.len() == 0 {
        seq![]
    } else {
        params_lines(keys.drop_last(), ps, globals) + param_line(
            keys.last(),
            or_default(last_value(ps, keys.last()), seq![]),
            globals,
        )
    }
}

pub open spec fn keys_of(ps: PropsView) -> Seq<Seq<char>> {
    ps.map_values(|p: (Seq<char>, Seq<char>)| p.0)
}

/// The keys of `ps` in code-point order.
pub open spec fn sorted_keys(ps: PropsView) -> Seq<Seq<char>> {
    choose|ks: Seq<Seq<char>>| sorted_strs(ks) && ks.to_multiset() == keys_of(ps).to_multiset()
}

/// The block of jail `name` written from its parameters, keys in order.
pub open spec fn block_from_params(name: Seq<char>, ps: PropsView, globals: PropsView) -> Seq<
    char,
> {
    join(seq![name + " {"@] + params_lines(sorted_keys(ps), ps, globals) + seq!["}"@], "\n"@)
}

fn param_line_exec(k: &str, raw: &str, globals: &Vec<(String, String)>) -> (r: Vec<String>)
    ensures
        r.deep_view() == param_line(k@, raw@, globals.deep_view()),
{
    proof {
        reveal_strlit("");
        reveal_strlit("allow.");
    }
    let v = trim_str(raw);
    let ro = str_eq(k, "jid") || str_eq(k, "dying") || str_eq(k, "lastjid") || str_eq(
        k,
        "children.cur",
    ) || str_eq(k, "osrelease") || str_eq(k, "osreldate") || str_eq(k, "cpuset.id") || str_eq(
        k,
        "ip4.saddrsel",
    ) || str_eq(k, "ip6.saddrsel");
    if ro {
        return none_lines();
    }
    let flag = str_eq(k, "persist") || str_eq(k, "mount.devfs") || str_eq(k, "mount.fdescfs")
        || str_eq(k, "mount.procfs") || str_eq(k, "exec.clean") || str_eq(k, "vnet")
        || starts_with_str(k, "allow.");
    let g = prop_get(globals, k);
    if flag {
        let on = str_eq(v.as_str(), "true") || str_eq(v.as_str(), "1");
        let g_on = match &g {
            Some(gv) => str_eq(gv.as_str(), "true") || str_eq(gv.as_str(), "1"),
            None => false,
        };
        if on && !g_on {
            return quoted_line("    ", k, ";");
        }
        return none_lines();
    }
    if v.as_str().is_empty() {
        return none_lines();
    }
    let same = match &g {
        Some(gv) => {
            let t = trim_str(gv.as_str());
            string_eq(&t, &v)
        },
        None => false,
    };
    if same {
        return none_lines();
    }
    let mut p = owned("    ");
    push_str(&mut p, k);
    push_str(&mut p, " = \"");
    quoted_line(p.as_str(), v.as_str(), "\";")
}

/// The keys of a parameter list, in order.
fn keys_vec(ps: &Vec<(String, String)>) -> (r: Vec<String>)
    ensures
        r.deep_view() == keys_of(ps.deep_view()),
{
    let ghost dv = ps.deep_view();
    let mut out: Vec<String> = Vec::new();
    let mut i: usize = 0;
    while i < ps.len()
        invariant
            i <= ps@.len() == dv.len(),
            dv == ps.deep_view(),
            out.deep_view() == keys_of(dv).take(i as int),
        decreases ps@.len() - i,
    {
        let ghost before = out.deep_view();
        out.push(ps[i].0.clone());
        assert(dv[i as int] == (ps@[i as int].0@, ps@[i as int].1@));
        assert(out.deep_view() =~= before.push(keys_of(dv)[i as int]));
        assert(keys_of(dv).take(i + 1) =~= keys_of(dv).take(i as int).push(keys_of(dv)[i as int]));
        i += 1;
    }
    assert(keys_of(dv).take(i as int) =~= keys_of(dv));
    out
}

/// The block of jail `name` from its full parameter list: keys in code-point order; read-only parameters, empty
/// values and values equal to the global default are left out; flags are
/// written as `key;` when on and not already on globally.
pub fn generate_jail_block_from_params(
    name: &str,
    params: &Vec<(String, String)>,
    globals: &Vec<(String, String)>,
) -> (r: String)
    ensures
        r@ == block_from_params(name@, params.deep_view(), globals.deep_view()),
{
    proof {
        reveal_strlit("");
    }
    let ghost pv = params.deep_view();
    let ghost gv = globals.deep_view();
    let ks = keys_vec(params);
    let sorted = sort_strings(&ks);
    let ghost sk = sorted.deep_view();
    proof {
        assert(sorted_strs(sk) && sk.to_multiset() == keys_of(pv).to_multiset());
        let c = sorted_keys(pv);
        assert(sorted_strs(c) && c.to_multiset() == keys_of(pv).to_multiset());
        lemma_sorted_unique(c, sk);
    }
    let mut ls = quoted_line(name, "", " {");
    assert(ls.deep_view() =~= seq![name@ + " {"@]);
    assert(sk.take(0) =~= Seq::<Seq<char>>::empty());
    let mut i: usize = 0;
    while i < sorted.len()
        invariant
            i <= sorted@.len() == sk.len(),
            sk == sorted.deep_view(),
            pv == params.deep_view(),
            gv == globals.deep_view(),
            ls.deep_view() == seq![name@ + " {"@] + params_lines(sk.take(i as int), pv, gv),
        decreases sorted@.len() - i,
    {
        let k = &sorted[i];
        let value = match prop_get(params, k.as_str()) {
            Some(v) => v,
            None => String::new(),
        };
        assert(value@ == or_default(last_value(pv, sk[i as int]), seq![]));
        let line = param_line_exec(k.as_str(), value.as_str(), globals);
        push_all(&mut ls, line);
        assert(sk.take(i + 1).drop_last() =~= sk.take(i as int));
        assert(seq![name@ + " {"@] + params_lines(sk.take(i + 1), pv, gv) =~= seq![name@ + " {"@]
            + params_lines(sk.take(i as int), pv, gv) + param_line(
            sk[i as int],
            or_default(last_value(pv, sk[i as int]), seq![]),
            gv,
        ));
        i += 1;
    }
    assert(sk.take(i as int) =~= sk);
    push_all(&mut ls, quoted_line("}", "", ""));
    assert(ls.deep_view() =~= seq![name@ + " {"@] + params_lines(sk, pv, gv) + seq!["}"@]);
    join_strings(&ls, "\n")
}

} // verus!
