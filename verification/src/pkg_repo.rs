//! Package repository files: reading them, merging user overrides onto the
//! system ones, and writing minimal overrides.
use vstd::prelude::*;
use crate::jails::{rfind_char, rfind_char_vec};
use crate::num::{int_dec, parse_i64, parse_signed64, push_i64};
use crate::pkg::{CreateRepoInput, RepoConfig, RepoFile, RepoInput, UpdateRepoRequest, i64_or_zero};
use crate::error::{is_conflict, is_not_found};
use crate::error::{ApiError, ApiResult, bad_request, is_bad_request};
use crate::pattern::{regex_is_match, regex_match};
use crate::text::{
    chars_of, ends_with, ends_with_str, find_char, find_char_vec, lines, owned, push_str,
    split_lines, splitn_char, splitn_str, starts_with, starts_with_str, str_eq, string_from,
    to_lowercase_str, to_uppercase_str, trim, trim_str, unicode_lower, unicode_upper,
};

verus! {

// ───────────────────────── counting ─────────────────────────

/// How many times `c` occurs in `s`.
pub open spec fn count_char(s: Seq<char>, c: char) -> nat
    decreases s.len(),
{
    if s.len() == 0 {
        0
    } else {
        count_char(s.drop_last(), c) + if s.last() == c {
            1nat
        } else {
            0nat
        }
    }
}

proof fn lemma_count_le(s: Seq<char>, c: char)
    ensures
        count_char(s, c) <= s.len(),
    decreases s.len(),
{
    if s.len() > 0 {
        lemma_count_le(s.drop_last(), c);
    }
}

fn count_char_str(s: &str, c: char) -> (n: usize)
    ensures
        n == count_char(s@, c),
{
    let v = chars_of(s);
    let mut n: usize = 0;
    let mut i: usize = 0;
    assert(v@.take(0) =~= Seq::<char>::empty());
    while i < v.len()
        invariant
            i <= v@.len(),
            v@ == s@,
            n <= i,
            n == count_char(v@.take(i as int), c),
        decreases v@.len() - i,
    {
        assert(v@.take(i + 1).drop_last() =~= v@.take(i as int));
        if v[i] == c {
            n += 1;
        }
        i += 1;
    }
    assert(v@.take(i as int) =~= v@);
    n
}

/// Total length of some lines.
pub open spec fn sum_lens(ls: Seq<Seq<char>>) -> nat
    decreases ls.len(),
{
    if ls.len() == 0 {
        0
    } else {
        sum_lens(ls.drop_last()) + ls.last().len()
    }
}

proof fn lemma_sum_lens_front(a: Seq<char>, rest: Seq<Seq<char>>)
    ensures
        sum_lens(seq![a] + rest) == a.len() + sum_lens(rest),
    decreases rest.len(),
{
    let t = seq![a] + rest;
    assert(t.len() > 0);
    assert(sum_lens(t) == sum_lens(t.drop_last()) + t.last().len());
    if rest.len() > 0 {
        assert(t.drop_last() =~= seq![a] + rest.drop_last());
        assert(t.last() == rest.last());
        lemma_sum_lens_front(a, rest.drop_last());
        assert(sum_lens(rest) == sum_lens(rest.drop_last()) + rest.last().len());
    } else {
        assert(t.drop_last() =~= Seq::<Seq<char>>::empty());
        assert(t.last() == a);
        assert(sum_lens(rest) == 0);
    }
}

proof fn lemma_lines_sum(s: Seq<char>)
    ensures
        sum_lens(lines(s)) <= s.len(),
    decreases s.len(),
{
    if s.len() > 0 {
        crate::text::lemma_find_char_facts(s, '\n');
        match find_char(s, '\n') {
            Some(i) => {
                assert(lines(s) == seq![crate::text::strip_cr(s.take(i))] + lines(s.skip(i + 1)));
                assert(crate::text::strip_cr(s.take(i)).len() <= i);
                lemma_lines_sum(s.skip(i + 1));
                lemma_sum_lens_front(crate::text::strip_cr(s.take(i)), lines(s.skip(i + 1)));
                assert(s.skip(i + 1).len() == s.len() - i - 1);
            },
            None => {
                assert(lines(s) == seq![s]);
                lemma_sum_lens_front(s, Seq::<Seq<char>>::empty());
                assert(seq![s] + Seq::<Seq<char>>::empty() =~= seq![s]);
            },
        }
    }
}

proof fn lemma_sum_lens_prefix(ls: Seq<Seq<char>>, i: int)
    requires
        0 <= i <= ls.len(),
    ensures
        sum_lens(ls.take(i)) <= sum_lens(ls),
    decreases ls.len() - i,
{
    if i < ls.len() {
        assert(ls.take(i + 1).drop_last() =~= ls.take(i));
        lemma_sum_lens_prefix(ls, i + 1);
    } else {
        assert(ls.take(i) =~= ls);
    }
}

// ───────────────────────── blocks of a repository file ─────────────────────────

/// A scan of a repository file for its top-level `name: { ... }` blocks:
/// the brace depth, the block being read and the blocks found.
pub struct RepoScan {
    pub depth: int,
    pub name: Seq<char>,
    pub body: Seq<char>,
    pub blocks: Seq<(Seq<char>, Seq<char>)>,
}

pub open spec fn block_step(st: RepoScan, raw: Seq<char>) -> RepoScan {
    let line = trim(raw);
    if starts_with(line, "#"@) || line.len() == 0 {
        st
    } else if st.depth == 0 {
        match find_char(line, ':') {
            None => st,
            Some(c) => {
                let name = trim(line.take(c));
                let rest = trim(line.skip(c + 1));
                if !starts_with(rest, "{"@) {
                    st
                } else {
                    let ab = rest.skip(1);
                    let d = 1 + count_char(ab, '{') - count_char(ab, '}');
                    if d <= 0 {
                        RepoScan { depth: 0, name, body: ab, blocks: st.blocks.push((name, ab)) }
                    } else if trim(ab).len() > 0 {
                        RepoScan { depth: d, name, body: ab + "\n"@, blocks: st.blocks }
                    } else {
                        RepoScan { depth: d, name, body: seq![], blocks: st.blocks }
                    }
                }
            },
        }
    } else {
        let d = st.depth + count_char(line, '{') - count_char(line, '}');
        if d <= 0 {
            let part = match rfind_char(line, '}') {
                Some(p) => line.take(p),
                None => line,
            };
            let b = st.body + part + "\n"@;
            RepoScan { depth: 0, name: st.name, body: b, blocks: st.blocks.push((st.name, b)) }
        } else {
            RepoScan { depth: d, body: st.body + line + "\n"@, ..st }
        }
    }
}

pub open spec fn block_scan(ls: Seq<Seq<char>>) -> RepoScan
    decreases ls.len(),
{
    if ls.len() == 0 {
        RepoScan { depth: 0, name: seq![], body: seq![], blocks: seq![] }
    } else {
        block_step(block_scan(ls.drop_last()), ls.last())
    }
}

/// The top-level blocks of a repository file, as (name, body text).
pub open spec fn repo_blocks(content: Seq<char>) -> Seq<(Seq<char>, Seq<char>)> {
    block_scan(lines(content)).blocks
}

fn block_line(
    depth: &mut i128,
    name: &mut String,
    body: &mut String,
    blocks: &mut Vec<(String, String)>,
    raw: &str,
)
    requires
        0 <= *old(depth) <= usize::MAX,
    ensures
        ({
            let st = block_step(
                RepoScan {
                    depth: *old(depth) as int,
                    name: old(name)@,
                    body: old(body)@,
                    blocks: old(blocks).deep_view(),
                },
                raw@,
            );
            &&& st.depth == *final(depth) as int
            &&& st.name == final(name)@
            &&& st.body == final(body)@
            &&& st.blocks == final(blocks).deep_view()
        }),
        0 <= *final(depth) <= *old(depth) + raw@.len(),
{
    proof {
        reveal_strlit("#");
        reveal_strlit("{");
        reveal_strlit("\n");
        crate::text::lemma_trim_len(raw@);
    }
    let line = trim_str(raw);
    if starts_with_str(line.as_str(), "#") || line.as_str().is_empty() {
        return;
    }
    let v = chars_of(line.as_str());
    let n = v.len();
    if *depth == 0 {
        match find_char_vec(&v, ':') {
            None => {},
            Some(c) => {
                let head = string_from(&v, 0, c);
                assert(head@ =~= line@.take(c as int));
                let nm = trim_str(head.as_str());
                let tail = string_from(&v, c + 1, n);
                assert(tail@ =~= line@.skip(c + 1));
                let rest = trim_str(tail.as_str());
                if starts_with_str(rest.as_str(), "{") {
                    let rv = chars_of(rest.as_str());
                    let ab = string_from(&rv, 1, rv.len());
                    assert(ab@ =~= rest@.skip(1));
                    proof {
                        lemma_count_le(ab@, '{');
                        crate::text::lemma_trim_len(tail@);
                    }
                    let opens = count_char_str(ab.as_str(), '{') as i128;
                    let closes = count_char_str(ab.as_str(), '}') as i128;
                    let d: i128 = 1 + opens - closes;
                    if d <= 0 {
                        let ghost bv = blocks.deep_view();
                        blocks.push((nm.clone(), ab.clone()));
                        assert(blocks.deep_view() =~= bv.push((nm@, ab@)));
                        *depth = 0;
                        *name = nm;
                        *body = ab;
                    } else {
                        let t = trim_str(ab.as_str());
                        *depth = d;
                        *name = nm;
                        if !t.as_str().is_empty() {
                            let mut b = ab;
                            push_str(&mut b, "\n");
                            *body = b;
                        } else {
                            *body = String::new();
                        }
                    }
                }
            },
        }
    } else {
        proof {
            lemma_count_le(line@, '{');
        }
        let opens = count_char_str(line.as_str(), '{') as i128;
        let closes = count_char_str(line.as_str(), '}') as i128;
        let d: i128 = *depth + opens - closes;
        if d <= 0 {
            let part = match rfind_char_vec(&v, '}') {
                Some(p) => {
                    assert(v@.subrange(0, p as int) =~= line@.take(p as int));
                    string_from(&v, 0, p)
                },
                None => line.clone(),
            };
            push_str(body, part.as_str());
            push_str(body, "\n");
            let ghost bv = blocks.deep_view();
            blocks.push((name.clone(), body.clone()));
            assert(blocks.deep_view() =~= bv.push((name@, body@)));
            *depth = 0;
        } else {
            push_str(body, line.as_str());
            push_str(body, "\n");
            *depth = d;
        }
    }
}

/// The top-level `name: { ... }` blocks of a repository file, found by
/// counting braces line by line (`#` lines and blank lines skipped).
pub fn parse_repo_blocks(content: &str) -> (r: Vec<(String, String)>)
    ensures
        r.deep_view() == repo_blocks(content@),
{
    let ls = split_lines(content);
    let ghost lv = ls.deep_view();
    let cv = chars_of(content);
    let cn = cv.len();
    proof {
        lemma_lines_sum(content@);
        assert(cn == content@.len());
    }
    let mut depth: i128 = 0;
    let mut name = String::new();
    let mut body = String::new();
    let mut blocks: Vec<(String, String)> = Vec::new();
    let mut i: usize = 0;
    assert(lv.take(0) =~= Seq::<Seq<char>>::empty());
    assert(blocks.deep_view() =~= Seq::<(Seq<char>, Seq<char>)>::empty());
    while i < ls.len()
        invariant
            i <= ls@.len() == lv.len(),
            lv == ls.deep_view(),
            lv == lines(content@),
            sum_lens(lv) <= content@.len(),
            content@.len() <= usize::MAX,
            0 <= depth <= sum_lens(lv.take(i as int)),
            block_scan(lv.take(i as int)) == (RepoScan {
                depth: depth as int,
                name: name@,
                body: body@,
                blocks: blocks.deep_view(),
            }),
        decreases ls@.len() - i,
    {
        proof {
            lemma_sum_lens_prefix(lv, i as int);
            assert(lv.take(i + 1).drop_last() =~= lv.take(i as int));
            assert(lv.take(i + 1).last() == ls@[i as int]@);
        }
        block_line(&mut depth, &mut name, &mut body, &mut blocks, ls[i].as_str());
        i += 1;
    }
    assert(lv.take(i as int) =~= lv);
    blocks
}


// ───────────────────────── one repository block ─────────────────────────

pub struct RepoView {
    pub name: Seq<char>,
    pub url: Seq<char>,
    pub enabled: bool,
    pub mirror_type: Seq<char>,
    pub signature_type: Seq<char>,
    pub fingerprints: Option<Seq<char>>,
    pub pubkey: Option<Seq<char>>,
    pub priority: i64,
    pub ip_version: i64,
    pub is_system_origin: bool,
}

pub open spec fn opt_seq(o: Option<String>) -> Option<Seq<char>> {
    match o {
        Some(s) => Some(s@),
        None => None,
    }
}

pub open spec fn repo_view(r: RepoConfig) -> RepoView {
    RepoView {
        name: r.name@,
        url: r.url@,
        enabled: r.enabled,
        mirror_type: r.mirror_type@,
        signature_type: r.signature_type@,
        fingerprints: opt_seq(r.fingerprints),
        pubkey: opt_seq(r.pubkey),
        priority: r.priority,
        ip_version: r.ip_version,
        is_system_origin: r.is_system_origin,
    }
}

pub open spec fn repos_view(rs: Seq<RepoConfig>) -> Seq<RepoView> {
    rs.map_values(|r: RepoConfig| repo_view(r))
}

/// A repository before any line of its block is read: enabled, no
/// mirror or signature, priority and IP version 0.
pub open spec fn default_repo(name: Seq<char>) -> RepoView {
    RepoView {
        name,
        url: seq![],
        enabled: true,
        mirror_type: "NONE"@,
        signature_type: "NONE"@,
        fingerprints: None,
        pubkey: None,
        priority: 0,
        ip_version: 0,
        is_system_origin: false,
    }
}

/// `s.trim_end_matches([';', ','])`.
pub open spec fn strip_semi_comma(s: Seq<char>) -> Seq<char>
    decreases s.len(),
{
    if s.len() > 0 && (s.last() == ';' || s.last() == ',') {
        strip_semi_comma(s.drop_last())
    } else {
        s
    }
}

fn strip_semi_comma_str(s: &str) -> (r: String)
    ensures
        r@ == strip_semi_comma(s@),
{
    let v = chars_of(s);
    let mut j: usize = v.len();
    assert(v@.take(j as int) =~= v@);
    while j > 0 && (v[j - 1] == ';' || v[j - 1] == ',')
        invariant
            j <= v@.len(),
            v@ == s@,
            strip_semi_comma(v@.take(j as int)) == strip_semi_comma(s@),
        decreases j,
    {
        assert(v@.take(j as int).drop_last() =~= v@.take(j - 1));
        j -= 1;
    }
    assert(v@.subrange(0, j as int) =~= v@.take(j as int));
    string_from(&v, 0, j)
}

/// The key and (unquoted-to-be) value of a trimmed body line, unless the
/// line is blank, a comment, a lone brace or has no `:`.
pub open spec fn kv_of(t: Seq<char>) -> Option<(Seq<char>, Seq<char>)> {
    if t.len() == 0 || starts_with(t, "#"@) || t == "{"@ || t == "}"@ {
        None
    } else {
        let parts = splitn_char(t, 2, ':');
        if parts.len() != 2 {
            None
        } else {
            Some((trim(parts[0]), trim(strip_semi_comma(trim(parts[1])))))
        }
    }
}

pub open spec fn quoted(v: Seq<char>) -> bool {
    (starts_with(v, "\""@) && ends_with(v, "\""@)) || (starts_with(v, "'"@) && ends_with(v, "'"@))
}

/// A value that is a single quote character, which the slice that strips
/// quotes cannot take.
pub open spec fn lone_quote(v: Seq<char>) -> bool {
    v == "\""@ || v == "'"@
}

pub open spec fn unquote_val(v: Seq<char>) -> Seq<char> {
    if quoted(v) {
        v.subrange(1, v.len() - 1)
    } else {
        v
    }
}

/// A block whose reading would take the quotes off a lone quote.
pub open spec fn block_panics(body: Seq<char>) -> bool {
    exists|k: int|
        0 <= k < lines(body).len() && ((#[trigger] kv_of(trim(lines(body)[k]))) matches Some(kv)
            && lone_quote(kv.1))
}

pub open spec fn flag_yes(v: Seq<char>) -> bool {
    v == "yes"@ || v == "true"@ || v == "1"@
}

/// One `key: value` of a block applied to the repository (keys compared
/// lower-cased; mirror and signature types upper-cased; unknown keys
/// ignored).
pub open spec fn repo_field(r: RepoView, key: Seq<char>, val: Seq<char>) -> RepoView {
    let k = unicode_lower(key);
    if k == "url"@ {
        RepoView { url: val, ..r }
    } else if k == "enabled"@ {
        RepoView { enabled: flag_yes(val), ..r }
    } else if k == "mirror_type"@ {
        RepoView { mirror_type: unicode_upper(val), ..r }
    } else if k == "signature_type"@ {
        RepoView { signature_type: unicode_upper(val), ..r }
    } else if k == "fingerprints"@ {
        RepoView { fingerprints: Some(val), ..r }
    } else if k == "pubkey"@ {
        RepoView { pubkey: Some(val), ..r }
    } else if k == "priority"@ {
        RepoView { priority: i64_or_zero(val), ..r }
    } else if k == "ip_version"@ {
        RepoView { ip_version: i64_or_zero(val), ..r }
    } else {
        r
    }
}

pub open spec fn repo_line(r: RepoView, raw: Seq<char>) -> RepoView {
    match kv_of(trim(raw)) {
        None => r,
        Some(kv) => repo_field(r, kv.0, unquote_val(kv.1)),
    }
}

pub open spec fn repo_fold(ls: Seq<Seq<char>>, name: Seq<char>) -> RepoView
    decreases ls.len(),
{
    if ls.len() == 0 {
        default_repo(name)
    } else {
        repo_line(repo_fold(ls.drop_last(), name), ls.last())
    }
}

/// The repository a block's body describes.
pub open spec fn repo_from_block(name: Seq<char>, body: Seq<char>) -> RepoView {
    repo_fold(lines(body), name)
}

fn kv_exec(t: &str) -> (r: Option<(String, String)>)
    ensures
        match r {
            Some(kv) => kv_of(t@) == Some((kv.0@, kv.1@)),
            None => kv_of(t@) is None,
        },
{
    if t.is_empty() || starts_with_str(t, "#") || str_eq(t, "{") || str_eq(t, "}") {
        return None;
    }
    let parts = splitn_str(t, 2, ':');
    if parts.len() != 2 {
        return None;
    }
    let ghost pv = parts.deep_view();
    assert(pv[0] == parts@[0]@ && pv[1] == parts@[1]@);
    let key = trim_str(parts[0].as_str());
    let a = trim_str(parts[1].as_str());
    let b = strip_semi_comma_str(a.as_str());
    let val = trim_str(b.as_str());
    Some((key, val))
}

fn unquote_exec(v: &str) -> (r: String)
    requires
        !lone_quote(v@),
    ensures
        r@ == unquote_val(v@),
{
    proof {
        reveal_strlit("\"");
        reveal_strlit("'");
    }
    if (starts_with_str(v, "\"") && ends_with_str(v, "\"")) || (starts_with_str(v, "'")
        && ends_with_str(v, "'")) {
        let c = chars_of(v);
        if c.len() == 1 {
            assert(v@ =~= "\""@ || v@ =~= "'"@);
        }
        string_from(&c, 1, c.len() - 1)
    } else {
        owned(v)
    }
}

fn parse_i64_or_zero(s: &str) -> (r: i64)
    ensures
        r == i64_or_zero(s@),
{
    match parse_i64(s) {
        Some(n) => n,
        None => 0,
    }
}

fn repo_field_exec(r: &mut RepoConfig, key: &str, val: String)
    ensures
        repo_view(*final(r)) == repo_field(repo_view(*old(r)), key@, val@),
{
    let k = to_lowercase_str(key);
    let k = k.as_str();
    if str_eq(k, "url") {
        r.url = val;
    } else if str_eq(k, "enabled") {
        r.enabled = str_eq(val.as_str(), "yes") || str_eq(val.as_str(), "true") || str_eq(
            val.as_str(),
            "1",
        );
    } else if str_eq(k, "mirror_type") {
        r.mirror_type = to_uppercase_str(val.as_str());
    } else if str_eq(k, "signature_type") {
        r.signature_type = to_uppercase_str(val.as_str());
    } else if str_eq(k, "fingerprints") {
        r.fingerprints = Some(val);
    } else if str_eq(k, "pubkey") {
        r.pubkey = Some(val);
    } else if str_eq(k, "priority") {
        r.priority = parse_i64_or_zero(val.as_str());
    } else if str_eq(k, "ip_version") {
        r.ip_version = parse_i64_or_zero(val.as_str());
    }
}

/// The repository a block describes. A value that is a lone quote
/// character cannot be read (taking the quotes off it fails), so such
/// blocks are left out.
pub fn parse_repo_block(name: &str, body: &str) -> (r: RepoConfig)
    requires
        !block_panics(body@),
    ensures
        repo_view(r) == repo_from_block(name@, body@),
{
    let ls = split_lines(body);
    let ghost lv = ls.deep_view();
    let mut r = RepoConfig {
        name: owned(name),
        url: String::new(),
        enabled: true,
        mirror_type: owned("NONE"),
        signature_type: owned("NONE"),
        fingerprints: None,
        pubkey: None,
        priority: 0,
        ip_version: 0,
        is_system_origin: false,
    };
    let mut i: usize = 0;
    assert(lv.take(0) =~= Seq::<Seq<char>>::empty());
    while i < ls.len()
        invariant
            i <= ls@.len() == lv.len(),
            lv == ls.deep_view(),
            lv == lines(body@),
            !block_panics(body@),
            repo_view(r) == repo_fold(lv.take(i as int), name@),
        decreases ls@.len() - i,
    {
        assert(lv.take(i + 1).drop_last() =~= lv.take(i as int));
        assert(lv.take(i + 1).last() == ls@[i as int]@);
        let t = trim_str(ls[i].as_str());
        match kv_exec(t.as_str()) {
            None => {},
            Some(kv) => {
                assert(!lone_quote(kv.1@)) by {
                    if lone_quote(kv.1@) {
                        assert(kv_of(trim(lines(body@)[i as int])) == Some((kv.0@, kv.1@)));
                    }
                }
                let val = unquote_exec(kv.1.as_str());
                repo_field_exec(&mut r, kv.0.as_str(), val);
            },
        }
        i += 1;
    }
    assert(lv.take(i as int) =~= lv);
    r
}

/// Every block of the file can be read.
pub open spec fn repo_text_ok_spec(content: Seq<char>) -> bool {
    forall|i: int|
        0 <= i < repo_blocks(content).len() ==> !block_panics(#[trigger] repo_blocks(content)[i].1)
}

fn block_ok(body: &str) -> (b: bool)
    ensures
        b == !block_panics(body@),
{
    proof {
        reveal_strlit("\"");
        reveal_strlit("'");
    }
    let ls = split_lines(body);
    let ghost lv = ls.deep_view();
    let mut i: usize = 0;
    while i < ls.len()
        invariant
            i <= ls@.len() == lv.len(),
            lv == ls.deep_view(),
            lv == lines(body@),
            forall|k: int|
                0 <= k < i ==> !((#[trigger] kv_of(trim(lv[k]))) matches Some(kv) && lone_quote(
                    kv.1,
                )),
        decreases ls@.len() - i,
    {
        assert(lv[i as int] == ls@[i as int]@);
        let t = trim_str(ls[i].as_str());
        match kv_exec(t.as_str()) {
            Some(kv) => {
                if str_eq(kv.1.as_str(), "\"") || str_eq(kv.1.as_str(), "'") {
                    assert(kv_of(trim(lv[i as int])) == Some((kv.0@, kv.1@)));
                    return false;
                }
            },
            None => {},
        }
        i += 1;
    }
    true
}

/// Whether every block of a repository file can be read (see
/// `parse_repo_block`).
pub fn repo_text_ok(content: &str) -> (b: bool)
    ensures
        b == repo_text_ok_spec(content@),
{
    let blocks = parse_repo_blocks(content);
    let ghost bv = blocks.deep_view();
    let mut i: usize = 0;
    while i < blocks.len()
        invariant
            i <= blocks@.len() == bv.len(),
            bv == blocks.deep_view(),
            bv == repo_blocks(content@),
            forall|k: int| 0 <= k < i ==> !block_panics(#[trigger] bv[k].1),
        decreases blocks@.len() - i,
    {
        assert(bv[i as int].1 == blocks@[i as int].1@);
        if !block_ok(blocks[i].1.as_str()) {
            return false;
        }
        i += 1;
    }
    true
}

/// The repositories a file's text defines, one per top-level block, in
/// order.
pub open spec fn repos_of_text(content: Seq<char>) -> Seq<RepoView> {
    repo_blocks(content).map_values(
        |b: (Seq<char>, Seq<char>)| repo_from_block(b.0, b.1),
    )
}

pub fn parse_repo_text(content: &str) -> (r: Vec<RepoConfig>)
    requires
        repo_text_ok_spec(content@),
    ensures
        repos_view(r@) == repos_of_text(content@),
{
    let blocks = parse_repo_blocks(content);
    let ghost bv = blocks.deep_view();
    let mut out: Vec<RepoConfig> = Vec::new();
    let mut i: usize = 0;
    while i < blocks.len()
        invariant
            i <= blocks@.len() == bv.len(),
            bv == blocks.deep_view(),
            bv == repo_blocks(content@),
            repo_text_ok_spec(content@),
            repos_view(out@) == repos_of_text(content@).take(i as int),
        decreases blocks@.len() - i,
    {
        assert(bv[i as int] == (blocks@[i as int].0@, blocks@[i as int].1@));
        assert(!block_panics(repo_blocks(content@)[i as int].1));
        let r = parse_repo_block(blocks[i].0.as_str(), blocks[i].1.as_str());
        let ghost o = out@;
        out.push(r);
        assert(repos_view(out@) =~= repos_view(o).push(repo_view(r)));
        assert(repos_of_text(content@).take(i + 1) =~= repos_of_text(content@).take(i as int).push(
            repos_of_text(content@)[i as int],
        ));
        i += 1;
    }
    assert(repos_of_text(content@).take(i as int) =~= repos_of_text(content@));
    out
}


// ───────────────────────── overrides ─────────────────────────

/// A user override on top of a system repository: every field the
/// override sets (differs from the block default) wins; the result is no
/// longer of system origin.
pub open spec fn merged(b: RepoView, o: RepoView) -> RepoView {
    RepoView {
        name: b.name,
        url: if o.url.len() > 0 {
            o.url
        } else {
            b.url
        },
        enabled: if !o.enabled {
            false
        } else {
            b.enabled
        },
        mirror_type: if o.mirror_type != "NONE"@ {
            o.mirror_type
        } else {
            b.mirror_type
        },
        signature_type: if o.signature_type != "NONE"@ {
            o.signature_type
        } else {
            b.signature_type
        },
        fingerprints: if o.fingerprints is Some {
            o.fingerprints
        } else {
            b.fingerprints
        },
        pubkey: if o.pubkey is Some {
            o.pubkey
        } else {
            b.pubkey
        },
        priority: if o.priority != 0 {
            o.priority
        } else {
            b.priority
        },
        ip_version: if o.ip_version != 0 {
            o.ip_version
        } else {
            b.ip_version
        },
        is_system_origin: false,
    }
}

fn clone_opt(o: &Option<String>) -> (r: Option<String>)
    ensures
        opt_seq(r) == opt_seq(*o),
{
    match o {
        Some(s) => Some(s.clone()),
        None => None,
    }
}

pub fn merge_repo(base: &RepoConfig, override_cfg: &RepoConfig) -> (r: RepoConfig)
    ensures
        repo_view(r) == merged(repo_view(*base), repo_view(*override_cfg)),
{
    let o = override_cfg;
    RepoConfig {
        name: base.name.clone(),
        url: if !o.url.as_str().is_empty() {
            o.url.clone()
        } else {
            base.url.clone()
        },
        enabled: if !o.enabled {
            false
        } else {
            base.enabled
        },
        mirror_type: if !str_eq(o.mirror_type.as_str(), "NONE") {
            o.mirror_type.clone()
        } else {
            base.mirror_type.clone()
        },
        signature_type: if !str_eq(o.signature_type.as_str(), "NONE") {
            o.signature_type.clone()
        } else {
            base.signature_type.clone()
        },
        fingerprints: if o.fingerprints.is_some() {
            clone_opt(&o.fingerprints)
        } else {
            clone_opt(&base.fingerprints)
        },
        pubkey: if o.pubkey.is_some() {
            clone_opt(&o.pubkey)
        } else {
            clone_opt(&base.pubkey)
        },
        priority: if o.priority != 0 {
            o.priority
        } else {
            base.priority
        },
        ip_version: if o.ip_version != 0 {
            o.ip_version
        } else {
            base.ip_version
        },
        is_system_origin: false,
    }
}

/// Whether a field is written: against the system file when there is
/// one, else against pkg's default.
pub open spec fn differs<T>(orig: Option<RepoView>, f: spec_fn(RepoView) -> T, r: RepoView, default_differs: bool) -> bool {
    match orig {
        Some(o) => f(o) != f(r),
        None => default_differs,
    }
}

pub open spec fn opt_line(write: bool, v: Option<Seq<char>>, key: Seq<char>) -> Seq<char> {
    match v {
        Some(x) => if write && x.len() > 0 {
            "  "@ + key + ": \""@ + x + "\";\n"@
        } else {
            seq![]
        },
        None => seq![],
    }
}

pub open spec fn url_piece(r: RepoView, orig: Option<RepoView>) -> Seq<char> {
    if differs(orig, |x: RepoView| x.url, r, true) {
        "  url: \""@ + r.url + "\";\n"@
    } else {
        seq![]
    }
}

pub open spec fn enabled_piece(r: RepoView, orig: Option<RepoView>) -> Seq<char> {
    if differs(orig, |x: RepoView| x.enabled, r, !r.enabled) {
        "  enabled: "@ + (if r.enabled {
            "yes"@
        } else {
            "no"@
        }) + ";\n"@
    } else {
        seq![]
    }
}

pub open spec fn mirror_piece(r: RepoView, orig: Option<RepoView>) -> Seq<char> {
    if differs(orig, |x: RepoView| x.mirror_type, r, r.mirror_type != "NONE"@) {
        "  mirror_type: \""@ + r.mirror_type + "\";\n"@
    } else {
        seq![]
    }
}

pub open spec fn signature_piece(r: RepoView, orig: Option<RepoView>) -> Seq<char> {
    if differs(orig, |x: RepoView| x.signature_type, r, r.signature_type != "NONE"@) {
        "  signature_type: \""@ + r.signature_type + "\";\n"@
    } else {
        seq![]
    }
}

pub open spec fn number_piece(write: bool, key: Seq<char>, n: i64) -> Seq<char> {
    if write {
        "  "@ + key + ": "@ + int_dec(n as int) + ";\n"@
    } else {
        seq![]
    }
}

/// The block written for a repository: its header, the fields that differ
/// from the system file (or from pkg's defaults when there is none:
/// the URL always), and the closing brace.
pub open spec fn block_diff(r: RepoView, orig: Option<RepoView>) -> Seq<char> {
    r.name + ": {\n"@ + url_piece(r, orig) + enabled_piece(r, orig) + mirror_piece(r, orig)
        + signature_piece(r, orig) + opt_line(
        differs(orig, |x: RepoView| x.fingerprints, r, r.fingerprints is Some),
        r.fingerprints,
        "fingerprints"@,
    ) + opt_line(differs(orig, |x: RepoView| x.pubkey, r, r.pubkey is Some), r.pubkey, "pubkey"@)
        + number_piece(differs(orig, |x: RepoView| x.priority, r, r.priority != 0), "priority"@, r.priority)
        + number_piece(
        differs(orig, |x: RepoView| x.ip_version, r, r.ip_version != 0),
        "ip_version"@,
        r.ip_version,
    ) + "}\n"@
}

pub open spec fn opt_repo(o: Option<&RepoConfig>) -> Option<RepoView> {
    match o {
        Some(r) => Some(repo_view(*r)),
        None => None,
    }
}

fn opt_eq(a: &Option<String>, b: &Option<String>) -> (r: bool)
    ensures
        r == (opt_seq(*a) == opt_seq(*b)),
{
    match (a, b) {
        (Some(x), Some(y)) => str_eq(x.as_str(), y.as_str()),
        (None, None) => true,
        _ => false,
    }
}

fn push_opt_line(out: &mut String, write: bool, v: &Option<String>, key: &str)
    ensures
        final(out)@ == old(out)@ + opt_line(write, opt_seq(*v), key@),
{
    match v {
        Some(x) => {
            if write && !x.as_str().is_empty() {
                push_str(out, "  ");
                push_str(out, key);
                push_str(out, ": \"");
                push_str(out, x.as_str());
                push_str(out, "\";\n");
            } else {
                assert(out@ =~= out@ + Seq::<char>::empty());
            }
        },
        None => {
            assert(out@ =~= out@ + Seq::<char>::empty());
        },
    }
}

fn push_number_piece(out: &mut String, write: bool, key: &str, n: i64)
    ensures
        final(out)@ == old(out)@ + number_piece(write, key@, n),
{
    if write {
        push_str(out, "  ");
        push_str(out, key);
        push_str(out, ": ");
        push_i64(out, n);
        push_str(out, ";\n");
    } else {
        assert(out@ =~= out@ + Seq::<char>::empty());
    }
}

fn push_url_piece(out: &mut String, r: &RepoConfig, orig: Option<&RepoConfig>)
    ensures
        final(out)@ == old(out)@ + url_piece(repo_view(*r), opt_repo(orig)),
{
    let w = match orig {
        Some(o) => !str_eq(o.url.as_str(), r.url.as_str()),
        None => true,
    };
    if w {
        push_str(out, "  url: \"");
        push_str(out, r.url.as_str());
        push_str(out, "\";\n");
    } else {
        assert(out@ =~= out@ + Seq::<char>::empty());
    }
}

fn push_enabled_piece(out: &mut String, r: &RepoConfig, orig: Option<&RepoConfig>)
    ensures
        final(out)@ == old(out)@ + enabled_piece(repo_view(*r), opt_repo(orig)),
{
    let w = match orig {
        Some(o) => o.enabled != r.enabled,
        None => !r.enabled,
    };
    if w {
        push_str(out, "  enabled: ");
        push_str(out, if r.enabled { "yes" } else { "no" });
        push_str(out, ";\n");
    } else {
        assert(out@ =~= out@ + Seq::<char>::empty());
    }
}

fn push_mirror_piece(out: &mut String, r: &RepoConfig, orig: Option<&RepoConfig>)
    ensures
        final(out)@ == old(out)@ + mirror_piece(repo_view(*r), opt_repo(orig)),
{
    let w = match orig {
        Some(o) => !str_eq(o.mirror_type.as_str(), r.mirror_type.as_str()),
        None => !str_eq(r.mirror_type.as_str(), "NONE"),
    };
    if w {
        push_str(out, "  mirror_type: \"");
        push_str(out, r.mirror_type.as_str());
        push_str(out, "\";\n");
    } else {
        assert(out@ =~= out@ + Seq::<char>::empty());
    }
}

fn push_signature_piece(out: &mut String, r: &RepoConfig, orig: Option<&RepoConfig>)
    ensures
        final(out)@ == old(out)@ + signature_piece(repo_view(*r), opt_repo(orig)),
{
    let w = match orig {
        Some(o) => !str_eq(o.signature_type.as_str(), r.signature_type.as_str()),
        None => !str_eq(r.signature_type.as_str(), "NONE"),
    };
    if w {
        push_str(out, "  signature_type: \"");
        push_str(out, r.signature_type.as_str());
        push_str(out, "\";\n");
    } else {
        assert(out@ =~= out@ + Seq::<char>::empty());
    }
}

/// The minimal override block of a repository (see `block_diff`).
pub fn render_repo_block_diff(r: &RepoConfig, orig: Option<&RepoConfig>) -> (out: String)
    ensures
        out@ == block_diff(repo_view(*r), opt_repo(orig)),
{
    let ghost rv = repo_view(*r);
    let ghost ov = opt_repo(orig);
    let mut out = r.name.clone();
    push_str(&mut out, ": {\n");
    push_url_piece(&mut out, r, orig);
    push_enabled_piece(&mut out, r, orig);
    push_mirror_piece(&mut out, r, orig);
    push_signature_piece(&mut out, r, orig);
    let w_fp = match orig {
        Some(o) => !opt_eq(&o.fingerprints, &r.fingerprints),
        None => r.fingerprints.is_some(),
    };
    assert(w_fp == differs(ov, |x: RepoView| x.fingerprints, rv, rv.fingerprints is Some));
    push_opt_line(&mut out, w_fp, &r.fingerprints, "fingerprints");
    let w_pk = match orig {
        Some(o) => !opt_eq(&o.pubkey, &r.pubkey),
        None => r.pubkey.is_some(),
    };
    assert(w_pk == differs(ov, |x: RepoView| x.pubkey, rv, rv.pubkey is Some));
    push_opt_line(&mut out, w_pk, &r.pubkey, "pubkey");
    let w_pr = match orig {
        Some(o) => o.priority != r.priority,
        None => r.priority != 0,
    };
    assert(w_pr == differs(ov, |x: RepoView| x.priority, rv, rv.priority != 0));
    push_number_piece(&mut out, w_pr, "priority", r.priority);
    let w_ip = match orig {
        Some(o) => o.ip_version != r.ip_version,
        None => r.ip_version != 0,
    };
    assert(w_ip == differs(ov, |x: RepoView| x.ip_version, rv, rv.ip_version != 0));
    push_number_piece(&mut out, w_ip, "ip_version", r.ip_version);
    push_str(&mut out, "}\n");
    out
}


/// The system repository a name refers to (the last of that name, as a map
/// built from the list keeps it).
pub open spec fn last_repo(sys: Seq<RepoView>, name: Seq<char>) -> Option<RepoView>
    decreases sys.len(),
{
    if sys.len() == 0 {
        None
    } else if sys.last().name == name {
        Some(sys.last())
    } else {
        last_repo(sys.drop_last(), name)
    }
}

pub open spec fn override_fold(rs: Seq<RepoView>, sys: Seq<RepoView>) -> (Seq<char>, nat)
    decreases rs.len(),
{
    if rs.len() == 0 {
        ("# Managed by FreeBSD Web Panel\n\n"@, 0)
    } else {
        let acc = override_fold(rs.drop_last(), sys);
        let r = rs.last();
        let b = block_diff(r, last_repo(sys, r.name));
        if r.is_system_origin || lines(b).len() <= 2 {
            acc
        } else {
            (acc.0 + b + "\n"@, acc.1 + 1)
        }
    }
}

/// The text of an override file: a header, then the minimal block of each
/// repository not of system origin that changes something; `None` when no
/// block remains (the file is then removed).
pub open spec fn override_text(rs: Seq<RepoView>, sys: Seq<RepoView>) -> Option<Seq<char>> {
    let (t, n) = override_fold(rs, sys);
    if n == 0 {
        None
    } else {
        Some(t)
    }
}

fn last_repo_index(sys: &Vec<RepoConfig>, name: &str) -> (r: Option<usize>)
    ensures
        match r {
            Some(i) => i < sys@.len() && last_repo(repos_view(sys@), name@) == Some(
                repo_view(sys@[i as int]),
            ),
            None => last_repo(repos_view(sys@), name@) is None,
        },
{
    let ghost sv = repos_view(sys@);
    let mut j: usize = sys.len();
    assert(sv.take(j as int) =~= sv);
    while j > 0
        invariant
            j <= sys@.len() == sv.len(),
            sv == repos_view(sys@),
            last_repo(sv.take(j as int), name@) == last_repo(sv, name@),
        decreases j,
    {
        assert(sv.take(j as int).last() == repo_view(sys@[j - 1]));
        if str_eq(sys[j - 1].name.as_str(), name) {
            return Some(j - 1);
        }
        assert(sv.take(j as int).drop_last() =~= sv.take(j - 1));
        j -= 1;
    }
    None
}

pub fn override_content(repos: &Vec<RepoConfig>, sys: &Vec<RepoConfig>) -> (r: Option<String>)
    ensures
        opt_seq(r) == override_text(repos_view(repos@), repos_view(sys@)),
{
    let ghost rv = repos_view(repos@);
    let ghost sv = repos_view(sys@);
    let mut content = owned("# Managed by FreeBSD Web Panel\n\n");
    let mut written: usize = 0;
    let mut i: usize = 0;
    assert(rv.take(0) =~= Seq::<RepoView>::empty());
    while i < repos.len()
        invariant
            i <= repos@.len() == rv.len(),
            rv == repos_view(repos@),
            sv == repos_view(sys@),
            written <= i,
            override_fold(rv.take(i as int), sv) == (content@, written as nat),
        decreases repos@.len() - i,
    {
        assert(rv.take(i + 1).drop_last() =~= rv.take(i as int));
        assert(rv.take(i + 1).last() == repo_view(repos@[i as int]));
        let r = &repos[i];
        if !r.is_system_origin {
            let orig = match last_repo_index(sys, r.name.as_str()) {
                Some(k) => Some(&sys[k]),
                None => None,
            };
            let block = render_repo_block_diff(r, orig);
            let ls = split_lines(block.as_str());
            if ls.len() > 2 {
                push_str(&mut content, block.as_str());
                push_str(&mut content, "\n");
                written += 1;
            }
        }
        i += 1;
    }
    assert(rv.take(i as int) =~= rv);
    if written == 0 {
        None
    } else {
        Some(content)
    }
}

/// A submitted repository: types upper-cased (`NONE` when absent),
/// priority and IP version 0 when absent.
pub open spec fn input_repo(i: RepoInput) -> RepoView {
    RepoView {
        name: i.name@,
        url: i.url@,
        enabled: i.enabled,
        mirror_type: unicode_upper(
            match i.mirror_type {
                Some(m) => m@,
                None => "NONE"@,
            },
        ),
        signature_type: unicode_upper(
            match i.signature_type {
                Some(m) => m@,
                None => "NONE"@,
            },
        ),
        fingerprints: opt_seq(i.fingerprints),
        pubkey: opt_seq(i.pubkey),
        priority: match i.priority {
            Some(p) => p,
            None => 0,
        },
        ip_version: match i.ip_version {
            Some(p) => p,
            None => 0,
        },
        is_system_origin: false,
    }
}

fn upper_or_none(o: &Option<String>) -> (r: String)
    ensures
        r@ == unicode_upper(
            match *o {
                Some(m) => m@,
                None => "NONE"@,
            },
        ),
{
    match o {
        Some(m) => to_uppercase_str(m.as_str()),
        None => to_uppercase_str("NONE"),
    }
}

pub fn input_to_config(input: &RepoInput) -> (r: RepoConfig)
    ensures
        repo_view(r) == input_repo(*input),
{
    RepoConfig {
        name: input.name.clone(),
        url: input.url.clone(),
        enabled: input.enabled,
        mirror_type: upper_or_none(&input.mirror_type),
        signature_type: upper_or_none(&input.signature_type),
        fingerprints: clone_opt(&input.fingerprints),
        pubkey: clone_opt(&input.pubkey),
        priority: match input.priority {
            Some(p) => p,
            None => 0,
        },
        ip_version: match input.ip_version {
            Some(p) => p,
            None => 0,
        },
        is_system_origin: false,
    }
}

// ───────────────────────── validation ─────────────────────────

pub open spec fn repo_name_ok(name: Seq<char>) -> bool {
    0 < crate::text::byte_len(name) <= 128 && regex_match(r"^[a-zA-Z0-9_-]+$"@, name) == Some(true)
}

pub fn validate_repo_name(name: &str) -> (r: ApiResult<()>)
    ensures
        r is Ok <==> repo_name_ok(name@),
        !(0 < crate::text::byte_len(name@) <= 128) || regex_match(r"^[a-zA-Z0-9_-]+$"@, name@)
            == Some(false) ==> is_bad_request(r, "invalid repository name"@),
{
    proof {
        crate::text::lemma_byte_len_zero(name@);
    }
    if name.is_empty() || crate::text::bytes_exceed(name, 128) {
        return bad_request("invalid repository name");
    }
    match regex_is_match(r"^[a-zA-Z0-9_-]+$", name) {
        Some(true) => Ok(()),
        Some(false) => bad_request("invalid repository name"),
        None => Err(ApiError::Internal(owned("repository name pattern does not compile"))),
    }
}

/// A repository file name: 1 to 256 bytes, `^[a-zA-Z0-9_.-]+\.conf$`, no
/// `/`, `\` or `..`.
pub open spec fn filename_ok(f: Seq<char>) -> bool {
    &&& 0 < crate::text::byte_len(f) <= 256
    &&& regex_match(r"^[a-zA-Z0-9_.-]+\.conf$"@, f) == Some(true)
    &&& !f.contains('/') && !f.contains('\\') && !crate::text::contains_sub(f, ".."@)
}

pub fn validate_filename(filename: &str) -> (r: ApiResult<()>)
    ensures
        r is Ok <==> filename_ok(filename@),
        !filename_ok(filename@) && regex_match(r"^[a-zA-Z0-9_.-]+\.conf$"@, filename@) is Some
            ==> is_bad_request(r, "invalid filename"@),
{
    proof {
        crate::text::lemma_byte_len_zero(filename@);
    }
    if filename.is_empty() || crate::text::bytes_exceed(filename, 256) {
        return bad_request("invalid filename");
    }
    match regex_is_match(r"^[a-zA-Z0-9_.-]+\.conf$", filename) {
        Some(true) => {},
        Some(false) => {
            return bad_request("invalid filename");
        },
        None => {
            return Err(ApiError::Internal(owned("filename pattern does not compile")));
        },
    }
    if crate::text::contains_char(filename, '/') || crate::text::contains_char(filename, '\\')
        || crate::text::contains_str(filename, "..") {
        return bad_request("invalid filename");
    }
    Ok(())
}

/// A repository URL: 1 to 1024 bytes with a known scheme.
pub open spec fn repo_url_ok(url: Seq<char>) -> bool {
    0 < crate::text::byte_len(url) <= 1024 && regex_match(
        r"^(pkg\+https?|https?|file|ssh|tcp)://"@,
        url,
    ) == Some(true)
}

pub fn validate_url(url: &str) -> (r: ApiResult<()>)
    ensures
        r is Ok <==> repo_url_ok(url@),
        !(0 < crate::text::byte_len(url@) <= 1024) ==> is_bad_request(r, "invalid URL"@),
        0 < crate::text::byte_len(url@) <= 1024 && regex_match(
            r"^(pkg\+https?|https?|file|ssh|tcp)://"@,
            url@,
        ) == Some(false) ==> is_bad_request(r, "invalid URL scheme"@),
{
    proof {
        crate::text::lemma_byte_len_zero(url@);
    }
    if url.is_empty() || crate::text::bytes_exceed(url, 1024) {
        return bad_request("invalid URL");
    }
    match regex_is_match(r"^(pkg\+https?|https?|file|ssh|tcp)://", url) {
        Some(true) => Ok(()),
        Some(false) => bad_request("invalid URL scheme"),
        None => Err(ApiError::Internal(owned("URL pattern does not compile"))),
    }
}

pub fn validate_mirror_type(mt: &str) -> (r: ApiResult<()>)
    ensures
        r is Ok <==> (mt@ == "NONE"@ || mt@ == "HTTP"@ || mt@ == "SRV"@),
        r is Err ==> is_bad_request(r, "invalid mirror_type"@),
{
    if str_eq(mt, "NONE") || str_eq(mt, "HTTP") || str_eq(mt, "SRV") {
        Ok(())
    } else {
        bad_request("invalid mirror_type")
    }
}

pub fn validate_signature_type(st: &str) -> (r: ApiResult<()>)
    ensures
        r is Ok <==> (st@ == "NONE"@ || st@ == "PUBKEY"@ || st@ == "FINGERPRINTS"@),
        r is Err ==> is_bad_request(r, "invalid signature_type"@),
{
    if str_eq(st, "NONE") || str_eq(st, "PUBKEY") || str_eq(st, "FINGERPRINTS") {
        Ok(())
    } else {
        bad_request("invalid signature_type")
    }
}


// ───────────────────────── changing a file's repositories ─────────────────────────

/// First repository with the given name.
pub open spec fn find_repo(rs: Seq<RepoView>, name: Seq<char>) -> Option<int>
    decreases rs.len(),
{
    if rs.len() == 0 {
        None
    } else if rs[0].name == name {
        Some(0)
    } else {
        match find_repo(rs.drop_first(), name) {
            Some(i) => Some(i + 1),
            None => None,
        }
    }
}

proof fn lemma_find_repo(rs: Seq<RepoView>, name: Seq<char>, i: int)
    requires
        0 <= i <= rs.len(),
        forall|k: int| 0 <= k < i ==> rs[k].name != name,
        i == rs.len() || rs[i].name == name,
    ensures
        find_repo(rs, name) == if i == rs.len() {
            None::<int>
        } else {
            Some(i)
        },
    decreases i,
{
    if i > 0 {
        let t = rs.drop_first();
        assert forall|k: int| 0 <= k < i - 1 implies t[k].name != name by {
            assert(t[k] == rs[k + 1]);
        }
        if i < rs.len() {
            assert(t[i - 1] == rs[i]);
        }
        lemma_find_repo(t, name, i - 1);
    }
}

fn repo_index(rs: &Vec<RepoConfig>, name: &str) -> (r: Option<usize>)
    ensures
        match r {
            Some(i) => find_repo(repos_view(rs@), name@) == Some(i as int) && i < rs@.len(),
            None => find_repo(repos_view(rs@), name@) is None,
        },
{
    let ghost rv = repos_view(rs@);
    let mut j: usize = 0;
    while j < rs.len()
        invariant
            j <= rs@.len() == rv.len(),
            rv == repos_view(rs@),
            forall|k: int| 0 <= k < j ==> rv[k].name != name@,
        decreases rs@.len() - j,
    {
        if str_eq(rs[j].name.as_str(), name) {
            proof {
                lemma_find_repo(rv, name@, j as int);
            }
            return Some(j);
        }
        j += 1;
    }
    proof {
        lemma_find_repo(rv, name@, j as int);
    }
    None
}

fn quote3(a: &str, b: &str, c: &str, d: &str, e: &str) -> (r: String)
    ensures
        r@ == a@ + b@ + c@ + d@ + e@,
{
    let mut s = owned(a);
    push_str(&mut s, b);
    push_str(&mut s, c);
    push_str(&mut s, d);
    push_str(&mut s, e);
    s
}

/// Adds a submitted repository at the end of a file's list, unless the
/// file already has one of that name (`Conflict`, list unchanged).
pub fn add_repo(repos: &mut Vec<RepoConfig>, input: &RepoInput, filename: &str) -> (r: ApiResult<
    (),
>)
    ensures
        match find_repo(repos_view(old(repos)@), input.name@) {
            Some(_) => is_conflict(
                r,
                "repository '"@ + input.name@ + "' already exists in "@ + filename@,
            ) && final(repos)@ == old(repos)@,
            None => r is Ok && repos_view(final(repos)@) == repos_view(old(repos)@).push(
                input_repo(*input),
            ),
        },
{
    proof {
        reveal_strlit("");
    }
    match repo_index(repos, input.name.as_str()) {
        Some(_) => {
            let m = quote3("repository '", input.name.as_str(), "' already exists in ", filename, "");
            assert(m@ =~= "repository '"@ + input.name@ + "' already exists in "@ + filename@);
            Err(ApiError::Conflict(m))
        },
        None => {
            let ghost o = repos@;
            let c = input_to_config(input);
            repos.push(c);
            assert(repos_view(repos@) =~= repos_view(o).push(input_repo(*input)));
            proof {
                reveal_strlit("");
            }
            Ok(())
        },
    }
}

/// Puts `cfg` in place of the first repository of its name, or at the end.
pub fn upsert_repo(repos: &mut Vec<RepoConfig>, cfg: RepoConfig)
    ensures
        repos_view(final(repos)@) == match find_repo(repos_view(old(repos)@), cfg.name@) {
            Some(i) => repos_view(old(repos)@).update(i, repo_view(cfg)),
            None => repos_view(old(repos)@).push(repo_view(cfg)),
        },
{
    let ghost o = repos@;
    match repo_index(repos, cfg.name.as_str()) {
        Some(i) => {
            let _old = repos.remove(i);
            repos.insert(i, cfg);
            assert(repos@ =~= o.update(i as int, cfg));
            assert(repos_view(repos@) =~= repos_view(o).update(i as int, repo_view(cfg)));
        },
        None => {
            repos.push(cfg);
            assert(repos_view(repos@) =~= repos_view(o).push(repo_view(cfg)));
        },
    }
}

/// The repository an update request describes (types upper-cased, `NONE`
/// when absent).
pub fn update_config(name: &str, req: &UpdateRepoRequest) -> (r: RepoConfig)
    ensures
        repo_view(r) == (RepoView {
            name: name@,
            url: req.url@,
            enabled: req.enabled,
            mirror_type: unicode_upper(
                match req.mirror_type {
                    Some(m) => m@,
                    None => "NONE"@,
                },
            ),
            signature_type: unicode_upper(
                match req.signature_type {
                    Some(m) => m@,
                    None => "NONE"@,
                },
            ),
            fingerprints: opt_seq(req.fingerprints),
            pubkey: opt_seq(req.pubkey),
            priority: match req.priority {
                Some(p) => p,
                None => 0,
            },
            ip_version: match req.ip_version {
                Some(p) => p,
                None => 0,
            },
            is_system_origin: false,
        }),
{
    RepoConfig {
        name: owned(name),
        url: req.url.clone(),
        enabled: req.enabled,
        mirror_type: upper_or_none(&req.mirror_type),
        signature_type: upper_or_none(&req.signature_type),
        fingerprints: clone_opt(&req.fingerprints),
        pubkey: clone_opt(&req.pubkey),
        priority: match req.priority {
            Some(p) => p,
            None => 0,
        },
        ip_version: match req.ip_version {
            Some(p) => p,
            None => 0,
        },
        is_system_origin: false,
    }
}

/// Takes every repository named `name` out of a file's list; `NotFound`
/// (list unchanged) when there is none.
pub fn remove_repo(repos: &mut Vec<RepoConfig>, name: &str, path: &str) -> (r: ApiResult<()>)
    ensures
        final(repos)@ == old(repos)@.filter(|c: RepoConfig| c.name@ != name@),
        r is Ok <==> find_repo(repos_view(old(repos)@), name@) is Some,
        r is Err ==> is_not_found(r, "repository '"@ + name@ + "' not found in "@ + path@),
{
    let ghost old_v = repos@;
    let ghost keep = |c: RepoConfig| c.name@ != name@;
    let found = repo_index(repos, name).is_some();
    let mut i: usize = 0;
    let ghost mut j: int = 0;
    assert(old_v.take(0).filter(keep) =~= Seq::<RepoConfig>::empty());
    assert(old_v.skip(0) =~= old_v);
    while i < repos.len()
        invariant
            0 <= j <= old_v.len(),
            repos@ == old_v.take(j).filter(keep) + old_v.skip(j),
            i == old_v.take(j).filter(keep).len(),
            keep == (|c: RepoConfig| c.name@ != name@),
        decreases repos@.len() - i,
    {
        assert(repos@[i as int] == old_v[j]);
        assert(old_v.take(j + 1) =~= old_v.take(j).push(old_v[j]));
        proof {
            old_v.take(j).lemma_filter_push(old_v[j], keep);
        }
        if str_eq(repos[i].name.as_str(), name) {
            let _gone = repos.remove(i);
            assert(repos@ =~= old_v.take(j + 1).filter(keep) + old_v.skip(j + 1));
        } else {
            assert(repos@ =~= old_v.take(j + 1).filter(keep) + old_v.skip(j + 1));
            i += 1;
        }
        proof {
            j = j + 1;
        }
    }
    proof {
        assert(j == old_v.len()) by {
            if j < old_v.len() {
                assert(repos@.len() > i);
            }
        }
        assert(old_v.take(j) =~= old_v);
        assert(old_v.skip(j) =~= Seq::<RepoConfig>::empty());
        assert(repos@ =~= old_v.filter(keep));
    }
    if !found {
        proof {
            reveal_strlit("");
        }
        let m = quote3("repository '", name, "' not found in ", path, "");
        assert(m@ =~= "repository '"@ + name@ + "' not found in "@ + path@);
        return Err(ApiError::NotFound(m));
    }
    Ok(())
}

// ───────────────────────── system and user files ─────────────────────────

/// A repository file as read from one directory.
#[derive(Debug, Clone)]
pub struct RepoSource {
    pub filename: String,
    pub path: String,
    pub repos: Vec<RepoConfig>,
}

/// File names strictly ascend (one directory, listed in order).
pub open spec fn sources_ascending(s: Seq<RepoSource>) -> bool {
    forall|i: int, j: int|
        0 <= i < j < s.len() ==> crate::text::str_lt(#[trigger] s[i].filename@, #[trigger] s[j].filename@)
}

pub open spec fn has_file(s: Seq<RepoSource>, f: Seq<char>) -> bool {
    exists|j: int| 0 <= j < s.len() && #[trigger] s[j].filename@ == f
}

/// The file named `f` (meaningful when `has_file`).
pub open spec fn file_in(s: Seq<RepoSource>, f: Seq<char>) -> RepoSource {
    s[choose|j: int| 0 <= j < s.len() && #[trigger] s[j].filename@ == f]
}

proof fn lemma_file_at(s: Seq<RepoSource>, j: int)
    requires
        sources_ascending(s),
        0 <= j < s.len(),
    ensures
        has_file(s, s[j].filename@),
        file_in(s, s[j].filename@) == s[j],
{
    assert(has_file(s, s[j].filename@));
    let c = choose|c: int| 0 <= c < s.len() && #[trigger] s[c].filename@ == s[j].filename@;
    if c != j {
        crate::text::lemma_str_lt_irreflexive(s[j].filename@);
        if c < j {
            assert(crate::text::str_lt(s[c].filename@, s[j].filename@));
        } else {
            assert(crate::text::str_lt(s[j].filename@, s[c].filename@));
        }
    }
}

pub open spec fn as_system(r: RepoView) -> RepoView {
    RepoView { is_system_origin: true, ..r }
}

/// The last repository named `name`, if any.
pub open spec fn last_named(rs: Seq<RepoView>, name: Seq<char>) -> Option<RepoView>
    decreases rs.len(),
{
    if rs.len() == 0 {
        None
    } else if rs.last().name == name {
        Some(rs.last())
    } else {
        last_named(rs.drop_last(), name)
    }
}

pub open spec fn names_of(rs: Seq<RepoView>) -> Seq<Seq<char>> {
    rs.map_values(|r: RepoView| r.name)
}

/// A user file over the system file of the same name: the system
/// repositories that the user file does not name, then each user
/// repository laid over the last system repository of its name, if any.
pub open spec fn merged_repos(sys: Seq<RepoView>, user: Seq<RepoView>) -> Seq<RepoView> {
    sys.filter(|r: RepoView| !names_of(user).contains(r.name)) + user.map_values(
        |u: RepoView|
            match last_named(sys, u.name) {
                Some(b) => merged(b, u),
                None => u,
            },
    )
}

/// The system repositories of file `f`, marked as such; none without one.
pub open spec fn system_repos(sys: Seq<RepoSource>, f: Seq<char>) -> Seq<RepoView> {
    if has_file(sys, f) {
        repos_view(file_in(sys, f).repos@).map_values(|r: RepoView| as_system(r))
    } else {
        Seq::empty()
    }
}

/// What the listing says of file `out.filename`: the user file, merged
/// over the system one, where there is a user file; else the system file.
pub open spec fn listed_file(out: RepoFile, sys: Seq<RepoSource>, user: Seq<RepoSource>) -> bool {
    let f = out.filename@;
    if has_file(user, f) {
        &&& out.path@ == file_in(user, f).path@
        &&& !out.is_system
        &&& repos_view(out.repos@) == merged_repos(system_repos(sys, f), repos_view(file_in(user, f).repos@))
    } else {
        &&& has_file(sys, f)
        &&& out.path@ == file_in(sys, f).path@
        &&& out.is_system
        &&& repos_view(out.repos@) == system_repos(sys, f)
    }
}

fn copy_repo(r: &RepoConfig, system: bool) -> (c: RepoConfig)
    ensures
        repo_view(c) == (RepoView { is_system_origin: system, ..repo_view(*r) }),
{
    RepoConfig {
        name: r.name.clone(),
        url: r.url.clone(),
        enabled: r.enabled,
        mirror_type: r.mirror_type.clone(),
        signature_type: r.signature_type.clone(),
        fingerprints: clone_opt(&r.fingerprints),
        pubkey: clone_opt(&r.pubkey),
        priority: r.priority,
        ip_version: r.ip_version,
        is_system_origin: system,
    }
}

fn mark_system(repos: &Vec<RepoConfig>) -> (r: Vec<RepoConfig>)
    ensures
        repos_view(r@) == repos_view(repos@).map_values(|x: RepoView| as_system(x)),
{
    let mut out: Vec<RepoConfig> = Vec::new();
    let mut i: usize = 0;
    while i < repos.len()
        invariant
            i <= repos@.len(),
            repos_view(out@) == repos_view(repos@).take(i as int).map_values(|x: RepoView| as_system(x)),
        decreases repos@.len() - i,
    {
        let c = copy_repo(&repos[i], true);
        out.push(c);
        assert(repos_view(repos@).take(i + 1).map_values(|x: RepoView| as_system(x)) =~= repos_view(
            repos@,
        ).take(i as int).map_values(|x: RepoView| as_system(x)).push(as_system(repo_view(repos@[i as int]))));
        assert(repos_view(out@) =~= repos_view(repos@).take(i + 1).map_values(|x: RepoView| as_system(x)));
        i += 1;
    }
    assert(repos_view(repos@).take(repos@.len() as int) =~= repos_view(repos@));
    out
}

fn names_contain(rs: &Vec<RepoConfig>, name: &String) -> (b: bool)
    ensures
        b == names_of(repos_view(rs@)).contains(name@),
{
    let mut i: usize = 0;
    while i < rs.len()
        invariant
            i <= rs@.len(),
            forall|k: int| 0 <= k < i ==> rs@[k].name@ != name@,
        decreases rs@.len() - i,
    {
        if crate::text::string_eq(&rs[i].name, name) {
            assert(names_of(repos_view(rs@))[i as int] == name@);
            return true;
        }
        i += 1;
    }
    assert forall|k: int| 0 <= k < names_of(repos_view(rs@)).len() implies names_of(repos_view(rs@))[k] != name@ by {
        assert(names_of(repos_view(rs@))[k] == rs@[k].name@);
    }
    false
}

fn last_named_index(rs: &Vec<RepoConfig>, name: &String) -> (r: Option<usize>)
    ensures
        match r {
            Some(i) => i < rs@.len() && last_named(repos_view(rs@), name@) == Some(repo_view(rs@[i as int])),
            None => last_named(repos_view(rs@), name@) is None,
        },
{
    let mut i: usize = rs.len();
    assert(repos_view(rs@).take(rs@.len() as int) =~= repos_view(rs@));
    while i > 0
        invariant
            i <= rs@.len(),
            last_named(repos_view(rs@), name@) == last_named(repos_view(rs@).take(i as int), name@),
        decreases i,
    {
        let ghost t = repos_view(rs@).take(i as int);
        assert(t.drop_last() =~= repos_view(rs@).take(i - 1));
        assert(t.last() == repo_view(rs@[i - 1]));
        if crate::text::string_eq(&rs[i - 1].name, name) {
            return Some(i - 1);
        }
        i -= 1;
    }
    assert(repos_view(rs@).take(0) =~= Seq::<RepoView>::empty());
    None
}

/// A user file's repositories laid over the system file's (already marked).
fn merge_user_repos(sys: &Vec<RepoConfig>, user: &Vec<RepoConfig>) -> (r: Vec<RepoConfig>)
    ensures
        repos_view(r@) == merged_repos(repos_view(sys@), repos_view(user@)),
{
    let ghost sv = repos_view(sys@);
    let ghost uv = repos_view(user@);
    let ghost keep = |r: RepoView| !names_of(uv).contains(r.name);
    let mut out: Vec<RepoConfig> = Vec::new();
    let mut i: usize = 0;
    while i < sys.len()
        invariant
            i <= sys@.len(),
            sv == repos_view(sys@),
            uv == repos_view(user@),
            keep == (|r: RepoView| !names_of(uv).contains(r.name)),
            repos_view(out@) == sv.take(i as int).filter(keep),
        decreases sys@.len() - i,
    {
        assert(sv.take(i + 1) =~= sv.take(i as int).push(sv[i as int]));
        proof {
            sv.take(i as int).lemma_filter_push(sv[i as int], keep);
        }
        assert(sv[i as int] == repo_view(sys@[i as int]));
        if !names_contain(user, &sys[i].name) {
            let c = copy_repo(&sys[i], sys[i].is_system_origin);
            assert(repo_view(c) == sv[i as int]);
            let ghost before = out@;
            out.push(c);
            assert(repos_view(out@) =~= repos_view(before).push(repo_view(c)));
            assert(repos_view(out@) =~= sv.take(i as int).filter(keep).push(sv[i as int]));
        } else {
            assert(repos_view(out@) =~= sv.take(i as int).filter(keep));
        }
        i += 1;
    }
    assert(sv.take(sys@.len() as int) =~= sv);
    let ghost head = repos_view(out@);
    let ghost over = |u: RepoView|
        match last_named(sv, u.name) {
            Some(b) => merged(b, u),
            None => u,
        };
    let mut j: usize = 0;
    while j < user.len()
        invariant
            j <= user@.len(),
            sv == repos_view(sys@),
            uv == repos_view(user@),
            over == (|u: RepoView|
                match last_named(sv, u.name) {
                    Some(b) => merged(b, u),
                    None => u,
                }),
            repos_view(out@) == head + uv.take(j as int).map_values(over),
        decreases user@.len() - j,
    {
        let c = match last_named_index(sys, &user[j].name) {
            Some(b) => merge_repo(&sys[b], &user[j]),
            None => copy_repo(&user[j], user[j].is_system_origin),
        };
        assert(repo_view(c) == over(uv[j as int]));
        let ghost before = out@;
        out.push(c);
        assert(repos_view(out@) =~= repos_view(before).push(repo_view(c)));
        assert(uv.take(j + 1).map_values(over) =~= uv.take(j as int).map_values(over).push(over(uv[j as int])));
        assert(repos_view(out@) =~= head + uv.take(j + 1).map_values(over));
        j += 1;
    }
    assert(uv.take(user@.len() as int) =~= uv);
    out
}

fn file_of(sys: Option<&RepoSource>, user: Option<&RepoSource>) -> (r: RepoFile)
    requires
        sys is Some || user is Some,
    ensures
        match user {
            Some(u) => {
                &&& r.filename@ == u.filename@
                &&& r.path@ == u.path@
                &&& !r.is_system
                &&& repos_view(r.repos@) == merged_repos(
                    match sys {
                        Some(s) => repos_view(s.repos@).map_values(|x: RepoView| as_system(x)),
                        None => Seq::empty(),
                    },
                    repos_view(u.repos@),
                )
            },
            None => {
                &&& r.filename@ == sys.unwrap().filename@
                &&& r.path@ == sys.unwrap().path@
                &&& r.is_system
                &&& repos_view(r.repos@) == repos_view(sys.unwrap().repos@).map_values(
                    |x: RepoView| as_system(x),
                )
            },
        },
{
    match user {
        Some(u) => {
            let base = match sys {
                Some(s) => mark_system(&s.repos),
                None => Vec::new(),
            };
            assert(repos_view(base@) == match sys {
                Some(s) => repos_view(s.repos@).map_values(|x: RepoView| as_system(x)),
                None => Seq::<RepoView>::empty(),
            }) by {
                if sys is None {
                    assert(repos_view(base@) =~= Seq::<RepoView>::empty());
                }
            }
            RepoFile {
                path: u.path.clone(),
                filename: u.filename.clone(),
                is_system: false,
                repos: merge_user_repos(&base, &u.repos),
            }
        },
        None => {
            let s = sys.unwrap();
            RepoFile {
                path: s.path.clone(),
                filename: s.filename.clone(),
                is_system: true,
                repos: mark_system(&s.repos),
            }
        },
    }
}

pub open spec fn has_listed(r: Seq<RepoFile>, f: Seq<char>) -> bool {
    exists|k: int| 0 <= k < r.len() && #[trigger] r[k].filename@ == f
}

proof fn lemma_has_file_step(s: Seq<RepoSource>, i: int)
    requires
        0 <= i < s.len(),
    ensures
        forall|g: Seq<char>|
            #![trigger has_file(s.take(i + 1), g)]
            has_file(s.take(i + 1), g) <==> (has_file(s.take(i), g) || s[i].filename@ == g),
{
    assert forall|g: Seq<char>| #![trigger has_file(s.take(i + 1), g)]
        has_file(s.take(i + 1), g) <==> (has_file(s.take(i), g) || s[i].filename@ == g) by {
        if has_file(s.take(i + 1), g) {
            let c = choose|c: int| 0 <= c < s.take(i + 1).len() && #[trigger] s.take(i + 1)[c].filename@ == g;
            if c < i {
                assert(s.take(i)[c] == s[c]);
            }
        }
        if has_file(s.take(i), g) {
            let c = choose|c: int| 0 <= c < s.take(i).len() && #[trigger] s.take(i)[c].filename@ == g;
            assert(s.take(i + 1)[c] == s[c]);
        }
        if s[i].filename@ == g {
            assert(s.take(i + 1)[i] == s[i]);
        }
    }
}

/// A name below the next file of an ascending list, and not among the
/// files before it, is in no file of the list.
proof fn lemma_absent(s: Seq<RepoSource>, j: int, f: Seq<char>)
    requires
        sources_ascending(s),
        0 <= j <= s.len(),
        j < s.len() ==> crate::text::str_lt(f, s[j].filename@),
        !has_file(s.take(j), f),
    ensures
        !has_file(s, f),
{
    if has_file(s, f) {
        let c = choose|c: int| 0 <= c < s.len() && #[trigger] s[c].filename@ == f;
        crate::text::lemma_str_lt_irreflexive(f);
        if c < j {
            assert(s.take(j)[c].filename@ == f);
        } else if c > j {
            crate::text::lemma_str_lt_trans(f, s[j].filename@, s[c].filename@);
        }
    }
}

proof fn lemma_listed_step(out: Seq<RepoFile>, x: RepoFile)
    ensures
        forall|g: Seq<char>|
            #![trigger has_listed(out.push(x), g)]
            has_listed(out.push(x), g) <==> (has_listed(out, g) || x.filename@ == g),
{
    let o = out.push(x);
    assert forall|g: Seq<char>| #![trigger has_listed(o, g)]
        has_listed(o, g) <==> (has_listed(out, g) || x.filename@ == g) by {
        if has_listed(o, g) {
            let c = choose|c: int| 0 <= c < o.len() && #[trigger] o[c].filename@ == g;
            if c < out.len() {
                assert(o[c] == out[c]);
            }
        }
        if has_listed(out, g) {
            let c = choose|c: int| 0 <= c < out.len() && #[trigger] out[c].filename@ == g;
            assert(o[c] == out[c]);
        }
        if x.filename@ == g {
            assert(o[out.len() as int] == x);
        }
    }
}

/// The repository files of both directories, in name order: a file of the
/// user directory is laid over the system file of the same name, and a
/// system file without a user file is listed as it is.
fn merge_repo_files(sys: &Vec<RepoSource>, user: &Vec<RepoSource>) -> (r: Vec<RepoFile>)
    requires
        sources_ascending(sys@),
        sources_ascending(user@),
    ensures
        forall|i: int, j: int|
            0 <= i < j < r@.len() ==> crate::text::str_lt(#[trigger] r@[i].filename@, #[trigger] r@[j].filename@),
        forall|f: Seq<char>|
            #![trigger has_listed(r@, f)]
            has_listed(r@, f) <==> (has_file(sys@, f) || has_file(user@, f)),
        forall|k: int| 0 <= k < r@.len() ==> listed_file(#[trigger] r@[k], sys@, user@),
{
    let ghost sv = sys@;
    let ghost uv = user@;
    let mut out: Vec<RepoFile> = Vec::new();
    let mut i: usize = 0;
    let mut j: usize = 0;
    assert(sv.take(0) =~= Seq::<RepoSource>::empty());
    assert(uv.take(0) =~= Seq::<RepoSource>::empty());
    while i < sys.len() || j < user.len()
        invariant
            i <= sv.len(),
            j <= uv.len(),
            sv == sys@,
            uv == user@,
            sources_ascending(sv),
            sources_ascending(uv),
            forall|a: int, b: int|
                0 <= a < b < out@.len() ==> crate::text::str_lt(#[trigger] out@[a].filename@, #[trigger] out@[b].filename@),
            forall|k: int| 0 <= k < out@.len() ==> listed_file(#[trigger] out@[k], sv, uv),
            forall|g: Seq<char>|
                #![trigger has_listed(out@, g)]
                has_listed(out@, g) <==> (has_file(sv.take(i as int), g) || has_file(uv.take(j as int), g)),
            forall|k: int|
                0 <= k < out@.len() ==> (i < sv.len() ==> crate::text::str_lt(#[trigger] out@[k].filename@, sv[i as int].filename@)),
            forall|k: int|
                0 <= k < out@.len() ==> (j < uv.len() ==> crate::text::str_lt(#[trigger] out@[k].filename@, uv[j as int].filename@)),
        decreases sv.len() + uv.len() - i - j,
    {
        let take_sys = i < sys.len() && (j >= user.len() || crate::text::string_lt(&sys[i].filename, &user[j].filename)
            || crate::text::string_eq(&sys[i].filename, &user[j].filename));
        let take_user = j < user.len() && (i >= sys.len() || !crate::text::string_lt(&sys[i].filename, &user[j].filename));
        proof {
            if i < sv.len() && j < uv.len() {
                crate::text::lemma_str_lt_total(sv[i as int].filename@, uv[j as int].filename@);
            }
        }
        let ghost f: Seq<char> = if take_sys { sv[i as int].filename@ } else { uv[j as int].filename@ };
        let x = if take_sys && take_user {
            file_of(Some(&sys[i]), Some(&user[j]))
        } else if take_sys {
            file_of(Some(&sys[i]), None)
        } else {
            file_of(None, Some(&user[j]))
        };
        assert(x.filename@ == f);
        proof {
            crate::text::lemma_str_lt_irreflexive(f);
            if take_sys {
                lemma_file_at(sv, i as int);
            }
            if take_user {
                lemma_file_at(uv, j as int);
            }
            // `f` is not among the files already listed
            assert(!has_listed(out@, f)) by {
                if has_listed(out@, f) {
                    let c = choose|c: int| 0 <= c < out@.len() && #[trigger] out@[c].filename@ == f;
                    if take_sys {
                        assert(crate::text::str_lt(out@[c].filename@, sv[i as int].filename@));
                    } else {
                        assert(crate::text::str_lt(out@[c].filename@, uv[j as int].filename@));
                    }
                }
            }
            if !take_user {
                lemma_absent(uv, j as int, f);
            }
            if !take_sys {
                lemma_absent(sv, i as int, f);
            }
            assert(listed_file(x, sv, uv));
        }
        let ghost o0 = out@;
        out.push(x);
        proof {
            lemma_listed_step(o0, x);
            if take_sys {
                lemma_has_file_step(sv, i as int);
            }
            if take_user {
                lemma_has_file_step(uv, j as int);
            }
        }
        let ghost i0 = i as int;
        let ghost j0 = j as int;
        if take_sys {
            i += 1;
        }
        if take_user {
            j += 1;
        }
        proof {
            assert forall|a: int, b: int| 0 <= a < b < out@.len() implies crate::text::str_lt(
                #[trigger] out@[a].filename@,
                #[trigger] out@[b].filename@,
            ) by {
                if b == o0.len() {
                    assert(out@[a] == o0[a]);
                    if i0 < sv.len() && take_sys {
                        assert(crate::text::str_lt(o0[a].filename@, sv[i0].filename@));
                    } else {
                        assert(crate::text::str_lt(o0[a].filename@, uv[j0].filename@));
                    }
                } else {
                    assert(out@[a] == o0[a] && out@[b] == o0[b]);
                }
            }
            assert forall|k: int| 0 <= k < out@.len() implies listed_file(#[trigger] out@[k], sv, uv) by {
                if k < o0.len() {
                    assert(out@[k] == o0[k]);
                }
            }
            assert forall|k: int| 0 <= k < out@.len() implies (i < sv.len() ==> crate::text::str_lt(
                #[trigger] out@[k].filename@,
                sv[i as int].filename@,
            )) by {
                if i < sv.len() {
                    if take_sys {
                        assert(crate::text::str_lt(sv[i0].filename@, sv[i as int].filename@));
                        if k < o0.len() {
                            assert(out@[k] == o0[k]);
                            crate::text::lemma_str_lt_trans(o0[k].filename@, sv[i0].filename@, sv[i as int].filename@);
                        }
                    } else {
                        if k < o0.len() {
                            assert(out@[k] == o0[k]);
                        }
                    }
                }
            }
            assert forall|k: int| 0 <= k < out@.len() implies (j < uv.len() ==> crate::text::str_lt(
                #[trigger] out@[k].filename@,
                uv[j as int].filename@,
            )) by {
                if j < uv.len() {
                    if take_user {
                        assert(crate::text::str_lt(uv[j0].filename@, uv[j as int].filename@));
                        if k < o0.len() {
                            assert(out@[k] == o0[k]);
                            crate::text::lemma_str_lt_trans(o0[k].filename@, uv[j0].filename@, uv[j as int].filename@);
                        }
                    } else {
                        if k < o0.len() {
                            assert(out@[k] == o0[k]);
                        }
                    }
                }
            }
        }
    }
    assert(sv.take(sv.len() as int) =~= sv);
    assert(uv.take(uv.len() as int) =~= uv);
    out
}

/// Where an edit of the repository file `file` is written. A file of the
/// system directory is overridden by the user file of the same base name
/// (the `bool` is then `true`: the user directory must be made to exist); a
/// user file is written in place; any other path is refused.
pub fn resolve_target_file(file: &str, repo_name: &str) -> (r: ApiResult<(String, bool)>)
    ensures
        starts_with(file@, "/etc/pkg"@) ==> match crate::text::path_file_name(file@) {
            None => is_bad_request(r, "invalid file path"@),
            Some(b) => {
                &&& (r is Ok <==> filename_ok(b))
                &&& (r matches Ok((p, create)) ==> p@ == "/usr/local/etc/pkg/repos/"@ + b && create)
                &&& (!filename_ok(b) && regex_match(r"^[a-zA-Z0-9_.-]+\.conf$"@, b) is Some
                    ==> is_bad_request(r, "invalid filename"@))
            },
        },
        !starts_with(file@, "/etc/pkg"@) && starts_with(file@, "/usr/local/etc/pkg/repos"@) ==> (r
            matches Ok((p, create)) && p@ == file@ && !create),
        !starts_with(file@, "/etc/pkg"@) && !starts_with(file@, "/usr/local/etc/pkg/repos"@)
            ==> is_bad_request(r, "file must be within pkg config directories"@),
{
    let _ = repo_name;
    if starts_with_str(file, "/etc/pkg") {
        let basename = match crate::text::file_name_of(file) {
            Some(b) => b,
            None => return bad_request("invalid file path"),
        };
        validate_filename(basename.as_str())?;
        let mut p = owned("/usr/local/etc/pkg/repos/");
        push_str(&mut p, basename.as_str());
        Ok((p, true))
    } else if starts_with_str(file, "/usr/local/etc/pkg/repos") {
        Ok((owned(file), false))
    } else {
        bad_request("file must be within pkg config directories")
    }
}

// ───────────────────────── reading both directories ─────────────────────────

/// The last file named `f` in a directory listing, if any (a later entry
/// of the same name replaces an earlier one).
pub open spec fn last_src(v: Seq<RepoSource>, f: Seq<char>) -> Option<RepoSource>
    decreases v.len(),
{
    if v.len() == 0 {
        None
    } else if v.last().filename@ == f {
        Some(v.last())
    } else {
        last_src(v.drop_last(), f)
    }
}

/// `listed_file`, over the files of the listings as read.
pub open spec fn listed_from(out: RepoFile, sys: Seq<RepoSource>, user: Seq<RepoSource>) -> bool {
    let f = out.filename@;
    let sysr = match last_src(sys, f) {
        Some(s) => repos_view(s.repos@).map_values(|r: RepoView| as_system(r)),
        None => Seq::empty(),
    };
    match last_src(user, f) {
        Some(u) => {
            &&& out.path@ == u.path@
            &&& !out.is_system
            &&& repos_view(out.repos@) == merged_repos(sysr, repos_view(u.repos@))
        },
        None => {
            &&& last_src(sys, f) is Some
            &&& out.path@ == last_src(sys, f)->0.path@
            &&& out.is_system
            &&& repos_view(out.repos@) == sysr
        },
    }
}

/// Puts `x` in a name-ordered list: in place of the file of its name, or
/// where its name belongs.
fn put_source(out: &mut Vec<RepoSource>, x: RepoSource)
    requires
        sources_ascending(old(out)@),
    ensures
        sources_ascending(final(out)@),
        forall|f: Seq<char>| #[trigger] has_file(final(out)@, f) == (has_file(old(out)@, f) || f == x.filename@),
        forall|f: Seq<char>|
            #[trigger] has_file(final(out)@, f) ==> file_in(final(out)@, f) == if f == x.filename@ {
                x
            } else {
                file_in(old(out)@, f)
            },
{
    let ghost o = out@;
    let ghost xf = x.filename@;
    let mut p: usize = 0;
    while p < out.len() && crate::text::string_lt(&out[p].filename, &x.filename)
        invariant
            p <= out@.len(),
            o == out@,
            xf == x.filename@,
            forall|a: int| 0 <= a < p ==> crate::text::str_lt(#[trigger] o[a].filename@, xf),
        decreases out@.len() - p,
    {
        p += 1;
    }
    let ghost kp = p as int;
    if p < out.len() && crate::text::string_eq(&out[p].filename, &x.filename) {
        let _old = out.remove(p);
        out.insert(p, x);
        let ghost f2 = out@;
        assert(f2 =~= o.update(kp, x));
        assert forall|i: int, j: int| 0 <= i < j < f2.len() implies crate::text::str_lt(#[trigger] f2[i].filename@, #[trigger] f2[j].filename@) by {
            assert(crate::text::str_lt(o[i].filename@, o[j].filename@));
        }
        assert forall|f: Seq<char>| #[trigger] has_file(f2, f) == (has_file(o, f) || f == xf) by {
            if has_file(f2, f) {
                let j = choose|j: int| 0 <= j < f2.len() && #[trigger] f2[j].filename@ == f;
                assert(o[j].filename@ == f2[j].filename@);
            }
            if has_file(o, f) {
                let j = choose|j: int| 0 <= j < o.len() && #[trigger] o[j].filename@ == f;
                assert(f2[j].filename@ == o[j].filename@);
            }
            if f == xf {
                assert(f2[kp].filename@ == f);
            }
        }
        assert forall|f: Seq<char>| #[trigger] has_file(f2, f) implies file_in(f2, f) == if f == xf { x } else { file_in(o, f) } by {
            let j = choose|j: int| 0 <= j < f2.len() && #[trigger] f2[j].filename@ == f;
            lemma_file_at(f2, j);
            if j != kp {
                lemma_file_at(o, j);
                crate::text::lemma_str_lt_irreflexive(f);
                if j < kp {
                    assert(crate::text::str_lt(f2[j].filename@, f2[kp].filename@));
                } else {
                    assert(crate::text::str_lt(f2[kp].filename@, f2[j].filename@));
                }
            }
        }
    } else {
        proof {
            if p < out@.len() {
                crate::text::lemma_str_lt_total(xf, o[kp].filename@);
            }
        }
        out.insert(p, x);
        let ghost f2 = out@;
        assert(f2 =~= o.insert(kp, x));
        assert forall|i: int, j: int| 0 <= i < j < f2.len() implies crate::text::str_lt(#[trigger] f2[i].filename@, #[trigger] f2[j].filename@) by {
            if j < kp {
            } else if j == kp {
            } else if i < kp {
                assert(f2[j] == o[j - 1]);
                if j - 1 > kp {
                    crate::text::lemma_str_lt_trans(xf, o[kp].filename@, o[j - 1].filename@);
                }
                crate::text::lemma_str_lt_trans(f2[i].filename@, xf, f2[j].filename@);
            } else if i == kp {
                assert(f2[j] == o[j - 1]);
                if j - 1 > kp {
                    crate::text::lemma_str_lt_trans(xf, o[kp].filename@, o[j - 1].filename@);
                }
            } else {
                assert(f2[i] == o[i - 1] && f2[j] == o[j - 1]);
            }
        }
        assert forall|f: Seq<char>| #[trigger] has_file(f2, f) == (has_file(o, f) || f == xf) by {
            if has_file(f2, f) {
                let j = choose|j: int| 0 <= j < f2.len() && #[trigger] f2[j].filename@ == f;
                if j < kp {
                    assert(f2[j] == o[j]);
                } else if j > kp {
                    assert(f2[j] == o[j - 1]);
                }
            }
            if has_file(o, f) {
                let j = choose|j: int| 0 <= j < o.len() && #[trigger] o[j].filename@ == f;
                if j < kp {
                    assert(f2[j] == o[j]);
                } else {
                    assert(f2[j + 1] == o[j]);
                }
            }
            if f == xf {
                assert(f2[kp].filename@ == f);
            }
        }
        assert forall|f: Seq<char>| #[trigger] has_file(f2, f) implies file_in(f2, f) == if f == xf { x } else { file_in(o, f) } by {
            let j = choose|j: int| 0 <= j < f2.len() && #[trigger] f2[j].filename@ == f;
            lemma_file_at(f2, j);
            crate::text::lemma_str_lt_irreflexive(f);
            if j < kp {
                assert(f2[j] == o[j]);
                lemma_file_at(o, j);
                assert(crate::text::str_lt(f2[j].filename@, f2[kp].filename@));
            } else if j > kp {
                assert(f2[j] == o[j - 1]);
                lemma_file_at(o, j - 1);
                assert(crate::text::str_lt(f2[kp].filename@, f2[j].filename@));
            }
        }
    }
}

/// A directory listing keyed by file name, in name order.
fn key_sources(v: Vec<RepoSource>) -> (r: Vec<RepoSource>)
    ensures
        sources_ascending(r@),
        forall|f: Seq<char>| #[trigger] has_file(r@, f) == (last_src(v@, f) is Some),
        forall|f: Seq<char>| #[trigger] has_file(r@, f) ==> Some(file_in(r@, f)) == last_src(v@, f),
{
    let ghost v0 = v@;
    let mut src = v;
    let total = src.len();
    let mut out: Vec<RepoSource> = Vec::new();
    let mut i: usize = 0;
    assert(v0.take(0) =~= Seq::<RepoSource>::empty());
    assert(v0.skip(0) =~= v0);
    while src.len() > 0
        invariant
            i <= v0.len(),
            i + src@.len() == v0.len(),
            v0.len() == total,
            src@ == v0.skip(i as int),
            sources_ascending(out@),
            forall|f: Seq<char>| #[trigger] has_file(out@, f) == (last_src(v0.take(i as int), f) is Some),
            forall|f: Seq<char>| #[trigger] has_file(out@, f) ==> Some(file_in(out@, f)) == last_src(v0.take(i as int), f),
        decreases src@.len(),
    {
        assert(v0.take(i + 1).drop_last() =~= v0.take(i as int));
        assert(v0.take(i + 1).last() == v0[i as int]);
        let x = src.remove(0);
        assert(x == v0[i as int]);
        assert(src@ =~= v0.skip(i + 1));
        put_source(&mut out, x);
        i += 1;
    }
    assert(i == v0.len());
    assert(v0.take(i as int) =~= v0);
    out
}

/// The repository files of the system and user directories as listed (in
/// any order; a later entry of a name replaces an earlier one): one per
/// file name, in name order, a user file laid over the system file of the
/// same name.
pub fn read_all_repo_files(sys: Vec<RepoSource>, user: Vec<RepoSource>) -> (r: Vec<RepoFile>)
    ensures
        forall|i: int, j: int|
            0 <= i < j < r@.len() ==> crate::text::str_lt(#[trigger] r@[i].filename@, #[trigger] r@[j].filename@),
        forall|f: Seq<char>|
            #![trigger has_listed(r@, f)]
            has_listed(r@, f) <==> (last_src(sys@, f) is Some || last_src(user@, f) is Some),
        forall|k: int| 0 <= k < r@.len() ==> listed_from(#[trigger] r@[k], sys@, user@),
{
    let ghost sv = sys@;
    let ghost uv = user@;
    let ks = key_sources(sys);
    let ku = key_sources(user);
    let r = merge_repo_files(&ks, &ku);
    assert forall|f: Seq<char>| #![trigger has_listed(r@, f)]
        has_listed(r@, f) <==> (last_src(sv, f) is Some || last_src(uv, f) is Some) by {
        assert(has_file(ks@, f) == (last_src(sv, f) is Some));
        assert(has_file(ku@, f) == (last_src(uv, f) is Some));
    }
    assert forall|k: int| 0 <= k < r@.len() implies listed_from(#[trigger] r@[k], sv, uv) by {
        let f = r@[k].filename@;
        assert(listed_file(r@[k], ks@, ku@));
        assert(has_file(ks@, f) == (last_src(sv, f) is Some));
        assert(has_file(ku@, f) == (last_src(uv, f) is Some));
        if has_file(ks@, f) {
            assert(Some(file_in(ks@, f)) == last_src(sv, f));
        }
        if has_file(ku@, f) {
            assert(Some(file_in(ku@, f)) == last_src(uv, f));
        }
    }
    r
}

} // verus!
