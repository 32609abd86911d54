//! Local mailboxes.
use vstd::prelude::*;
use crate::error::{ApiError, ApiResult, bad_request, is_bad_request};
use crate::text::{
    byte_len, bytes_exceed, chars_of, eq_ignore_case, eq_ignore_case_str, find_char,
    find_char_vec, join, join_strings, lines, owned, push_str, split_lines, starts_with,
    starts_with_str, str_eq, string_from, trim, trim_str,
};

verus! {

/// A user's mailbox.
#[derive(Debug, Clone)]
pub struct MailboxInfo {
    pub user: String,
    pub size: u64,
    pub total: usize,
    pub unread: usize,
    pub modified: Option<u64>,
}

/// One message in a listing.
#[derive(Debug, Clone)]
pub struct MailSummary {
    pub index: usize,
    pub from: String,
    pub to: String,
    pub subject: String,
    pub date: String,
    pub read: bool,
    pub size: usize,
}

/// A page of messages.
#[derive(Debug, Clone)]
pub struct MailListResponse {
    pub user: String,
    pub total: usize,
    pub unread: usize,
    pub page: usize,
    pub page_size: usize,
    pub mails: Vec<MailSummary>,
}

/// One message in full.
#[derive(Debug, Clone)]
pub struct MailDetail {
    pub index: usize,
    pub from: String,
    pub to: String,
    pub subject: String,
    pub date: String,
    pub read: bool,
    pub headers: Vec<(String, String)>,
    pub body: String,
}

/// Messages to delete.
#[derive(Debug, Clone)]
pub struct BatchDeleteRequest {
    pub indices: Vec<usize>,
}

/// Which page of messages to list.
#[derive(Debug, Clone)]
pub struct PageQuery {
    pub page: usize,
    pub page_size: usize,
}


pub const DEFAULT_PAGE_SIZE: usize = 50;

pub fn default_page() -> (r: usize)
    ensures
        r == 1,
{
    1
}

pub fn default_page_size() -> (r: usize)
    ensures
        r == DEFAULT_PAGE_SIZE,
{
    DEFAULT_PAGE_SIZE
}

// ───────────────────────── envelope lines ─────────────────────────

pub open spec fn is_ascii_punct(c: char) -> bool {
    ('!' <= c && c <= '/') || (':' <= c && c <= '@') || ('[' <= c && c <= '`') || ('{' <= c
        && c <= '~')
}

/// One template character against one character: `a` lower-case letter,
/// `A` upper-case letter, ` ` space, `0` digit, `O` space or digit, `p`
/// punctuation, `P` space or punctuation, `:` colon.
pub open spec fn class_ok(t: char, c: char) -> bool {
    if t == 'a' {
        'a' <= c && c <= 'z'
    } else if t == 'A' {
        'A' <= c && c <= 'Z'
    } else if t == ' ' {
        c == ' '
    } else if t == '0' {
        '0' <= c && c <= '9'
    } else if t == 'O' {
        c == ' ' || ('0' <= c && c <= '9')
    } else if t == 'p' {
        is_ascii_punct(c)
    } else if t == 'P' {
        c == ' ' || is_ascii_punct(c)
    } else if t == ':' {
        c == ':'
    } else {
        false
    }
}

/// A string against a date template, character by character, both used
/// up together.
pub open spec fn cmatch(cp: Seq<char>, tp: Seq<char>) -> bool
    decreases cp.len(),
{
    if cp.len() == 0 || tp.len() == 0 {
        cp.len() == 0 && tp.len() == 0
    } else {
        class_ok(tp[0], cp[0]) && cmatch(cp.drop_first(), tp.drop_first())
    }
}

fn class_ok_exec(t: char, c: char) -> (b: bool)
    ensures
        b == class_ok(t, c),
{
    let punct = ('!' <= c && c <= '/') || (':' <= c && c <= '@') || ('[' <= c && c <= '`') || (
    '{' <= c && c <= '~');
    if t == 'a' {
        'a' <= c && c <= 'z'
    } else if t == 'A' {
        'A' <= c && c <= 'Z'
    } else if t == ' ' {
        c == ' '
    } else if t == '0' {
        '0' <= c && c <= '9'
    } else if t == 'O' {
        c == ' ' || ('0' <= c && c <= '9')
    } else if t == 'p' {
        punct
    } else if t == 'P' {
        c == ' ' || punct
    } else if t == ':' {
        c == ':'
    } else {
        false
    }
}

fn cmatch_exec(cp: &Vec<char>, tp: &str) -> (b: bool)
    ensures
        b == cmatch(cp@, tp@),
{
    let t = chars_of(tp);
    let mut i: usize = 0;
    assert(cp@.skip(0) =~= cp@);
    assert(t@.skip(0) =~= t@);
    while i < cp.len() && i < t.len()
        invariant
            i <= cp@.len(),
            i <= t@.len(),
            t@ == tp@,
            cmatch(cp@.skip(i as int), t@.skip(i as int)) == cmatch(cp@, tp@),
        decreases cp@.len() - i,
    {
        if !class_ok_exec(t[i], cp[i]) {
            return false;
        }
        assert(cp@.skip(i as int).drop_first() =~= cp@.skip(i + 1));
        assert(t@.skip(i as int).drop_first() =~= t@.skip(i + 1));
        i += 1;
    }
    i == cp.len() && i == t.len()
}

/// The date templates an envelope line may carry.
pub open spec fn date_formats() -> Seq<Seq<char>> {
    seq![
        "Aaa Aaa O0 00:00:00 0000"@,
        "Aaa Aaa O0 00:00:00 AAA 0000"@,
        "Aaa Aaa O0 00:00:00 0000 p0000"@,
        "Aaa Aaa O0 00:00 0000"@,
        "Aaa Aaa O0 00:00 AAA 0000"@,
        "Aaa Aaa O0 00:00 0000 p0000"@,
    ]
}

/// The text matches one of the date templates.
pub open spec fn isdate(date: Seq<char>) -> bool {
    exists|i: int| 0 <= i < 6 && cmatch(date, #[trigger] date_formats()[i])
}

pub fn isdate_exec(date: &str) -> (b: bool)
    ensures
        b == isdate(date@),
{
    let d = chars_of(date);
    let r0 = cmatch_exec(&d, "Aaa Aaa O0 00:00:00 0000");
    let r1 = cmatch_exec(&d, "Aaa Aaa O0 00:00:00 AAA 0000");
    let r2 = cmatch_exec(&d, "Aaa Aaa O0 00:00:00 0000 p0000");
    let r3 = cmatch_exec(&d, "Aaa Aaa O0 00:00 0000");
    let r4 = cmatch_exec(&d, "Aaa Aaa O0 00:00 AAA 0000");
    let r5 = cmatch_exec(&d, "Aaa Aaa O0 00:00 0000 p0000");
    proof {
        let f = date_formats();
        assert(f[0] == "Aaa Aaa O0 00:00:00 0000"@);
        assert(f[1] == "Aaa Aaa O0 00:00:00 AAA 0000"@);
        assert(f[2] == "Aaa Aaa O0 00:00:00 0000 p0000"@);
        assert(f[3] == "Aaa Aaa O0 00:00 0000"@);
        assert(f[4] == "Aaa Aaa O0 00:00 AAA 0000"@);
        assert(f[5] == "Aaa Aaa O0 00:00 0000 p0000"@);
    }
    r0 || r1 || r2 || r3 || r4 || r5
}

/// The date part of a `From ` line: after the sender (and an optional
/// `tty` field), or everything after `From ` when that is a date already.
pub open spec fn envelope_date(line: Seq<char>) -> Option<Seq<char>> {
    if !starts_with(line, "From "@) {
        None
    } else {
        let rest = line.skip(5);
        match find_char(rest, ' ') {
            None => None,
            Some(pos) => {
                let after = rest.skip(pos + 1);
                if isdate(rest) {
                    Some(rest)
                } else if starts_with(after, "tty"@) {
                    match find_char(after, ' ') {
                        Some(p) => Some(after.skip(p + 1)),
                        None => None,
                    }
                } else {
                    Some(after)
                }
            },
        }
    }
}

/// An mbox envelope line: `From `, a sender, and a date in one of the
/// templates (as `mail(1)` decides).
pub open spec fn is_envelope(line: Seq<char>) -> bool {
    match envelope_date(line) {
        Some(d) => isdate(d),
        None => false,
    }
}

fn skip_str(v: &Vec<char>, k: usize) -> (r: String)
    requires
        k <= v@.len(),
    ensures
        r@ == v@.skip(k as int),
{
    let s = string_from(v, k, v.len());
    assert(s@ =~= v@.skip(k as int));
    s
}

pub fn is_envelope_exec(line: &str) -> (b: bool)
    ensures
        b == is_envelope(line@),
{
    proof {
        reveal_strlit("From ");
    }
    if !starts_with_str(line, "From ") {
        return false;
    }
    let v = chars_of(line);
    let rest = skip_str(&v, 5);
    let rv = chars_of(rest.as_str());
    let rn = rv.len();
    match find_char_vec(&rv, ' ') {
        None => false,
        Some(pos) => {
            assert(pos < rn);
            let after = skip_str(&rv, pos + 1);
            if isdate_exec(rest.as_str()) {
                true
            } else if starts_with_str(after.as_str(), "tty") {
                let av = chars_of(after.as_str());
                let an = av.len();
                match find_char_vec(&av, ' ') {
                    Some(p) => {
                        assert(p < an);
                        let d = skip_str(&av, p + 1);
                        isdate_exec(d.as_str())
                    },
                    None => false,
                }
            } else {
                isdate_exec(after.as_str())
            }
        },
    }
}

// ───────────────────────── users and paths ─────────────────────────

/// A mailbox owner: 1 to 64 bytes of ASCII letters, digits, `_`, `-`, `.`.
pub open spec fn user_ok(user: Seq<char>) -> bool {
    user.len() > 0 && byte_len(user) <= 64 && crate::jails::chars_in(user, "_-."@)
}

pub fn valid_user(user: &str) -> (r: ApiResult<()>)
    ensures
        r is Ok <==> user_ok(user@),
        !user_ok(user@) ==> is_bad_request(r, "invalid username"@),
{
    if user.is_empty() || bytes_exceed(user, 64) || !crate::jails::chars_in_exec(user, "_-.") {
        return bad_request("invalid username");
    }
    Ok(())
}

pub fn mailbox_path(user: &str) -> (r: String)
    ensures
        r@ == "/var/mail/"@ + user@,
{
    let mut p = owned("/var/mail/");
    push_str(&mut p, user);
    p
}

// ───────────────────────── headers and body ─────────────────────────

/// The value of the first header whose name equals `name` ignoring ASCII
/// case, or empty.
pub open spec fn header_value(hs: Seq<(Seq<char>, Seq<char>)>, name: Seq<char>) -> Seq<char>
    decreases hs.len(),
{
    if hs.len() == 0 {
        seq![]
    } else if eq_ignore_case(hs[0].0, name) {
        hs[0].1
    } else {
        header_value(hs.drop_first(), name)
    }
}

pub fn get_header(headers: &Vec<(String, String)>, name: &str) -> (r: String)
    ensures
        r@ == header_value(headers.deep_view(), name@),
{
    let ghost hv = headers.deep_view();
    let mut i: usize = 0;
    assert(hv.skip(0) =~= hv);
    while i < headers.len()
        invariant
            i <= headers@.len() == hv.len(),
            hv == headers.deep_view(),
            header_value(hv.skip(i as int), name@) == header_value(hv, name@),
        decreases headers@.len() - i,
    {
        assert(hv[i as int] == (headers@[i as int].0@, headers@[i as int].1@));
        assert(hv.skip(i as int)[0] == hv[i as int]);
        if eq_ignore_case_str(headers[i].0.as_str(), name) {
            return headers[i].1.clone();
        }
        assert(hv.skip(i as int).drop_first() =~= hv.skip(i + 1));
        i += 1;
    }
    String::new()
}

/// The lines after the header block (the envelope line, then headers up to
/// the first empty line), joined by newlines.
pub open spec fn body_lines(ls: Seq<Seq<char>>) -> Seq<Seq<char>> {
    let rest = if ls.len() > 0 {
        ls.drop_first()
    } else {
        ls
    };
    match first_empty(rest) {
        Some(k) => rest.skip(k + 1),
        None => seq![],
    }
}

pub open spec fn first_empty(ls: Seq<Seq<char>>) -> Option<int>
    decreases ls.len(),
{
    if ls.len() == 0 {
        None
    } else if ls[0].len() == 0 {
        Some(0)
    } else {
        match first_empty(ls.drop_first()) {
            Some(k) => Some(k + 1),
            None => None,
        }
    }
}

proof fn lemma_first_empty(ls: Seq<Seq<char>>, i: int)
    requires
        0 <= i <= ls.len(),
        forall|k: int| 0 <= k < i ==> ls[k].len() != 0,
        i == ls.len() || ls[i].len() == 0,
    ensures
        first_empty(ls) == if i == ls.len() {
            None::<int>
        } else {
            Some(i)
        },
    decreases i,
{
    if i > 0 {
        let t = ls.drop_first();
        assert forall|k: int| 0 <= k < i - 1 implies t[k].len() != 0 by {
            assert(t[k] == ls[k + 1]);
        }
        if i < ls.len() {
            assert(t[i - 1] == ls[i]);
        }
        lemma_first_empty(t, i - 1);
    }
}

pub fn get_body(msg: &str) -> (r: String)
    ensures
        r@ == join(body_lines(lines(msg@)), "\n"@),
{
    let ls = split_lines(msg);
    let ghost lv = ls.deep_view();
    let ghost rest = if lv.len() > 0 {
        lv.drop_first()
    } else {
        lv
    };
    let start: usize = if ls.len() > 0 {
        1
    } else {
        0
    };
    let mut i: usize = start;
    while i < ls.len() && !ls[i].as_str().is_empty()
        invariant
            start <= i <= ls@.len() == lv.len(),
            lv == ls.deep_view(),
            start == if lv.len() > 0 {
                1int
            } else {
                0int
            },
            rest == lv.skip(start as int),
            forall|k: int| start <= k < i ==> lv[k].len() != 0,
        decreases ls@.len() - i,
    {
        assert(lv[i as int] == ls@[i as int]@);
        i += 1;
    }
    proof {
        if lv.len() > 0 {
            assert(rest =~= lv.skip(1));
        } else {
            assert(rest =~= lv.skip(0));
        }
        if i < ls@.len() {
            assert(lv[i as int] == ls@[i as int]@);
        }
        lemma_first_empty(rest, i - start);
    }
    let mut out: Vec<String> = Vec::new();
    if i < ls.len() {
        let mut j = i + 1;
        assert(out.deep_view() =~= lv.subrange(i + 1, j as int));
        while j < ls.len()
            invariant
                i + 1 <= j <= ls@.len() == lv.len(),
                lv == ls.deep_view(),
                out.deep_view() == lv.subrange(i + 1, j as int),
            decreases ls@.len() - j,
        {
            let ghost o = out.deep_view();
            assert(lv[j as int] == ls@[j as int]@);
            let x = ls[j].clone();
            out.push(x);
            assert(out.deep_view() =~= o.push(lv[j as int]));
            assert(lv.subrange(i + 1, j + 1) =~= lv.subrange(i + 1, j as int).push(lv[j as int]));
            j += 1;
        }
        assert(out.deep_view() =~= rest.skip(i - start + 1));
    } else {
        assert(out.deep_view() =~= Seq::<Seq<char>>::empty());
    }
    join_strings(&out, "\n")
}

// ───────────────────────── pages ─────────────────────────

/// A page of a listing, newest first: the mailbox indices it shows.
pub open spec fn page_span(total: nat, page: nat, page_size: nat) -> Seq<int> {
    let start = (page - 1) * page_size;
    let end = if start + page_size < total {
        start + page_size
    } else {
        total as int
    };
    Seq::new(
        if end > start {
            (end - start) as nat
        } else {
            0
        },
        |k: int| total - 1 - (start + k),
    )
}

/// The page asked for (at least 1), its size (1 to 500) and the indices of
/// the messages on it, newest first.
pub fn page_indices(total: usize, page: usize, page_size: usize) -> (r: (usize, usize, Vec<usize>))
    requires
        (if page < 1 {
            1
        } else {
            page
        }) * (if page_size < 1 {
            1
        } else if page_size > 500 {
            500
        } else {
            page_size
        }) <= usize::MAX,
    ensures
        r.0 == if page < 1 {
            1
        } else {
            page
        },
        r.1 == if page_size < 1 {
            1
        } else if page_size > 500 {
            500
        } else {
            page_size
        },
        r.2@.len() == page_span(total as nat, r.0 as nat, r.1 as nat).len(),
        forall|k: int|
            0 <= k < r.2@.len() ==> r.2@[k] as int == #[trigger] page_span(
                total as nat,
                r.0 as nat,
                r.1 as nat,
            )[k],
{
    let ps: usize = if page_size < 1 {
        1
    } else if page_size > 500 {
        500
    } else {
        page_size
    };
    let pg: usize = if page < 1 {
        1
    } else {
        page
    };
    assert((pg - 1) * ps + ps == pg * ps) by (nonlinear_arith);
    assert((pg - 1) * ps <= pg * ps) by (nonlinear_arith)
        requires
            ps >= 1,
            pg >= 1,
    ;
    let start: usize = (pg - 1) * ps;
    let end: usize = if start + ps < total {
        start + ps
    } else {
        total
    };
    let mut out: Vec<usize> = Vec::new();
    let mut p = start;
    let ghost span = page_span(total as nat, pg as nat, ps as nat);
    while p < end
        invariant
            end <= total,
            start <= p,
            p <= end || p == start,
            out@.len() == p - start,
            span == page_span(total as nat, pg as nat, ps as nat),
            start == (pg - 1) * ps,
            end == (if start + ps < total {
                start + ps
            } else {
                total as int
            }),
            forall|k: int| 0 <= k < out@.len() ==> out@[k] as int == #[trigger] span[k],
        decreases end - p,
    {
        out.push(total - 1 - p);
        p += 1;
    }
    (pg, ps, out)
}


// ───────────────────────── the mailbox as messages ─────────────────────────

/// The lines of a text with their `\n` kept (the last may have none).
pub open spec fn raw_lines(s: Seq<char>) -> Seq<Seq<char>>
    decreases s.len(),
{
    if s.len() == 0 {
        seq![]
    } else {
        match find_char(s, '\n') {
            Some(i) => {
                proof {
                    crate::text::lemma_find_char_facts(s, '\n');
                }
                seq![s.take(i + 1)] + raw_lines(s.skip(i + 1))
            },
            None => seq![s],
        }
    }
}

/// Texts written one after another.
pub open spec fn concat(ms: Seq<Seq<char>>) -> Seq<char>
    decreases ms.len(),
{
    if ms.len() == 0 {
        seq![]
    } else {
        concat(ms.drop_last()) + ms.last()
    }
}

proof fn lemma_concat_front(a: Seq<char>, rest: Seq<Seq<char>>)
    ensures
        concat(seq![a] + rest) == a + concat(rest),
    decreases rest.len(),
{
    let t = seq![a] + rest;
    if rest.len() == 0 {
        assert(t =~= seq![a]);
        assert(t.drop_last() =~= Seq::<Seq<char>>::empty());
        assert(concat(t) == concat(t.drop_last()) + t.last());
        assert(concat(t) =~= a + concat(rest));
    } else {
        assert(t.drop_last() =~= seq![a] + rest.drop_last());
        lemma_concat_front(a, rest.drop_last());
        assert(t.last() == rest.last());
        assert(concat(t) == concat(t.drop_last()) + t.last());
        assert(concat(t) =~= a + concat(rest));
    }
}

/// The lines with their newlines, put back together, are the text.
proof fn lemma_raw_lines_concat(s: Seq<char>)
    ensures
        concat(raw_lines(s)) == s,
    decreases s.len(),
{
    if s.len() > 0 {
        crate::text::lemma_find_char_facts(s, '\n');
        match find_char(s, '\n') {
            Some(i) => {
                lemma_raw_lines_concat(s.skip(i + 1));
                lemma_concat_front(s.take(i + 1), raw_lines(s.skip(i + 1)));
                assert(s.take(i + 1) + s.skip(i + 1) =~= s);
            },
            None => {
                lemma_concat_front(s, Seq::<Seq<char>>::empty());
                assert(s + Seq::<char>::empty() =~= s);
            },
        }
    }
}

/// A line without its trailing `\r` and `\n` characters.
pub open spec fn strip_eol(s: Seq<char>) -> Seq<char>
    decreases s.len(),
{
    if s.len() > 0 && (s.last() == '\r' || s.last() == '\n') {
        strip_eol(s.drop_last())
    } else {
        s
    }
}

/// What a scan of a mailbox has seen: the text before the first message,
/// the finished messages, the one being read, whether its headers are
/// still being read and whether they mark it read, and the unread count.
pub struct MboxScan {
    pub pre: Seq<char>,
    pub msgs: Seq<Seq<char>>,
    pub cur: Seq<char>,
    pub in_msg: bool,
    pub in_headers: bool,
    pub is_read: bool,
    pub unread: nat,
}

pub open spec fn mbox_step(st: MboxScan, seg: Seq<char>) -> MboxScan {
    let t = strip_eol(seg);
    if is_envelope(t) {
        MboxScan {
            pre: st.pre,
            msgs: if st.in_msg {
                st.msgs.push(st.cur)
            } else {
                st.msgs
            },
            cur: seg,
            in_msg: true,
            in_headers: true,
            is_read: false,
            unread: if st.in_msg && !st.is_read {
                st.unread + 1
            } else {
                st.unread
            },
        }
    } else {
        let in_headers = st.in_headers && t.len() > 0;
        let is_read = if st.in_headers && t.len() > 0 && starts_with(t, "Status:"@) {
            t.contains('R')
        } else {
            st.is_read
        };
        MboxScan {
            pre: if st.in_msg {
                st.pre
            } else {
                st.pre + seg
            },
            cur: if st.in_msg {
                st.cur + seg
            } else {
                st.cur
            },
            in_headers,
            is_read,
            ..st
        }
    }
}

pub open spec fn mbox_fold(segs: Seq<Seq<char>>) -> MboxScan
    decreases segs.len(),
{
    if segs.len() == 0 {
        MboxScan {
            pre: seq![],
            msgs: seq![],
            cur: seq![],
            in_msg: false,
            in_headers: false,
            is_read: false,
            unread: 0,
        }
    } else {
        mbox_step(mbox_fold(segs.drop_last()), segs.last())
    }
}

/// The messages of a mailbox (each from its envelope line to the next),
/// the text before the first, and how many lack an `R` in their `Status:`
/// header.
pub open spec fn mbox_parts(content: Seq<char>) -> (Seq<char>, Seq<Seq<char>>, nat) {
    let st = mbox_fold(raw_lines(content));
    if st.in_msg {
        (st.pre, st.msgs.push(st.cur), if !st.is_read {
            st.unread + 1
        } else {
            st.unread
        })
    } else {
        (st.pre, st.msgs, st.unread)
    }
}

/// A mailbox split into its messages.
#[derive(Debug, Clone)]
pub struct Mailbox {
    pub preamble: String,
    pub messages: Vec<String>,
    pub unread: usize,
}

fn split_raw_lines(s: &str) -> (r: Vec<String>)
    ensures
        r.deep_view() == raw_lines(s@),
{
    let v = chars_of(s);
    let n = v.len();
    let mut out: Vec<String> = Vec::new();
    let mut i: usize = 0;
    assert(v@.skip(0) =~= v@);
    assert(out.deep_view() =~= Seq::<Seq<char>>::empty());
    while i < n
        invariant
            i <= n == v@.len(),
            v@ == s@,
            out.deep_view() + raw_lines(v@.skip(i as int)) == raw_lines(s@),
        decreases n - i,
    {
        let mut j = i;
        while j < n && v[j] != '\n'
            invariant
                i <= j <= n == v@.len(),
                forall|k: int| i <= k < j ==> v@[k] != '\n',
            decreases n - j,
        {
            j += 1;
        }
        let ghost t = v@.skip(i as int);
        assert forall|k: int| 0 <= k < j - i implies t[k] != '\n' by {
            assert(t[k] == v@[k + i]);
        }
        let ghost o = out.deep_view();
        if j < n {
            assert(t[j - i] == v@[j as int]);
            proof {
                crate::text::lemma_find_char(t, '\n', j - i);
            }
            let seg = string_from(&v, i, j + 1);
            assert(seg@ =~= t.take(j - i + 1));
            assert(t.skip(j - i + 1) =~= v@.skip(j + 1));
            out.push(seg);
            assert(out.deep_view() =~= o.push(seg@));
            assert(out.deep_view() + raw_lines(v@.skip(j + 1)) =~= o + (seq![seg@] + raw_lines(
                v@.skip(j + 1),
            )));
            i = j + 1;
        } else {
            proof {
                crate::text::lemma_find_char(t, '\n', t.len() as int);
            }
            let seg = string_from(&v, i, n);
            assert(seg@ =~= t);
            out.push(seg);
            assert(out.deep_view() =~= o.push(seg@));
            assert(v@.skip(n as int) =~= Seq::<char>::empty());
            assert(out.deep_view() + raw_lines(v@.skip(n as int)) =~= o + seq![seg@]);
            i = n;
        }
    }
    assert(v@.skip(n as int) =~= Seq::<char>::empty());
    assert(out.deep_view() + Seq::<Seq<char>>::empty() =~= out.deep_view());
    out
}

fn strip_eol_str(s: &str) -> (r: String)
    ensures
        r@ == strip_eol(s@),
{
    let v = chars_of(s);
    let mut j: usize = v.len();
    assert(v@.take(j as int) =~= v@);
    while j > 0 && (v[j - 1] == '\r' || v[j - 1] == '\n')
        invariant
            j <= v@.len(),
            v@ == s@,
            strip_eol(v@.take(j as int)) == strip_eol(s@),
        decreases j,
    {
        assert(v@.take(j as int).drop_last() =~= v@.take(j - 1));
        j -= 1;
    }
    assert(v@.subrange(0, j as int) =~= v@.take(j as int));
    string_from(&v, 0, j)
}

/// Splits a mailbox into the text before its first message and its
/// messages, counting the unread ones; the pieces put back together are
/// the mailbox.
pub fn split_mbox(content: &str) -> (r: Mailbox)
    ensures
        (r.preamble@, r.messages.deep_view(), r.unread as nat) == mbox_parts(content@),
        r.preamble@ + concat(r.messages.deep_view()) == content@,
{
    let segs = split_raw_lines(content);
    let ghost sv = segs.deep_view();
    proof {
        lemma_raw_lines_concat(content@);
    }
    let mut pre = String::new();
    let mut msgs: Vec<String> = Vec::new();
    let mut cur = String::new();
    let mut in_msg = false;
    let mut in_headers = false;
    let mut is_read = false;
    let mut unread: usize = 0;
    let mut i: usize = 0;
    assert(sv.take(0) =~= Seq::<Seq<char>>::empty());
    assert(msgs.deep_view() =~= Seq::<Seq<char>>::empty());
    while i < segs.len()
        invariant
            i <= segs@.len() == sv.len(),
            sv == segs.deep_view(),
            sv == raw_lines(content@),
            concat(sv) == content@,
            unread <= msgs@.len(),
            msgs@.len() <= i,
            mbox_fold(sv.take(i as int)) == (MboxScan {
                pre: pre@,
                msgs: msgs.deep_view(),
                cur: cur@,
                in_msg,
                in_headers,
                is_read,
                unread: unread as nat,
            }),
            pre@ + concat(msgs.deep_view()) + cur@ == concat(sv.take(i as int)),
            !in_msg ==> cur@.len() == 0 && msgs@.len() == 0,
            in_msg ==> msgs@.len() < i,
        decreases segs@.len() - i,
    {
        proof {
            reveal_strlit("Status:");
        }
        let seg = &segs[i];
        assert(sv[i as int] == seg@);
        assert(sv.take(i + 1).drop_last() =~= sv.take(i as int));
        assert(sv.take(i + 1).last() == seg@);
        let t = strip_eol_str(seg.as_str());
        let ghost before_msgs = msgs.deep_view();
        let ghost before_pre = pre@;
        let ghost before_cur = cur@;
        assert(concat(sv.take(i + 1)) == concat(sv.take(i as int)) + seg@);
        if is_envelope_exec(t.as_str()) {
            if in_msg {
                if !is_read {
                    unread += 1;
                }
                let mut done = String::new();
                std::mem::swap(&mut done, &mut cur);
                msgs.push(done);
                proof {
                    assert(msgs.deep_view() =~= before_msgs.push(done@));
                    assert(msgs.deep_view().drop_last() =~= before_msgs);
                    assert(concat(msgs.deep_view()) == concat(before_msgs) + done@);
                }
            }
            cur = seg.clone();
            proof {
                if !in_msg {
                    assert(before_cur =~= Seq::<char>::empty());
                }
                assert(pre@ + concat(msgs.deep_view()) + cur@ =~= before_pre + concat(before_msgs)
                    + before_cur + seg@);
            }
            in_msg = true;
            in_headers = true;
            is_read = false;
        } else {
            if in_headers {
                if t.as_str().is_empty() {
                    in_headers = false;
                } else if starts_with_str(t.as_str(), "Status:") {
                    is_read = crate::text::contains_char(t.as_str(), 'R');
                }
            }
            if in_msg {
                push_str(&mut cur, seg.as_str());
            } else {
                push_str(&mut pre, seg.as_str());
                assert(msgs.deep_view() =~= Seq::<Seq<char>>::empty());
                assert(concat(msgs.deep_view()) =~= Seq::<char>::empty());
            }
            assert(pre@ + concat(msgs.deep_view()) + cur@ =~= before_pre + concat(before_msgs)
                + before_cur + seg@);
        }
        i += 1;
    }
    assert(sv.take(i as int) =~= sv);
    if in_msg {
        if !is_read {
            unread += 1;
        }
        let ghost before_msgs = msgs.deep_view();
        let ghost c = cur@;
        msgs.push(cur);
        assert(msgs.deep_view() =~= before_msgs.push(c));
        assert(msgs.deep_view().drop_last() =~= before_msgs);
        assert(concat(msgs.deep_view()) == concat(before_msgs) + c);
        assert(pre@ + concat(msgs.deep_view()) =~= pre@ + concat(before_msgs) + c);
    } else {
        assert(pre@ + concat(msgs.deep_view()) =~= pre@ + concat(msgs.deep_view()) + cur@);
    }
    Mailbox { preamble: pre, messages: msgs, unread }
}


/// The mailbox with message `i` replaced.
pub fn replace_message(mb: &Mailbox, i: usize, new_msg: &str) -> (r: String)
    requires
        i < mb.messages@.len(),
    ensures
        r@ == mb.preamble@ + concat(mb.messages.deep_view().update(i as int, new_msg@)),
{
    let ghost mv = mb.messages.deep_view();
    let ghost want = mv.update(i as int, new_msg@);
    let mut out = mb.preamble.clone();
    let mut k: usize = 0;
    assert(want.take(0) =~= Seq::<Seq<char>>::empty());
    while k < mb.messages.len()
        invariant
            k <= mb.messages@.len() == mv.len() == want.len(),
            mv == mb.messages.deep_view(),
            want == mv.update(i as int, new_msg@),
            i < mv.len(),
            out@ == mb.preamble@ + concat(want.take(k as int)),
        decreases mb.messages@.len() - k,
    {
        assert(want.take(k + 1).drop_last() =~= want.take(k as int));
        assert(mv[k as int] == mb.messages@[k as int]@);
        if k == i {
            push_str(&mut out, new_msg);
        } else {
            push_str(&mut out, mb.messages[k].as_str());
        }
        assert(out@ =~= mb.preamble@ + concat(want.take(k + 1)));
        k += 1;
    }
    assert(want.take(k as int) =~= want);
    out
}

/// The messages not chosen, written one after another (the text before
/// the first message goes too).
pub open spec fn kept_text(ms: Seq<Seq<char>>, idx: Seq<usize>) -> Seq<char>
    decreases ms.len(),
{
    if ms.len() == 0 {
        seq![]
    } else {
        kept_text(ms.drop_last(), idx) + if idx.contains((ms.len() - 1) as usize) {
            Seq::<char>::empty()
        } else {
            ms.last()
        }
    }
}

fn contains_index(v: &Vec<usize>, x: usize) -> (b: bool)
    ensures
        b == v@.contains(x),
{
    let mut i: usize = 0;
    while i < v.len()
        invariant
            i <= v@.len(),
            forall|k: int| 0 <= k < i ==> v@[k] != x,
        decreases v@.len() - i,
    {
        if v[i] == x {
            assert(v@[i as int] == x);
            return true;
        }
        i += 1;
    }
    false
}

pub fn delete_messages(mb: &Mailbox, indices: &Vec<usize>) -> (r: String)
    ensures
        r@ == kept_text(mb.messages.deep_view(), indices@),
{
    let ghost mv = mb.messages.deep_view();
    let mut out = String::new();
    let mut k: usize = 0;
    assert(mv.take(0) =~= Seq::<Seq<char>>::empty());
    while k < mb.messages.len()
        invariant
            k <= mb.messages@.len() == mv.len(),
            mv == mb.messages.deep_view(),
            out@ == kept_text(mv.take(k as int), indices@),
        decreases mb.messages@.len() - k,
    {
        assert(mv.take(k + 1).drop_last() =~= mv.take(k as int));
        assert(mv[k as int] == mb.messages@[k as int]@);
        if !contains_index(indices, k) {
            push_str(&mut out, mb.messages[k].as_str());
        } else {
            assert(out@ =~= out@ + Seq::<char>::empty());
        }
        k += 1;
    }
    assert(mv.take(k as int) =~= mv);
    out
}

// ───────────────────────── summaries and headers ─────────────────────────

/// The header lines of a message: after the envelope line, up to the first
/// empty line.
pub open spec fn header_lines(msg: Seq<char>) -> Seq<Seq<char>> {
    let ls = lines(msg);
    let rest = if ls.len() > 0 {
        ls.drop_first()
    } else {
        ls
    };
    match first_empty(rest) {
        Some(k) => rest.take(k),
        None => rest,
    }
}

fn header_lines_exec(msg: &str) -> (r: Vec<String>)
    ensures
        r.deep_view() == header_lines(msg@),
{
    let ls = split_lines(msg);
    let ghost lv = ls.deep_view();
    let ghost rest = if lv.len() > 0 {
        lv.drop_first()
    } else {
        lv
    };
    let start: usize = if ls.len() > 0 {
        1
    } else {
        0
    };
    let mut out: Vec<String> = Vec::new();
    let mut i: usize = start;
    assert(out.deep_view() =~= rest.take(0));
    proof {
        if lv.len() > 0 {
            assert(rest =~= lv.skip(1));
        } else {
            assert(rest =~= lv.skip(0));
        }
    }
    while i < ls.len() && !ls[i].as_str().is_empty()
        invariant
            start <= i <= ls@.len() == lv.len(),
            lv == ls.deep_view(),
            rest == lv.skip(start as int),
            forall|k: int| start <= k < i ==> lv[k].len() != 0,
            out.deep_view() == rest.take(i - start),
        decreases ls@.len() - i,
    {
        assert(lv[i as int] == ls@[i as int]@);
        let ghost o = out.deep_view();
        let x = ls[i].clone();
        out.push(x);
        assert(out.deep_view() =~= o.push(lv[i as int]));
        assert(rest[i - start] == lv[i as int]);
        assert(rest.take(i - start + 1) =~= rest.take(i - start).push(rest[i - start]));
        i += 1;
    }
    proof {
        if i < ls@.len() {
            assert(lv[i as int] == ls@[i as int]@);
        }
        lemma_first_empty(rest, i - start);
        if i == ls@.len() {
            assert(rest.take(i - start) =~= rest);
        }
    }
    out
}

pub struct SummaryView {
    pub from: Seq<char>,
    pub to: Seq<char>,
    pub subject: Seq<char>,
    pub date: Seq<char>,
    pub read: bool,
}

/// A header stored into the summary, by its name in any ASCII case.
pub open spec fn store_field(f: SummaryView, key: Option<Seq<char>>, val: Seq<char>) -> SummaryView {
    match key {
        None => f,
        Some(k) => if eq_ignore_case(k, "from"@) {
            SummaryView { from: val, ..f }
        } else if eq_ignore_case(k, "to"@) {
            SummaryView { to: val, ..f }
        } else if eq_ignore_case(k, "subject"@) {
            SummaryView { subject: val, ..f }
        } else if eq_ignore_case(k, "date"@) {
            SummaryView { date: val, ..f }
        } else if eq_ignore_case(k, "status"@) {
            SummaryView { read: val.contains('R'), ..f }
        } else {
            f
        },
    }
}

pub open spec fn is_continuation(line: Seq<char>) -> bool {
    line.len() > 0 && (line[0] == ' ' || line[0] == '\t')
}

/// The summary scan: the header being read (its name, if it had one, and
/// its value so far) and the fields stored.
pub open spec fn summary_fold(ls: Seq<Seq<char>>) -> (Option<Seq<char>>, Seq<char>, SummaryView)
    decreases ls.len(),
{
    if ls.len() == 0 {
        (None, seq![], SummaryView { from: seq![], to: seq![], subject: seq![], date: seq![], read: false })
    } else {
        let (key, val, f) = summary_fold(ls.drop_last());
        let line = ls.last();
        if is_continuation(line) {
            (key, (if val.len() > 0 { val + " "@ } else { val }) + crate::text::trim_start(line), f)
        } else {
            let f2 = store_field(f, key, val);
            match find_char(line, ':') {
                Some(pos) => (Some(line.take(pos)), trim(line.skip(pos + 1)), f2),
                None => (key, seq![], f2),
            }
        }
    }
}

/// From, To, Subject, Date and whether `Status:` holds an `R`, read from a
/// message's headers (continuation lines joined by a space; a later header
/// of the same name wins).
pub open spec fn summary_of(msg: Seq<char>) -> SummaryView {
    let (key, val, f) = summary_fold(header_lines(msg));
    store_field(f, key, val)
}

fn store_field_exec(
    from: &mut String,
    to: &mut String,
    subject: &mut String,
    date: &mut String,
    read: &mut bool,
    key: &Option<String>,
    val: &String,
)
    ensures
        (SummaryView {
            from: final(from)@,
            to: final(to)@,
            subject: final(subject)@,
            date: final(date)@,
            read: *final(read),
        }) == store_field(
            SummaryView {
                from: old(from)@,
                to: old(to)@,
                subject: old(subject)@,
                date: old(date)@,
                read: *old(read),
            },
            match key {
                Some(k) => Some(k@),
                None => None,
            },
            val@,
        ),
{
    match key {
        None => {},
        Some(k) => {
            let k = k.as_str();
            if eq_ignore_case_str(k, "from") {
                *from = val.clone();
            } else if eq_ignore_case_str(k, "to") {
                *to = val.clone();
            } else if eq_ignore_case_str(k, "subject") {
                *subject = val.clone();
            } else if eq_ignore_case_str(k, "date") {
                *date = val.clone();
            } else if eq_ignore_case_str(k, "status") {
                *read = crate::text::contains_char(val.as_str(), 'R');
            }
        },
    }
}

fn is_continuation_exec(line: &str) -> (b: bool)
    ensures
        b == is_continuation(line@),
{
    proof {
        reveal_strlit(" ");
        reveal_strlit("\t");
        assert(" "@ =~= seq![' ']);
        assert("\t"@ =~= seq!['\t']);
    }
    let a = starts_with_str(line, " ");
    let b = starts_with_str(line, "\t");
    proof {
        if a {
            assert(line@.take(1)[0] == line@[0]);
            assert(seq![' '][0] == ' ');
        }
        if b {
            assert(line@.take(1)[0] == line@[0]);
            assert(seq!['\t'][0] == '\t');
        }
        if line@.len() > 0 {
            assert(line@.take(1) =~= seq![line@[0]]);
        }
    }
    a || b
}

/// The five summary fields of a message (see `summary_of`).
pub fn parse_summary(msg: &str) -> (r: (String, String, String, String, bool))
    ensures
        (SummaryView { from: r.0@, to: r.1@, subject: r.2@, date: r.3@, read: r.4 })
            == summary_of(msg@),
{
    proof {
        reveal_strlit(" ");
    }
    let hs = header_lines_exec(msg);
    let ghost hv = hs.deep_view();
    let mut from = String::new();
    let mut to = String::new();
    let mut subject = String::new();
    let mut date = String::new();
    let mut read = false;
    let mut key: Option<String> = None;
    let mut val = String::new();
    let mut i: usize = 0;
    assert(hv.take(0) =~= Seq::<Seq<char>>::empty());
    while i < hs.len()
        invariant
            i <= hs@.len() == hv.len(),
            hv == hs.deep_view(),
            summary_fold(hv.take(i as int)) == (
                match key {
                    Some(k) => Some(k@),
                    None => None,
                },
                val@,
                SummaryView { from: from@, to: to@, subject: subject@, date: date@, read },
            ),
        decreases hs@.len() - i,
    {
        assert(hv.take(i + 1).drop_last() =~= hv.take(i as int));
        assert(hv.take(i + 1).last() == hs@[i as int]@);
        let line = hs[i].as_str();
        if is_continuation_exec(line) {
            if !val.as_str().is_empty() {
                push_str(&mut val, " ");
            }
            let t = crate::text::trim_start_str(line);
            push_str(&mut val, t.as_str());
        } else {
            store_field_exec(&mut from, &mut to, &mut subject, &mut date, &mut read, &key, &val);
            let lv = chars_of(line);
            let n = lv.len();
            match find_char_vec(&lv, ':') {
                Some(pos) => {
                    assert(pos < n);
                    let k = string_from(&lv, 0, pos);
                    assert(k@ =~= line@.take(pos as int));
                    let rest = string_from(&lv, pos + 1, n);
                    assert(rest@ =~= line@.skip(pos + 1));
                    key = Some(k);
                    val = trim_str(rest.as_str());
                },
                None => {
                    val = String::new();
                },
            }
        }
        i += 1;
    }
    assert(hv.take(i as int) =~= hv);
    store_field_exec(&mut from, &mut to, &mut subject, &mut date, &mut read, &key, &val);
    (from, to, subject, date, read)
}

/// The header scan: the header being read (if any) and the finished ones.
pub open spec fn headers_fold(ls: Seq<Seq<char>>) -> (Option<Seq<char>>, Seq<char>, Seq<(Seq<char>, Seq<char>)>)
    decreases ls.len(),
{
    if ls.len() == 0 {
        (None, seq![], seq![])
    } else {
        let (key, val, hs) = headers_fold(ls.drop_last());
        let line = ls.last();
        if is_continuation(line) {
            (key, val + "\n"@ + crate::text::trim_start(line), hs)
        } else {
            let hs2 = match key {
                Some(k) => hs.push((k, val)),
                None => hs,
            };
            let v2 = match key {
                Some(_) => seq![],
                None => val,
            };
            match find_char(line, ':') {
                Some(pos) => (Some(line.take(pos)), trim(line.skip(pos + 1)), hs2),
                None => (None, v2, hs2),
            }
        }
    }
}

/// Every header of a message, in order, continuation lines joined by
/// newlines.
pub open spec fn headers_of(msg: Seq<char>) -> Seq<(Seq<char>, Seq<char>)> {
    let (key, val, hs) = headers_fold(header_lines(msg));
    match key {
        Some(k) => hs.push((k, val)),
        None => hs,
    }
}

pub fn parse_headers(msg: &str) -> (r: Vec<(String, String)>)
    ensures
        r.deep_view() == headers_of(msg@),
{
    proof {
        reveal_strlit("\n");
    }
    let hs = header_lines_exec(msg);
    let ghost hv = hs.deep_view();
    let mut out: Vec<(String, String)> = Vec::new();
    let mut key: Option<String> = None;
    let mut val = String::new();
    let mut i: usize = 0;
    assert(hv.take(0) =~= Seq::<Seq<char>>::empty());
    assert(out.deep_view() =~= Seq::<(Seq<char>, Seq<char>)>::empty());
    while i < hs.len()
        invariant
            i <= hs@.len() == hv.len(),
            hv == hs.deep_view(),
            headers_fold(hv.take(i as int)) == (
                match key {
                    Some(k) => Some(k@),
                    None => None,
                },
                val@,
                out.deep_view(),
            ),
        decreases hs@.len() - i,
    {
        assert(hv.take(i + 1).drop_last() =~= hv.take(i as int));
        assert(hv.take(i + 1).last() == hs@[i as int]@);
        let line = hs[i].as_str();
        if is_continuation_exec(line) {
            push_str(&mut val, "\n");
            let t = crate::text::trim_start_str(line);
            push_str(&mut val, t.as_str());
        } else {
            match key {
                Some(k) => {
                    let ghost o = out.deep_view();
                    let mut v = String::new();
                    std::mem::swap(&mut v, &mut val);
                    let ghost kv = (k@, v@);
                    out.push((k, v));
                    assert(out.deep_view() =~= o.push(kv));
                },
                None => {},
            }
            key = None;
            let lv = chars_of(line);
            let n = lv.len();
            match find_char_vec(&lv, ':') {
                Some(pos) => {
                    assert(pos < n);
                    let k = string_from(&lv, 0, pos);
                    assert(k@ =~= line@.take(pos as int));
                    let rest = string_from(&lv, pos + 1, n);
                    assert(rest@ =~= line@.skip(pos + 1));
                    key = Some(k);
                    val = trim_str(rest.as_str());
                },
                None => {},
            }
        }
        i += 1;
    }
    assert(hv.take(i as int) =~= hv);
    match key {
        Some(k) => {
            let ghost o = out.deep_view();
            let ghost kv = (k@, val@);
            out.push((k, val));
            assert(out.deep_view() =~= o.push(kv));
        },
        None => {},
    }
    out
}


// ───────────────────────── read / unread ─────────────────────────

/// A `Status:` header line (name in any ASCII case).
pub open spec fn status_header(l: Seq<char>) -> bool {
    l.len() >= 7 && eq_ignore_case(l.take(7), "Status:"@)
}

/// The new value of a `Status:` header: an `R` added when marking read (if
/// missing), every `R` taken out when marking unread.
pub open spec fn new_status(val: Seq<char>, read: bool) -> Seq<char> {
    if read {
        if val.contains('R') {
            val
        } else {
            seq!['R'] + val
        }
    } else {
        trim(crate::text::replace_all(val, "R"@, ""@))
    }
}

pub open spec fn status_step(
    st: (bool, bool, Seq<Seq<char>>),
    i: int,
    line: Seq<char>,
    read: bool,
) -> (bool, bool, Seq<Seq<char>>) {
    let (in_headers, found, out) = st;
    if i == 0 {
        (in_headers, found, out.push(line))
    } else if in_headers && line.len() == 0 {
        if !found && read {
            (false, true, out.push("Status: R"@).push(line))
        } else {
            (false, found, out.push(line))
        }
    } else if in_headers && status_header(line) {
        let nv = new_status(trim(line.skip(7)), read);
        (in_headers, true, if nv.len() > 0 {
            out.push("Status: "@ + nv)
        } else {
            out
        })
    } else {
        (in_headers, found, out.push(line))
    }
}

pub open spec fn status_fold(ls: Seq<Seq<char>>, read: bool) -> (bool, bool, Seq<Seq<char>>)
    decreases ls.len(),
{
    if ls.len() == 0 {
        (true, false, seq![])
    } else {
        status_step(status_fold(ls.drop_last(), read), ls.len() - 1, ls.last(), read)
    }
}

/// A message with its `Status:` header set for read or unread: the header
/// rewritten (dropped when it would be empty), or `Status: R` added at the
/// end of the headers when marking read and there is none.
pub open spec fn with_status(msg: Seq<char>, read: bool) -> Seq<char> {
    let ls = crate::text::split_char(msg, '\n');
    let (in_headers, found, out) = status_fold(ls, read);
    join(if in_headers && !found && read {
        out.push("Status: R"@)
    } else {
        out
    }, "\n"@)
}

/// The first 7 bytes of `l` end at a character boundary.
pub open spec fn boundary7(l: Seq<char>) -> bool {
    exists|k: int| 0 <= k <= l.len() && byte_len(#[trigger] l.take(k)) == 7
}

/// A header line (after the envelope line, before the first empty line)
/// whose first 7 bytes end inside a character: the byte slice that tests
/// for `Status:` cannot be taken there.
pub open spec fn status_check_fails(msg: Seq<char>) -> bool {
    let ls = crate::text::split_char(msg, '\n');
    exists|i: int|
        1 <= i < ls.len() && (forall|j: int| 1 <= j <= i ==> (#[trigger] ls[j]).len() > 0) && byte_len(
            #[trigger] ls[i],
        ) >= 7 && !boundary7(ls[i])
}

fn boundary7_exec(l: &str) -> (b: bool)
    ensures
        b == boundary7(l@),
{
    let v = chars_of(l);
    let mut total: usize = 0;
    let mut k: usize = 0;
    assert(v@.take(0) =~= Seq::<char>::empty());
    while k < v.len() && total < 7
        invariant
            k <= v@.len(),
            v@ == l@,
            total == byte_len(v@.take(k as int)),
            total <= 10,
            forall|m: int| 0 <= m < k ==> byte_len(#[trigger] v@.take(m)) < 7,
        decreases v@.len() - k,
    {
        assert(v@.take(k + 1).drop_last() =~= v@.take(k as int));
        let c = v[k] as u32;
        let w: usize = if c < 0x80 {
            1
        } else if c < 0x800 {
            2
        } else if c < 0x10000 {
            3
        } else {
            4
        };
        total = total + w;
        k += 1;
    }
    if total == 7 {
        return true;
    }
    proof {
        assert forall|m: int| 0 <= m <= l@.len() implies byte_len(#[trigger] l@.take(m)) != 7 by {
            if m < k {
            } else if m == k {
            } else {
                crate::text::lemma_byte_len_prefix(l@.take(m), k as int);
                assert(l@.take(m).take(k as int) =~= v@.take(k as int));
            }
        }
    }
    false
}

/// Whether a message's `Status:` header can be set (see
/// `status_check_fails`).
pub fn status_check_ok(msg: &str) -> (b: bool)
    ensures
        b == !status_check_fails(msg@),
{
    let ls = crate::text::split_str(msg, '\n');
    let ghost lv = ls.deep_view();
    if ls.len() == 0 {
        return true;
    }
    let mut i: usize = 1;
    while i < ls.len() && !ls[i].as_str().is_empty()
        invariant
            1 <= i <= ls@.len() == lv.len(),
            lv == ls.deep_view(),
            lv == crate::text::split_char(msg@, '\n'),
            forall|j: int| 1 <= j < i ==> (#[trigger] lv[j]).len() > 0,
            forall|j: int| 1 <= j < i ==> !(byte_len(#[trigger] lv[j]) >= 7 && !boundary7(lv[j])),
        decreases ls@.len() - i,
    {
        assert(lv[i as int] == ls@[i as int]@);
        if crate::text::bytes_exceed(ls[i].as_str(), 6) && !boundary7_exec(ls[i].as_str()) {
            proof {
                assert(forall|j: int| 1 <= j <= i ==> (#[trigger] lv[j]).len() > 0);
            }
            return false;
        }
        i += 1;
    }
    proof {
        if i < ls@.len() {
            assert(lv[i as int] == ls@[i as int]@);
        }
        assert forall|x: int|
            1 <= x < lv.len() && (forall|j: int| 1 <= j <= x ==> (#[trigger] lv[j]).len() > 0)
                implies !(byte_len(lv[x]) >= 7 && !boundary7(lv[x])) by {
            if x >= i {
                assert(lv[i as int].len() > 0);
            }
        }
    }
    true
}

fn status_line_exec(
    in_headers: &mut bool,
    found: &mut bool,
    out: &mut Vec<String>,
    i: usize,
    line: &str,
    read: bool,
)
    requires
        !(*old(in_headers) && i > 0 && line@.len() > 0 && byte_len(line@) >= 7 && !boundary7(line@)),
    ensures
        status_step((*old(in_headers), *old(found), old(out).deep_view()), i as int, line@, read)
            == (*final(in_headers), *final(found), final(out).deep_view()),
{
    proof {
        reveal_strlit("R");
        reveal_strlit("");
    }
    let ghost o = out.deep_view();
    if i == 0 {
        out.push(owned(line));
        assert(out.deep_view() =~= o.push(line@));
        return;
    }
    if *in_headers && line.is_empty() {
        if !*found && read {
            out.push(owned("Status: R"));
            *found = true;
        }
        *in_headers = false;
        let ghost o2 = out.deep_view();
        out.push(owned(line));
        assert(out.deep_view() =~= o2.push(line@));
        return;
    }
    let lvc = chars_of(line);
    let mut is_status = false;
    if *in_headers && lvc.len() >= 7 {
        let head = string_from(&lvc, 0, 7);
        assert(head@ =~= line@.take(7));
        is_status = eq_ignore_case_str(head.as_str(), "Status:");
    }
    if is_status {
        let rest = string_from(&lvc, 7, lvc.len());
        assert(rest@ =~= line@.skip(7));
        let val = trim_str(rest.as_str());
        let nv = if read {
            if crate::text::contains_char(val.as_str(), 'R') {
                val
            } else {
                let mut t = owned("R");
                push_str(&mut t, val.as_str());
                assert("R"@ =~= seq!['R']);
                t
            }
        } else {
            let t = crate::text::replace_str(val.as_str(), "R", "");
            trim_str(t.as_str())
        };
        *found = true;
        if !nv.as_str().is_empty() {
            let mut h = owned("Status: ");
            push_str(&mut h, nv.as_str());
            out.push(h);
        }
    } else {
        out.push(owned(line));
        assert(out.deep_view() =~= o.push(line@));
    }
}

/// A rewritten status value is trimmed, keeps an `R` exactly when marking
/// read, and brings in no newline.
proof fn lemma_new_status_shape(x: Seq<char>, read: bool)
    ensures
        trim(new_status(trim(x), read)) == new_status(trim(x), read),
        read ==> new_status(trim(x), read).contains('R'),
        !read ==> !new_status(trim(x), read).contains('R'),
        !x.contains('\n') ==> !new_status(trim(x), read).contains('\n'),
{
    let v = trim(x);
    crate::text::lemma_trim_idempotent(x);
    if !x.contains('\n') {
        crate::text::lemma_trim_lacks(x, '\n');
    }
    if read {
        if !v.contains('R') {
            let nv = seq!['R'] + v;
            crate::text::lemma_trim_cons('R', v);
            assert(nv[0] == 'R');
            if nv.contains('\n') {
                let m = choose|m: int| 0 <= m < nv.len() && nv[m] == '\n';
                assert(m > 0 && v[m - 1] == '\n');
                assert(v.contains('\n'));
            }
        }
    } else {
        let w = crate::text::replace_all(v, "R"@, ""@);
        crate::text::lemma_remove_r(v, '\n');
        crate::text::lemma_trim_lacks(w, 'R');
        if !x.contains('\n') {
            crate::text::lemma_trim_lacks(w, '\n');
        }
        crate::text::lemma_trim_idempotent(w);
    }
}

/// A header written as `Status: <value>` reads back as that value.
proof fn lemma_status_line_again(nv: Seq<char>, read: bool)
    requires
        trim(nv) == nv,
        read ==> nv.contains('R'),
        !read ==> !nv.contains('R'),
    ensures
        status_header("Status: "@ + nv),
        new_status(trim(("Status: "@ + nv).skip(7)), read) == nv,
{
    reveal_strlit("Status: ");
    reveal_strlit("Status:");
    reveal_strlit(" ");
    let l = "Status: "@ + nv;
    assert(l.take(7) =~= "Status:"@);
    assert(l.skip(7) =~= " "@ + nv);
    crate::text::lemma_trim_space_front(nv);
    if !read {
        crate::text::lemma_remove_r_none(nv);
    }
}

/// Reading back what one pass wrote gives the same lines and the same
/// header state (the found flag too when marking read, since that pass
/// drops no header).
proof fn lemma_status_fold_again(ls: Seq<Seq<char>>, read: bool)
    ensures
        ({
            let (h, f, o) = status_fold(ls, read);
            let (h2, f2, o2) = status_fold(o, read);
            &&& h2 == h && o2 == o
            &&& read ==> f2 == f
            &&& ls.len() > 0 ==> o.len() > 0
            &&& (forall|k: int| 0 <= k < ls.len() ==> !(#[trigger] ls[k]).contains('\n')) ==> (forall|k: int|
                0 <= k < o.len() ==> !(#[trigger] o[k]).contains('\n'))
        }),
    decreases ls.len(),
{
    reveal_strlit("Status: R");
    reveal_strlit("Status: ");
    if ls.len() == 0 {
        return;
    }
    let p = ls.drop_last();
    let l = ls.last();
    let i = ls.len() - 1;
    lemma_status_fold_again(p, read);
    let (h1, f1, o1) = status_fold(p, read);
    let (h1b, f1b, o1b) = status_fold(o1, read);
    assert(status_fold(ls, read) == status_step((h1, f1, o1), i, l, read));
    let (h, f, o) = status_fold(ls, read);
    let clean = forall|k: int| 0 <= k < ls.len() ==> !(#[trigger] ls[k]).contains('\n');
    if clean {
        assert forall|k: int| 0 <= k < p.len() implies !(#[trigger] p[k]).contains('\n') by {
            assert(p[k] == ls[k]);
        }
        assert(!l.contains('\n')) by {
            assert(l == ls[i]);
        }
    }
    let sr: Seq<char> = "Status: R"@;
    assert(sr.len() == 9);
    let rr: Seq<char> = seq!['R'];
        assert(rr.len() == 1 && rr[0] == 'R');
        assert(rr.contains(rr[0]));
        crate::text::lemma_trim_cons('R', Seq::<char>::empty());
        assert(seq!['R'] + Seq::<char>::empty() =~= rr);
        lemma_status_line_again(seq!['R'], true);
    assert("Status: "@ + seq!['R'] =~= sr);
    assert(!sr.contains('\n')) by {
        if sr.contains('\n') {
            let m = choose|m: int| 0 <= m < sr.len() && sr[m] == '\n';
        }
    }
    if i == 0 {
        assert(p.len() == 0);
        assert(o =~= seq![l]);
        assert(o.drop_last() =~= Seq::<Seq<char>>::empty());
        assert(status_fold(o, read) == status_step(status_fold(o.drop_last(), read), 0, o.last(), read));
        if clean {
            assert forall|k: int| 0 <= k < o.len() implies !(#[trigger] o[k]).contains('\n') by {
                assert(o[k] == l);
            }
        }
        return;
    }
    assert(o1.len() > 0);
    let n1 = o1.len() as int;
    if h1 && l.len() == 0 {
        if !f1 && read {
            let oa = o1.push(sr);
            assert(o == oa.push(l));
            assert(oa.drop_last() =~= o1);
            assert(o.drop_last() =~= oa);
            assert(status_fold(oa, read) == status_step((h1b, f1b, o1), n1, sr, read));
            assert(status_fold(oa, read) == (h1, true, oa));
            assert(status_fold(o, read) == status_step((h1, true, oa), n1 + 1, l, read));
            if clean {
                assert forall|k: int| 0 <= k < o.len() implies !(#[trigger] o[k]).contains('\n') by {
                    if k < n1 {
                        assert(o[k] == o1[k]);
                    } else if k == n1 {
                        assert(o[k] == sr);
                    } else {
                        assert(o[k] == l);
                    }
                }
            }
        } else {
            assert(o == o1.push(l));
            assert(o.drop_last() =~= o1);
            assert(status_fold(o, read) == status_step((h1b, f1b, o1), n1, l, read));
            if clean {
                assert forall|k: int| 0 <= k < o.len() implies !(#[trigger] o[k]).contains('\n') by {
                    if k < n1 {
                        assert(o[k] == o1[k]);
                    } else {
                        assert(o[k] == l);
                    }
                }
            }
        }
    } else if h1 && status_header(l) {
        let nv = new_status(trim(l.skip(7)), read);
        lemma_new_status_shape(l.skip(7), read);
        if nv.len() > 0 {
            let line = "Status: "@ + nv;
            lemma_status_line_again(nv, read);
            assert(o == o1.push(line));
            assert(o.drop_last() =~= o1);
            assert(status_fold(o, read) == status_step((h1b, f1b, o1), n1, line, read));
            assert(line.len() > 0);
            if clean {
                assert(!l.skip(7).contains('\n')) by {
                    if l.skip(7).contains('\n') {
                        let m = choose|m: int| 0 <= m < l.skip(7).len() && l.skip(7)[m] == '\n';
                        assert(l[m + 7] == '\n');
                        assert(l.contains('\n'));
                    }
                }
                assert(!line.contains('\n')) by {
                    if line.contains('\n') {
                        let m = choose|m: int| 0 <= m < line.len() && line[m] == '\n';
                        if m >= 8 {
                            assert(nv[m - 8] == '\n');
                            assert(nv.contains('\n'));
                        }
                    }
                }
                assert forall|k: int| 0 <= k < o.len() implies !(#[trigger] o[k]).contains('\n') by {
                    if k < n1 {
                        assert(o[k] == o1[k]);
                    } else {
                        assert(o[k] == line);
                    }
                }
            }
        } else {
            assert(o == o1);
        }
    } else {
        assert(o == o1.push(l));
        assert(o.drop_last() =~= o1);
        assert(status_fold(o, read) == status_step((h1b, f1b, o1), n1, l, read));
        if clean {
            assert forall|k: int| 0 <= k < o.len() implies !(#[trigger] o[k]).contains('\n') by {
                if k < n1 {
                    assert(o[k] == o1[k]);
                } else {
                    assert(o[k] == l);
                }
            }
        }
    }
}

/// Marking a message read (or unread) twice is marking it once.
pub proof fn lemma_set_read_idempotent(msg: Seq<char>, read: bool)
    ensures
        with_status(with_status(msg, read), read) == with_status(msg, read),
{
    reveal_strlit("Status: R");
    reveal_strlit("Status: ");
    let ls = crate::text::split_char(msg, '\n');
    crate::text::lemma_split_pieces(msg, '\n');
    lemma_status_fold_again(ls, read);
    let (h, f, o) = status_fold(ls, read);
    let sr: Seq<char> = "Status: R"@;
    let fin = if h && !f && read {
        o.push(sr)
    } else {
        o
    };
    assert(with_status(msg, read) == join(fin, "\n"@));
    assert(!sr.contains('\n')) by {
        if sr.contains('\n') {
            let m = choose|m: int| 0 <= m < sr.len() && sr[m] == '\n';
        }
    }
    assert forall|k: int| 0 <= k < fin.len() implies !(#[trigger] fin[k]).contains('\n') by {
        if k < o.len() {
            assert(fin[k] == o[k]);
        } else {
            assert(fin[k] == sr);
        }
    }
    crate::text::lemma_split_join_newlines(fin);
    if h && !f && read {
        let rr: Seq<char> = seq!['R'];
        assert(rr.len() == 1 && rr[0] == 'R');
        assert(rr.contains(rr[0]));
        crate::text::lemma_trim_cons('R', Seq::<char>::empty());
        assert(seq!['R'] + Seq::<char>::empty() =~= rr);
        lemma_status_line_again(seq!['R'], true);
        assert("Status: "@ + seq!['R'] =~= sr);
        assert(fin.drop_last() =~= o);
        let n = o.len() as int;
        assert(status_fold(fin, read) == status_step(status_fold(o, read), n, sr, read));
        assert(status_fold(fin, read) == (h, true, fin));
    }
}

/// No line after the first is empty: all of `p` is still headers.
pub open spec fn in_hdr(p: Seq<Seq<char>>) -> bool {
    forall|j: int| 1 <= j < p.len() ==> (#[trigger] p[j]).len() > 0
}

/// Line `j` is a header line: it follows the first line and no empty line
/// comes before it.
pub open spec fn is_header_at(o: Seq<Seq<char>>, j: int) -> bool {
    1 <= j < o.len() && in_hdr(o.take(j + 1))
}

/// Some `Status:` header holds an `R`.
pub open spec fn has_read_mark(o: Seq<Seq<char>>) -> bool {
    exists|j: int| #[trigger] is_header_at(o, j) && status_header(o[j]) && o[j].contains('R')
}

/// No `Status:` header holds an `R`.
pub open spec fn no_read_mark(o: Seq<Seq<char>>) -> bool {
    forall|j: int| #[trigger] is_header_at(o, j) && status_header(o[j]) ==> !o[j].contains('R')
}

/// The body: the lines from the empty line that ends the headers on.
pub open spec fn message_body(p: Seq<Seq<char>>) -> Seq<Seq<char>>
    decreases p.len(),
{
    if p.len() <= 1 {
        seq![]
    } else if in_hdr(p.drop_last()) {
        if p.last().len() == 0 {
            seq![p.last()]
        } else {
            seq![]
        }
    } else {
        message_body(p.drop_last()).push(p.last())
    }
}

proof fn lemma_hdr_push(o: Seq<Seq<char>>, x: Seq<char>)
    requires
        o.len() >= 1,
    ensures
        forall|j: int| j < o.len() ==> (#[trigger] is_header_at(o.push(x), j) <==> is_header_at(o, j)),
        is_header_at(o.push(x), o.len() as int) <==> (in_hdr(o) && x.len() > 0),
        in_hdr(o.push(x)) <==> (in_hdr(o) && x.len() > 0),
{
    let q = o.push(x);
    assert forall|j: int| j < o.len() implies (#[trigger] is_header_at(q, j) <==> is_header_at(o, j)) by {
        if 1 <= j {
            assert(q.take(j + 1) =~= o.take(j + 1));
        }
    }
    assert(q.take(o.len() as int + 1) =~= q);
    if in_hdr(q) {
        assert forall|j: int| 1 <= j < o.len() implies (#[trigger] o[j]).len() > 0 by {
            assert(q[j] == o[j]);
        }
        assert(q[o.len() as int] == x);
    }
    if in_hdr(o) && x.len() > 0 {
        assert forall|j: int| 1 <= j < q.len() implies (#[trigger] q[j]).len() > 0 by {
            if j < o.len() {
                assert(q[j] == o[j]);
            }
        }
    }
}

proof fn lemma_body_in_hdr(p: Seq<Seq<char>>)
    requires
        in_hdr(p),
    ensures
        message_body(p) == Seq::<Seq<char>>::empty(),
{
    if p.len() > 1 {
        assert(in_hdr(p.drop_last())) by {
            assert forall|j: int| 1 <= j < p.drop_last().len() implies (#[trigger] p.drop_last()[j]).len() > 0 by {
                assert(p.drop_last()[j] == p[j]);
            }
        }
        assert(p.last() == p[p.len() - 1]);
    }
}

proof fn lemma_status_line_mark(nv: Seq<char>)
    ensures
        ("Status: "@ + nv).contains('R') <==> nv.contains('R'),
        ("Status: "@ + nv).len() > 0,
{
    reveal_strlit("Status: ");
    let l = "Status: "@ + nv;
    if l.contains('R') {
        let k = choose|k: int| 0 <= k < l.len() && l[k] == 'R';
        if k >= 8 {
            assert(nv[k - 8] == 'R');
        }
    }
    if nv.contains('R') {
        let k = choose|k: int| 0 <= k < nv.len() && nv[k] == 'R';
        assert(l[k + 8] == 'R');
    }
}

/// What each step of the header rewrite keeps: the first line, whether the
/// headers are still going on, the body, and the read marks.
#[verifier::spinoff_prover]
#[verifier::rlimit(30)]
proof fn lemma_status_fold_marks(ls: Seq<Seq<char>>, read: bool)
    requires
        ls.len() >= 1,
    ensures
        ({
            let (h, f, o) = status_fold(ls, read);
            &&& o.len() >= 1 && o[0] == ls[0]
            &&& h == in_hdr(ls)
            &&& h ==> in_hdr(o)
            &&& !h ==> !in_hdr(o)
            &&& message_body(o) == message_body(ls)
            &&& read ==> (f || !h ==> has_read_mark(o))
            &&& !read ==> no_read_mark(o)
        }),
    decreases ls.len(),
{
    reveal_strlit("Status: R");
    reveal_strlit("Status: ");
    let sr: Seq<char> = "Status: R"@;
    let l = ls.last();
    let i = ls.len() - 1;
    if ls.len() == 1 {
        assert(ls.drop_last() =~= Seq::<Seq<char>>::empty());
        assert(status_fold(ls.drop_last(), read) == (true, false, Seq::<Seq<char>>::empty()));
        assert(status_fold(ls, read) == status_step(status_fold(ls.drop_last(), read), 0, l, read));
        let o: Seq<Seq<char>> = seq![l];
        assert(status_fold(ls, read).2 =~= o);
        assert(l == ls[0]);
        assert forall|j: int| #[trigger] is_header_at(o, j) && status_header(o[j]) implies !o[j].contains('R') by {}
        return;
    }
    let p = ls.drop_last();
    lemma_push_last(p, l);
    lemma_status_fold_marks(p, read);
    let (h1, f1, o1) = status_fold(p, read);
    assert(status_fold(ls, read) == status_step((h1, f1, o1), i, l, read));
    let (h, f, o) = status_fold(ls, read);
    assert(ls =~= p.push(l));
    lemma_hdr_push(p, l);
    lemma_hdr_push(o1, l);
    assert(p[0] == ls[0]);
    if h1 && l.len() == 0 {
        if !f1 && read {
            let oa = o1.push(sr);
            lemma_status_line_mark(seq!['R']);
            assert("Status: "@ + seq!['R'] =~= sr);
            assert(seq!['R'][0] == 'R');
            assert(seq!['R'].contains('R'));
            lemma_hdr_push(o1, sr);
            lemma_hdr_push(oa, l);
            assert(o == oa.push(l));
            assert(status_header(sr)) by {
                reveal_strlit("Status:");
                assert(sr.take(7) =~= "Status:"@);
            }
            assert(is_header_at(oa, o1.len() as int));
            assert(is_header_at(o, o1.len() as int));
            assert(o[o1.len() as int] == sr);
            assert(has_read_mark(o));
            lemma_body_in_hdr(oa);
            assert(o.drop_last() == oa);
            assert(message_body(o) == seq![l]);
            assert(message_body(ls) == seq![l]);
            assert(o[0] == o1[0]);
        } else {
            assert(o == o1.push(l));
            assert(o.drop_last() == o1);
            assert(message_body(o) == seq![l]);
            assert(message_body(ls) == seq![l]);
            assert(o[0] == o1[0]);
            if read {
                let j = choose|j: int| #[trigger] is_header_at(o1, j) && status_header(o1[j]) && o1[j].contains('R');
                assert(is_header_at(o, j));
                assert(o[j] == o1[j]);
            } else {
                assert forall|j: int| #[trigger] is_header_at(o, j) && status_header(o[j]) implies !o[j].contains('R') by {
                    if j < o1.len() {
                        assert(is_header_at(o1, j));
                        assert(o[j] == o1[j]);
                    }
                }
            }
        }
    } else if h1 && status_header(l) {
        let nv = new_status(trim(l.skip(7)), read);
        lemma_new_status_shape(l.skip(7), read);
        assert(l.len() >= 7);
        if nv.len() > 0 {
            let line = "Status: "@ + nv;
            lemma_status_line_again(nv, read);
            lemma_status_line_mark(nv);
            lemma_hdr_push(o1, line);
            assert(o == o1.push(line));
            assert(in_hdr(o));
            lemma_body_in_hdr(o);
            lemma_body_in_hdr(ls);
            assert(o[0] == o1[0]);
            assert(is_header_at(o, o1.len() as int));
            assert(o[o1.len() as int] == line);
            if read {
                assert(has_read_mark(o));
            } else {
                assert forall|j: int| #[trigger] is_header_at(o, j) && status_header(o[j]) implies !o[j].contains('R') by {
                    if j < o1.len() {
                        assert(is_header_at(o1, j));
                        assert(o[j] == o1[j]);
                    }
                }
            }
        } else {
            assert(o == o1);
            lemma_body_in_hdr(o1);
            lemma_body_in_hdr(ls);
        }
    } else {
        assert(o == o1.push(l));
        assert(o.drop_last() == o1);
        assert(o[0] == o1[0]);
        if h1 {
            assert(l.len() > 0);
            lemma_body_in_hdr(o);
            lemma_body_in_hdr(ls);
        } else {
            assert(message_body(o) == message_body(o1).push(l));
            assert(message_body(ls) == message_body(p).push(l));
        }
        if read && (f || !h) {
            let j = choose|j: int| #[trigger] is_header_at(o1, j) && status_header(o1[j]) && o1[j].contains('R');
            assert(is_header_at(o, j));
            assert(o[j] == o1[j]);
        }
        if !read {
            assert forall|j: int| #[trigger] is_header_at(o, j) && status_header(o[j]) implies !o[j].contains('R') by {
                if j < o1.len() {
                    assert(is_header_at(o1, j));
                    assert(o[j] == o1[j]);
                } else {
                    assert(j == o1.len());
                    if !h1 {
                        assert(!is_header_at(o, j));
                    }
                }
            }
        }
    }
}

proof fn lemma_push_last(p: Seq<Seq<char>>, l: Seq<char>)
    ensures
        p.push(l).drop_last() == p,
        p.push(l).last() == l,
{
    assert(p.push(l).drop_last() =~= p);
}

/// What marking a message read (or unread) keeps and sets: its first line
/// and its body (from the empty line that ends the headers on) are kept;
/// marking read leaves a `Status:` header holding `R`, marking unread
/// leaves none.
pub proof fn lemma_set_read_marks(msg: Seq<char>, read: bool)
    ensures
        ({
            let before = crate::text::split_char(msg, '\n');
            let after = crate::text::split_char(with_status(msg, read), '\n');
            &&& after.len() >= 1 && after[0] == before[0]
            &&& message_body(after) == message_body(before)
            &&& read ==> has_read_mark(after)
            &&& !read ==> no_read_mark(after)
        }),
{
    reveal_strlit("Status: R");
    reveal_strlit("Status: ");
    let ls = crate::text::split_char(msg, '\n');
    crate::text::lemma_split_pieces(msg, '\n');
    lemma_status_fold_again(ls, read);
    lemma_status_fold_marks(ls, read);
    let (h, f, o) = status_fold(ls, read);
    let sr: Seq<char> = "Status: R"@;
    let fin = if h && !f && read {
        o.push(sr)
    } else {
        o
    };
    assert(with_status(msg, read) == join(fin, "\n"@));
    assert(!sr.contains('\n')) by {
        if sr.contains('\n') {
            let m = choose|m: int| 0 <= m < sr.len() && sr[m] == '\n';
        }
    }
    assert forall|k: int| 0 <= k < fin.len() implies !(#[trigger] fin[k]).contains('\n') by {
        if k < o.len() {
            assert(fin[k] == o[k]);
        } else {
            assert(fin[k] == sr);
        }
    }
    crate::text::lemma_split_join_newlines(fin);
    if h && !f && read {
        lemma_status_line_mark(seq!['R']);
        assert("Status: "@ + seq!['R'] =~= sr);
        assert(seq!['R'][0] == 'R');
        assert(seq!['R'].contains('R'));
        lemma_hdr_push(o, sr);
        assert(status_header(sr)) by {
            reveal_strlit("Status:");
            assert(sr.take(7) =~= "Status:"@);
        }
        assert(is_header_at(fin, o.len() as int));
        assert(fin[o.len() as int] == sr);
        assert(fin[0] == o[0]);
        lemma_body_in_hdr(fin);
        lemma_body_in_hdr(o);
    }
}

/// The message with its read mark set or cleared (see `with_status`).
#[verifier::spinoff_prover]
#[verifier::rlimit(40)]
pub fn set_message_read(msg: &str, read: bool) -> (r: String)
    requires
        !status_check_fails(msg@),
    ensures
        r@ == with_status(msg@, read),
{
    let ls = crate::text::split_str(msg, '\n');
    let ghost lv = ls.deep_view();
    let mut out: Vec<String> = Vec::new();
    let mut in_headers = true;
    let mut found = false;
    let mut i: usize = 0;
    assert(lv.take(0) =~= Seq::<Seq<char>>::empty());
    assert(out.deep_view() =~= Seq::<Seq<char>>::empty());
    while i < ls.len()
        invariant
            i <= ls@.len() == lv.len(),
            lv == ls.deep_view(),
            lv == crate::text::split_char(msg@, '\n'),
            !status_check_fails(msg@),
            status_fold(lv.take(i as int), read) == (in_headers, found, out.deep_view()),
            in_headers ==> forall|j: int| 1 <= j < i ==> (#[trigger] lv[j]).len() > 0,
        decreases ls@.len() - i,
    {
        assert(lv.take(i + 1).drop_last() =~= lv.take(i as int));
        assert(lv.take(i + 1).last() == lv[i as int]);
        assert(lv[i as int] == ls@[i as int]@);
        proof {
            if in_headers && i > 0 && lv[i as int].len() > 0 {
                assert(forall|j: int| 1 <= j <= i ==> (#[trigger] lv[j]).len() > 0);
            }
        }
        status_line_exec(&mut in_headers, &mut found, &mut out, i, ls[i].as_str(), read);
        i += 1;
    }
    assert(lv.take(i as int) =~= lv);
    if in_headers && !found && read {
        let ghost o = out.deep_view();
        out.push(owned("Status: R"));
        assert(out.deep_view() =~= o.push("Status: R"@));
    }
    join_strings(&out, "\n")
}

} // verus!
