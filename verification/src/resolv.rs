//! `/etc/resolv.conf`: reading the resolver settings, and writing new ones
//! while keeping comments and lines the panel does not manage.
use vstd::prelude::*;
use crate::error::{ApiError, ApiResult, bad_request, is_bad_request};
use crate::netaddr::{ip_addr_valid};
use crate::network::{DnsConfig, validate_ip};
use crate::text::{
    before_char, before_char_str, join, join_strings, lines, owned, push_line, push_str,
    split_lines, split_ws, str_eq, string_eq, strip_cr, text_of, trim, trim_end, trim_end_str,
    trim_str, words,
};

verus! {

/// The resolver settings, as values.
#[verifier::ext_equal]
pub struct DnsView {
    pub nameservers: Seq<Seq<char>>,
    pub search: Seq<Seq<char>>,
    pub domain: Option<Seq<char>>,
    pub options: Seq<Seq<char>>,
    pub sortlist: Seq<Seq<char>>,
}

pub open spec fn dns_view(c: DnsConfig) -> DnsView {
    DnsView {
        nameservers: c.nameservers.deep_view(),
        search: c.search.deep_view(),
        domain: match c.domain {
            Some(d) => Some(d@),
            None => None,
        },
        options: c.options.deep_view(),
        sortlist: c.sortlist.deep_view(),
    }
}

pub open spec fn empty_dns() -> DnsView {
    DnsView { nameservers: seq![], search: seq![], domain: None, options: seq![], sortlist: seq![] }
}

/// The words of a line once its `#` comment is cut off.
pub open spec fn line_words(line: Seq<char>) -> Seq<Seq<char>> {
    words(trim(before_char(line, '#')))
}

/// One line read into the settings: `nameserver` adds its address,
/// `search`, `options` and `sortlist` add their words, `domain` sets the
/// domain (to nothing when it names none); other lines are ignored.
pub open spec fn resolv_step(c: DnsView, line: Seq<char>) -> DnsView {
    let w = line_words(line);
    if w.len() == 0 {
        c
    } else if w[0] == "nameserver"@ {
        if w.len() > 1 {
            DnsView { nameservers: c.nameservers.push(w[1]), ..c }
        } else {
            c
        }
    } else if w[0] == "search"@ {
        DnsView { search: c.search + w.skip(1), ..c }
    } else if w[0] == "domain"@ {
        DnsView {
            domain: if w.len() > 1 {
                Some(w[1])
            } else {
                None
            },
            ..c
        }
    } else if w[0] == "options"@ {
        DnsView { options: c.options + w.skip(1), ..c }
    } else if w[0] == "sortlist"@ {
        DnsView { sortlist: c.sortlist + w.skip(1), ..c }
    } else {
        c
    }
}

pub open spec fn resolv_fold(ls: Seq<Seq<char>>) -> DnsView
    decreases ls.len(),
{
    if ls.len() == 0 {
        empty_dns()
    } else {
        resolv_step(resolv_fold(ls.drop_last()), ls.last())
    }
}

/// The settings `content` describes.
pub open spec fn resolv_spec(content: Seq<char>) -> DnsView {
    resolv_fold(lines(content))
}

fn extend_from(dst: &mut Vec<String>, w: &Vec<String>, from: usize)
    requires
        from <= w@.len(),
    ensures
        final(dst).deep_view() == old(dst).deep_view() + w.deep_view().skip(from as int),
{
    let ghost d0 = dst.deep_view();
    let mut i = from;
    while i < w.len()
        invariant
            from <= i <= w@.len(),
            dst.deep_view() == d0 + w.deep_view().subrange(from as int, i as int),
        decreases w@.len() - i,
    {
        let ghost d1 = dst.deep_view();
        assert(w.deep_view()[i as int] == w@[i as int]@);
        dst.push(w[i].clone());
        assert(dst.deep_view() =~= d1.push(w@[i as int]@));
        assert(dst.deep_view() =~= d0 + w.deep_view().subrange(from as int, i + 1));
        i += 1;
    }
    assert(w.deep_view().subrange(from as int, w@.len() as int) =~= w.deep_view().skip(from as int));
}

fn line_words_of(line: &str) -> (r: Vec<String>)
    ensures
        r.deep_view() == line_words(line@),
{
    let head = before_char_str(line, '#');
    let t = trim_str(head.as_str());
    split_ws(t.as_str())
}

/// Reads the text of resolv.conf.
pub fn parse_resolv_conf(content: &str) -> (c: DnsConfig)
    ensures
        dns_view(c) == resolv_spec(content@),
{
    let mut cfg = DnsConfig {
        nameservers: Vec::new(),
        search: Vec::new(),
        domain: None,
        options: Vec::new(),
        sortlist: Vec::new(),
    };
    let ls = split_lines(content);
    let ghost lv = ls.deep_view();
    let mut i: usize = 0;
    assert(lv.take(0) =~= Seq::<Seq<char>>::empty());
    assert(dns_view(cfg) =~= empty_dns());
    while i < ls.len()
        invariant
            i <= ls@.len() == lv.len(),
            lv == ls.deep_view(),
            lv == lines(content@),
            dns_view(cfg) == resolv_fold(lv.take(i as int)),
        decreases ls@.len() - i,
    {
        assert(lv[i as int] == ls@[i as int]@);
        assert(lv.take(i + 1).drop_last() =~= lv.take(i as int));
        let w = line_words_of(ls[i].as_str());
        let ghost wv = w.deep_view();
        let ghost before = dns_view(cfg);
        if w.len() > 0 {
            assert(wv[0] == w@[0]@);
            let kw = w[0].as_str();
            if str_eq(kw, "nameserver") {
                if w.len() > 1 {
                    assert(wv[1] == w@[1]@);
                    cfg.nameservers.push(w[1].clone());
                    assert(cfg.nameservers.deep_view() =~= before.nameservers.push(wv[1]));
                }
            } else if str_eq(kw, "search") {
                extend_from(&mut cfg.search, &w, 1);
            } else if str_eq(kw, "domain") {
                if w.len() > 1 {
                    assert(wv[1] == w@[1]@);
                    cfg.domain = Some(w[1].clone());
                } else {
                    cfg.domain = None;
                }
            } else if str_eq(kw, "options") {
                extend_from(&mut cfg.options, &w, 1);
            } else if str_eq(kw, "sortlist") {
                extend_from(&mut cfg.sortlist, &w, 1);
            }
        }
        assert(dns_view(cfg) =~= resolv_step(before, lv[i as int]));
        i += 1;
    }
    assert(lv.take(lv.len() as int) =~= lv);
    cfg
}

// ───────────────────────── writing ─────────────────────────

/// The keyword of a line: its first word before any `#` comment.
pub open spec fn keyword(line: Seq<char>) -> Seq<char> {
    let w = words(trim_end(before_char(line, '#')));
    if w.len() > 0 {
        w[0]
    } else {
        seq![]
    }
}

pub open spec fn nameserver_lines(ns: Seq<Seq<char>>) -> Seq<Seq<char>> {
    ns.map_values(|n: Seq<char>| "nameserver "@ + n)
}

/// `<key> <words>`, when there are words.
pub open spec fn list_line(key: Seq<char>, items: Seq<Seq<char>>) -> Seq<Seq<char>> {
    if items.len() > 0 {
        seq![key + " "@ + join(items, " "@)]
    } else {
        seq![]
    }
}

pub open spec fn domain_line(d: Option<Seq<char>>) -> Seq<Seq<char>> {
    match d {
        Some(x) => seq!["domain "@ + x],
        None => seq![],
    }
}

/// Writing state: lines written so far, and which settings have been
/// written (`nameserver`, `search`, `domain`, `options`, `sortlist`).
#[verifier::ext_equal]
pub struct WriteState {
    pub out: Seq<Seq<char>>,
    pub ns: bool,
    pub search: bool,
    pub domain: bool,
    pub options: bool,
    pub sortlist: bool,
}

/// One line of the current file: the first line of each managed setting
/// is replaced by the new setting and the later ones dropped (for `search`,
/// `options` and `sortlist`, lines are only replaced while there is
/// something to write); every other line is kept.
pub open spec fn write_step(st: WriteState, line: Seq<char>, c: DnsView) -> WriteState {
    let kw = keyword(line);
    if kw == "nameserver"@ {
        if !st.ns {
            WriteState { out: st.out + nameserver_lines(c.nameservers), ns: true, ..st }
        } else {
            st
        }
    } else if kw == "search"@ {
        if !st.search && c.search.len() > 0 {
            WriteState { out: st.out + list_line("search"@, c.search), search: true, ..st }
        } else {
            st
        }
    } else if kw == "domain"@ {
        if !st.domain {
            WriteState { out: st.out + domain_line(c.domain), domain: true, ..st }
        } else {
            st
        }
    } else if kw == "options"@ {
        if !st.options && c.options.len() > 0 {
            WriteState { out: st.out + list_line("options"@, c.options), options: true, ..st }
        } else {
            st
        }
    } else if kw == "sortlist"@ {
        if !st.sortlist && c.sortlist.len() > 0 {
            WriteState { out: st.out + list_line("sortlist"@, c.sortlist), sortlist: true, ..st }
        } else {
            st
        }
    } else {
        WriteState { out: st.out.push(line), ..st }
    }
}

pub open spec fn write_fold(ls: Seq<Seq<char>>, c: DnsView) -> WriteState
    decreases ls.len(),
{
    if ls.len() == 0 {
        WriteState {
            out: seq![],
            ns: false,
            search: false,
            domain: false,
            options: false,
            sortlist: false,
        }
    } else {
        write_step(write_fold(ls.drop_last(), c), ls.last(), c)
    }
}

/// `lines` unless the setting was already written.
pub open spec fn rest_piece(written: bool, lines: Seq<Seq<char>>) -> Seq<Seq<char>> {
    if written {
        seq![]
    } else {
        lines
    }
}

/// The settings that no line of the current held, appended at the end.
pub open spec fn write_rest(st: WriteState, c: DnsView) -> Seq<Seq<char>> {
    rest_piece(st.ns, nameserver_lines(c.nameservers)) + rest_piece(
        st.search,
        list_line("search"@, c.search),
    ) + rest_piece(st.domain, domain_line(c.domain)) + rest_piece(
        st.options,
        list_line("options"@, c.options),
    ) + rest_piece(st.sortlist, list_line("sortlist"@, c.sortlist))
}

/// The lines of the new file.
pub open spec fn resolv_lines(current: Seq<char>, c: DnsView) -> Seq<Seq<char>> {
    let st = write_fold(lines(current), c);
    st.out + write_rest(st, c)
}

fn keyword_of(line: &str) -> (r: String)
    ensures
        r@ == keyword(line@),
{
    let head = before_char_str(line, '#');
    let t = trim_end_str(head.as_str());
    let w = split_ws(t.as_str());
    if w.len() > 0 {
        assert(w.deep_view()[0] == w@[0]@);
        w[0].clone()
    } else {
        String::new()
    }
}

fn push_lines(out: &mut String, add: &Vec<String>, Ghost(ls): Ghost<Seq<Seq<char>>>)
    requires
        old(out)@ == text_of(ls),
    ensures
        final(out)@ == text_of(ls + add.deep_view()),
{
    let mut i: usize = 0;
    assert(ls + add.deep_view().take(0) =~= ls);
    while i < add.len()
        invariant
            i <= add@.len(),
            out@ == text_of(ls + add.deep_view().take(i as int)),
        decreases add@.len() - i,
    {
        assert(add.deep_view()[i as int] == add@[i as int]@);
        push_line(out, &add[i], Ghost(ls + add.deep_view().take(i as int)));
        assert((ls + add.deep_view().take(i as int)).push(add@[i as int]@) =~= ls
            + add.deep_view().take(i + 1));
        i += 1;
    }
    assert(add.deep_view().take(add@.len() as int) =~= add.deep_view());
}

fn nameserver_vec(ns: &Vec<String>) -> (r: Vec<String>)
    ensures
        r.deep_view() == nameserver_lines(ns.deep_view()),
{
    let mut v: Vec<String> = Vec::new();
    let mut i: usize = 0;
    while i < ns.len()
        invariant
            i <= ns@.len(),
            v.deep_view() == nameserver_lines(ns.deep_view().take(i as int)),
        decreases ns@.len() - i,
    {
        let ghost v0 = v.deep_view();
        let mut l = owned("nameserver ");
        push_str(&mut l, ns[i].as_str());
        v.push(l);
        assert(ns.deep_view()[i as int] == ns@[i as int]@);
        assert(ns.deep_view().take(i + 1) =~= ns.deep_view().take(i as int).push(ns@[i as int]@));
        assert(v.deep_view() =~= v0.push("nameserver "@ + ns@[i as int]@));
        assert(v.deep_view() =~= nameserver_lines(ns.deep_view().take(i + 1)));
        i += 1;
    }
    assert(ns.deep_view().take(ns@.len() as int) =~= ns.deep_view());
    v
}

fn list_vec(key: &str, items: &Vec<String>) -> (r: Vec<String>)
    ensures
        r.deep_view() == list_line(key@, items.deep_view()),
{
    let mut v: Vec<String> = Vec::new();
    if items.len() > 0 {
        let mut l = owned(key);
        push_str(&mut l, " ");
        let j = join_strings(items, " ");
        push_str(&mut l, j.as_str());
        v.push(l);
    }
    assert(v.deep_view() =~= list_line(key@, items.deep_view()));
    v
}

fn domain_vec(d: &Option<String>) -> (r: Vec<String>)
    ensures
        r.deep_view() == domain_line(
            match d {
                Some(x) => Some(x@),
                None => None,
            },
        ),
{
    let mut v: Vec<String> = Vec::new();
    match d {
        Some(x) => {
            let mut l = owned("domain ");
            push_str(&mut l, x.as_str());
            v.push(l);
        },
        None => {},
    }
    assert(v.deep_view() =~= domain_line(
        match d {
            Some(x) => Some(x@),
            None => None,
        },
    ));
    v
}

/// The lines each managed setting is written as.
pub struct Prepared {
    pub ns: Vec<String>,
    pub search: Vec<String>,
    pub domain: Vec<String>,
    pub options: Vec<String>,
    pub sortlist: Vec<String>,
}

pub open spec fn prepared_for(p: Prepared, c: DnsView) -> bool {
    &&& p.ns.deep_view() == nameserver_lines(c.nameservers)
    &&& p.search.deep_view() == list_line("search"@, c.search)
    &&& p.domain.deep_view() == domain_line(c.domain)
    &&& p.options.deep_view() == list_line("options"@, c.options)
    &&& p.sortlist.deep_view() == list_line("sortlist"@, c.sortlist)
}

/// Which settings have been written.
pub struct Written {
    pub ns: bool,
    pub search: bool,
    pub domain: bool,
    pub options: bool,
    pub sortlist: bool,
}

pub open spec fn state_of(out: Seq<Seq<char>>, w: Written) -> WriteState {
    WriteState {
        out: out,
        ns: w.ns,
        search: w.search,
        domain: w.domain,
        options: w.options,
        sortlist: w.sortlist,
    }
}

fn write_one(
    out: &mut String,
    w: &mut Written,
    line: &String,
    cfg: &DnsConfig,
    p: &Prepared,
    Ghost(outl): Ghost<Seq<Seq<char>>>,
) -> (new_outl: Ghost<Seq<Seq<char>>>)
    requires
        old(out)@ == text_of(outl),
        prepared_for(*p, dns_view(*cfg)),
    ensures
        final(out)@ == text_of(new_outl@),
        state_of(new_outl@, *final(w)) == write_step(state_of(outl, *old(w)), line@, dns_view(*cfg)),
{
    let ghost c = dns_view(*cfg);
    let kw = keyword_of(line.as_str());
    if str_eq(kw.as_str(), "nameserver") {
        if !w.ns {
            push_lines(out, &p.ns, Ghost(outl));
            w.ns = true;
            return Ghost(outl + p.ns.deep_view());
        }
    } else if str_eq(kw.as_str(), "search") {
        if !w.search && cfg.search.len() > 0 {
            push_lines(out, &p.search, Ghost(outl));
            w.search = true;
            return Ghost(outl + p.search.deep_view());
        }
    } else if str_eq(kw.as_str(), "domain") {
        if !w.domain {
            push_lines(out, &p.domain, Ghost(outl));
            w.domain = true;
            return Ghost(outl + p.domain.deep_view());
        }
    } else if str_eq(kw.as_str(), "options") {
        if !w.options && cfg.options.len() > 0 {
            push_lines(out, &p.options, Ghost(outl));
            w.options = true;
            return Ghost(outl + p.options.deep_view());
        }
    } else if str_eq(kw.as_str(), "sortlist") {
        if !w.sortlist && cfg.sortlist.len() > 0 {
            push_lines(out, &p.sortlist, Ghost(outl));
            w.sortlist = true;
            return Ghost(outl + p.sortlist.deep_view());
        }
    } else {
        push_line(out, line, Ghost(outl));
        return Ghost(outl.push(line@));
    }
    Ghost(outl)
}

fn push_unless(out: &mut String, written: bool, add: &Vec<String>, Ghost(o): Ghost<Seq<Seq<char>>>) -> (r: Ghost<Seq<Seq<char>>>)
    requires
        old(out)@ == text_of(o),
    ensures
        r@ == o + rest_piece(written, add.deep_view()),
        final(out)@ == text_of(r@),
{
    if !written {
        push_lines(out, add, Ghost(o));
        Ghost(o + add.deep_view())
    } else {
        assert(o + Seq::<Seq<char>>::empty() =~= o);
        Ghost(o)
    }
}

proof fn lemma_rest_pieces(st: WriteState, c: DnsView, p: Prepared)
    requires
        prepared_for(p, c),
    ensures
        write_rest(st, c) == rest_piece(st.ns, p.ns.deep_view()) + rest_piece(
            st.search,
            p.search.deep_view(),
        ) + rest_piece(st.domain, p.domain.deep_view()) + rest_piece(
            st.options,
            p.options.deep_view(),
        ) + rest_piece(st.sortlist, p.sortlist.deep_view()),
{
}

proof fn lemma_add5_assoc(
    o: Seq<Seq<char>>,
    a: Seq<Seq<char>>,
    b: Seq<Seq<char>>,
    c: Seq<Seq<char>>,
    d: Seq<Seq<char>>,
    e: Seq<Seq<char>>,
)
    ensures
        o + a + b + c + d + e == o + (a + b + c + d + e),
{
    assert(o + a + b + c + d + e =~= o + (a + b + c + d + e));
}

fn write_missing(
    out: &mut String,
    w: &Written,
    p: &Prepared,
    Ghost(outl): Ghost<Seq<Seq<char>>>,
    Ghost(c): Ghost<DnsView>,
)
    requires
        old(out)@ == text_of(outl),
        prepared_for(*p, c),
    ensures
        final(out)@ == text_of(outl + write_rest(state_of(outl, *w), c)),
{
    let g1 = push_unless(out, w.ns, &p.ns, Ghost(outl));
    let g2 = push_unless(out, w.search, &p.search, g1);
    let g3 = push_unless(out, w.domain, &p.domain, g2);
    let g4 = push_unless(out, w.options, &p.options, g3);
    let g5 = push_unless(out, w.sortlist, &p.sortlist, g4);
    let ghost r1 = rest_piece(w.ns, p.ns.deep_view());
    let ghost r2 = rest_piece(w.search, p.search.deep_view());
    let ghost r3 = rest_piece(w.domain, p.domain.deep_view());
    let ghost r4 = rest_piece(w.options, p.options.deep_view());
    let ghost r5 = rest_piece(w.sortlist, p.sortlist.deep_view());
    proof {
        lemma_rest_pieces(state_of(outl, *w), c, *p);
        lemma_add5_assoc(outl, r1, r2, r3, r4, r5);
    }

}

/// The new text of resolv.conf: the current with its managed settings
/// replaced by `cfg`, comments and other lines kept in place.
pub fn build_resolv_conf(current: &str, cfg: &DnsConfig) -> (r: String)
    ensures
        r@ == text_of(resolv_lines(current@, dns_view(*cfg))),
{
    let ghost c = dns_view(*cfg);
    let p = Prepared {
        ns: nameserver_vec(&cfg.nameservers),
        search: list_vec("search", &cfg.search),
        domain: domain_vec(&cfg.domain),
        options: list_vec("options", &cfg.options),
        sortlist: list_vec("sortlist", &cfg.sortlist),
    };
    let mut out = String::new();
    proof {
        crate::text::lemma_text_of_empty();
    }
    let mut w = Written { ns: false, search: false, domain: false, options: false, sortlist: false };
    let ls = split_lines(current);
    let ghost lv = ls.deep_view();
    let ghost mut outl: Seq<Seq<char>> = seq![];
    let mut i: usize = 0;
    assert(lv.take(0) =~= Seq::<Seq<char>>::empty());
    assert(state_of(outl, w) =~= write_fold(lv.take(0), c));
    while i < ls.len()
        invariant
            i <= ls@.len() == lv.len(),
            lv == ls.deep_view(),
            lv == lines(current@),
            c == dns_view(*cfg),
            prepared_for(p, c),
            out@ == text_of(outl),
            write_fold(lv.take(i as int), c) == state_of(outl, w),
        decreases ls@.len() - i,
    {
        assert(lv[i as int] == ls@[i as int]@);
        assert(lv.take(i + 1).drop_last() =~= lv.take(i as int));
        let g = write_one(&mut out, &mut w, &ls[i], cfg, &p, Ghost(outl));
        proof {
            outl = g@;
        }
        i += 1;
    }
    assert(lv.take(lv.len() as int) =~= lv);
    write_missing(&mut out, &w, &p, Ghost(outl), Ghost(c));
    out
}

/// The trimmed, non-blank entries of a request, in order.
pub open spec fn requested_servers(req: Seq<Seq<char>>) -> Seq<Seq<char>>
    decreases req.len(),
{
    if req.len() == 0 {
        seq![]
    } else {
        requested_servers(req.drop_last()) + if trim(req.last()).len() > 0 {
            seq![trim(req.last())]
        } else {
            seq![]
        }
    }
}

/// Every server is an IP address, and none is given twice.
pub open spec fn servers_ok(s: Seq<Seq<char>>) -> bool {
    &&& forall|i: int| 0 <= i < s.len() ==> ip_addr_valid(#[trigger] s[i])
    &&& forall|i: int, j: int| 0 <= i < j < s.len() ==> s[i] != s[j]
}

proof fn lemma_requested_prefix(rv: Seq<Seq<char>>, k: int, j: int) -> (t: Seq<Seq<char>>)
    requires
        0 <= k <= j <= rv.len(),
    ensures
        requested_servers(rv.take(j)) == requested_servers(rv.take(k)) + t,
    decreases j - k,
{
    if j == k {
        assert(requested_servers(rv.take(j)) =~= requested_servers(rv.take(k)) + Seq::<Seq<char>>::empty());
        Seq::<Seq<char>>::empty()
    } else {
        let t = lemma_requested_prefix(rv, k, j - 1);
        assert(rv.take(j).drop_last() =~= rv.take(j - 1));
        let extra = if trim(rv[j - 1]).len() > 0 {
            seq![trim(rv[j - 1])]
        } else {
            Seq::<Seq<char>>::empty()
        };
        assert(requested_servers(rv.take(j)) =~= requested_servers(rv.take(k)) + (t + extra));
        t + extra
    }
}

proof fn lemma_bad_prefix(p: Seq<Seq<char>>, t: Seq<Seq<char>>)
    requires
        !servers_ok(p),
    ensures
        !servers_ok(p + t),
{
    let w = p + t;
    if exists|i: int| 0 <= i < p.len() && !ip_addr_valid(#[trigger] p[i]) {
        let i = choose|i: int| 0 <= i < p.len() && !ip_addr_valid(#[trigger] p[i]);
        assert(w[i] == p[i]);
    } else {
        let (i, j) = choose|i: int, j: int| 0 <= i < j < p.len() && p[i] == p[j];
        assert(w[i] == p[i] && w[j] == p[j]);
    }
}

fn position_of(list: &Vec<String>, s: &String) -> (r: Option<usize>)
    ensures
        match r {
            Some(k) => k < list@.len() && list.deep_view()[k as int] == s@,
            None => forall|m: int| 0 <= m < list@.len() ==> list.deep_view()[m] != s@,
        },
{
    let mut k: usize = 0;
    while k < list.len()
        invariant
            k <= list@.len(),
            forall|m: int| 0 <= m < k ==> list.deep_view()[m] != s@,
        decreases list@.len() - k,
    {
        assert(list.deep_view()[k as int] == list@[k as int]@);
        if string_eq(&list[k], s) {
            return Some(k);
        }
        k += 1;
    }
    None
}

proof fn lemma_whole_bad(rv: Seq<Seq<char>>, k: int)
    requires
        0 <= k <= rv.len(),
        !servers_ok(requested_servers(rv.take(k))),
    ensures
        !servers_ok(requested_servers(rv)),
{
    let t = lemma_requested_prefix(rv, k, rv.len() as int);
    assert(rv.take(rv.len() as int) =~= rv);
    lemma_bad_prefix(requested_servers(rv.take(k)), t);
}

/// Checks the nameservers of a request and gives those to write: at most
/// three entries; blank ones skipped; the others trimmed, each an IP
/// address, none given twice.
#[verifier::rlimit(40)]
pub fn nameserver_request(req: &Vec<String>) -> (r: ApiResult<Vec<String>>)
    ensures
        r is Ok <==> (req@.len() <= 3 && servers_ok(requested_servers(req.deep_view()))),
        r matches Ok(v) ==> v.deep_view() == requested_servers(req.deep_view()),
        req@.len() > 3 ==> is_bad_request(r, "resolv.conf supports at most 3 nameservers"@),
{
    if req.len() > 3 {
        return bad_request("resolv.conf supports at most 3 nameservers");
    }
    let ghost rv = req.deep_view();
    let mut servers: Vec<String> = Vec::new();
    let mut i: usize = 0;
    assert(rv.take(0) =~= Seq::<Seq<char>>::empty());
    while i < req.len()
        invariant
            i <= req@.len() == rv.len(),
            req@.len() <= 3,
            rv == req.deep_view(),
            servers.deep_view() == requested_servers(rv.take(i as int)),
            servers_ok(servers.deep_view()),
        decreases req@.len() - i,
    {
        assert(rv[i as int] == req@[i as int]@);
        assert(rv.take(i + 1).drop_last() =~= rv.take(i as int));
        let addr = trim_str(req[i].as_str());
        let ghost s0 = servers.deep_view();
        if !addr.as_str().is_empty() {
            assert(requested_servers(rv.take(i + 1)) =~= s0.push(addr@));
            if validate_ip(addr.as_str()).is_err() {
                proof {
                    let p = s0.push(addr@);
                    assert(!ip_addr_valid(p[s0.len() as int]));
                    lemma_whole_bad(rv, i + 1);
                }
                return Err(
                    ApiError::BadRequest(
                        crate::network::quoted_message(addr.as_str(), "is not a valid IP address"),
                    ),
                );
            }
            match position_of(&servers, &addr) {
                Some(k) => {
                    proof {
                        let p = s0.push(addr@);
                        assert(p[k as int] == p[s0.len() as int]);
                        lemma_whole_bad(rv, i + 1);
                    }
                    let mut m = owned("duplicate nameserver: ");
                    push_str(&mut m, addr.as_str());
                    return Err(ApiError::Conflict(m));
                },
                None => {},
            }
            servers.push(addr);
            assert(servers.deep_view() =~= s0.push(addr@));
        } else {
            assert(requested_servers(rv.take(i + 1)) =~= s0);
        }
        i += 1;
    }
    assert(rv.take(rv.len() as int) =~= rv);
    Ok(servers)
}

// ───────────────────────── what is written reads back ─────────────────────────

/// A value the file holds as one word: no whitespace and no `#`.
pub open spec fn clean_word(w: Seq<char>) -> bool {
    crate::text::is_word(w) && !w.contains('#')
}

pub open spec fn clean_words(ws: Seq<Seq<char>>) -> bool {
    forall|k: int| 0 <= k < ws.len() ==> clean_word(#[trigger] ws[k])
}

/// Settings whose every value is one word without `#`.
pub open spec fn dns_clean(c: DnsView) -> bool {
    &&& clean_words(c.nameservers)
    &&& clean_words(c.search)
    &&& match c.domain {
        Some(d) => clean_word(d),
        None => true,
    }
    &&& clean_words(c.options)
    &&& clean_words(c.sortlist)
}

/// Reading lines on from the settings `c`.
pub open spec fn resolv_from(c: DnsView, ls: Seq<Seq<char>>) -> DnsView
    decreases ls.len(),
{
    if ls.len() == 0 {
        c
    } else {
        resolv_step(resolv_from(c, ls.drop_last()), ls.last())
    }
}

proof fn lemma_resolv_from_empty(ls: Seq<Seq<char>>)
    ensures
        resolv_fold(ls) == resolv_from(empty_dns(), ls),
    decreases ls.len(),
{
    if ls.len() > 0 {
        lemma_resolv_from_empty(ls.drop_last());
    }
}

proof fn lemma_resolv_from_concat(c: DnsView, a: Seq<Seq<char>>, b: Seq<Seq<char>>)
    ensures
        resolv_from(c, a + b) == resolv_from(resolv_from(c, a), b),
    decreases b.len(),
{
    if b.len() == 0 {
        assert(a + b =~= a);
    } else {
        assert((a + b).drop_last() =~= a + b.drop_last());
        assert((a + b).last() == b.last());
        lemma_resolv_from_concat(c, a, b.drop_last());
    }
}

proof fn lemma_no_char_join(items: Seq<Seq<char>>, sep: Seq<char>, ch: char)
    requires
        !sep.contains(ch),
        forall|k: int| 0 <= k < items.len() ==> !(#[trigger] items[k]).contains(ch),
    ensures
        !join(items, sep).contains(ch),
    decreases items.len(),
{
    if items.len() > 1 {
        lemma_no_char_join(items.drop_last(), sep, ch);
        let j = join(items.drop_last(), sep);
        let l = items.last();
        assert(!l.contains(ch));
        let t = j + sep + l;
        if t.contains(ch) {
            let k = choose|k: int| 0 <= k < t.len() && t[k] == ch;
            if k < j.len() {
                assert(t[k] == j[k]);
            } else if k < j.len() + sep.len() {
                assert(t[k] == sep[k - j.len()]);
            } else {
                assert(t[k] == l[k - j.len() - sep.len()]);
            }
        }
    } else if items.len() == 1 {
        assert(!items[0].contains(ch));
    }
}

proof fn lemma_join_last(items: Seq<Seq<char>>, sep: Seq<char>)
    requires
        items.len() > 0,
        items.last().len() > 0,
    ensures
        join(items, sep).len() > 0,
        join(items, sep).last() == items.last().last(),
{
    if items.len() == 1 {
        assert(items.last() == items[0]);
    }
}

/// A line without `#`, ending in a character other than whitespace, reads
/// as its words.
proof fn lemma_line_words_plain(g: Seq<char>)
    requires
        !g.contains('#'),
        g.len() > 0,
        !crate::text::is_ws(g.last()),
    ensures
        strip_cr(g) == g,
        line_words(g) == words(g),
{
    assert forall|k: int| 0 <= k < g.len() implies g[k] != '#' by {}
    crate::text::lemma_find_char(g, '#', g.len() as int);
    crate::text::lemma_words_trim(g);
}

/// The line `key` then the words `items`, each one word without `#`.
proof fn lemma_key_line(key: Seq<char>, items: Seq<Seq<char>>)
    requires
        clean_word(key),
        items.len() > 0,
        clean_words(items),
    ensures
        strip_cr(key + " "@ + join(items, " "@)) == key + " "@ + join(items, " "@),
        line_words(key + " "@ + join(items, " "@)) == seq![key] + items,
        !(key + " "@ + join(items, " "@)).contains('\n'),
{
    reveal_strlit(" ");
    let j = join(items, " "@);
    let g = key + " "@ + j;
    assert forall|k: int| 0 <= k < items.len() implies !(#[trigger] items[k]).contains('#') by {
        assert(clean_word(items[k]));
    }
    assert forall|k: int| 0 <= k < items.len() implies !(#[trigger] items[k]).contains('\n') by {
        assert(clean_word(items[k]));
        if items[k].contains('\n') {
            let m = choose|m: int| 0 <= m < items[k].len() && items[k][m] == '\n';
            assert(!crate::text::is_ws(items[k][m]));
        }
    }
    lemma_no_char_join(items, " "@, '#');
    lemma_no_char_join(items, " "@, '\n');
    assert(clean_word(items.last()));
    lemma_join_last(items, " "@);
    assert(!crate::text::is_ws(items.last().last()));
    assert(g.last() == j.last());
    assert(!g.contains('#')) by {
        if g.contains('#') {
            let k = choose|k: int| 0 <= k < g.len() && g[k] == '#';
            if k < key.len() {
                assert(g[k] == key[k]);
            } else if k == key.len() {
                assert(g[k] == ' ');
            } else {
                assert(g[k] == j[k - key.len() - 1]);
            }
        }
    }
    assert(!g.contains('\n')) by {
        if g.contains('\n') {
            let k = choose|k: int| 0 <= k < g.len() && g[k] == '\n';
            if k < key.len() {
                assert(g[k] == key[k]);
                assert(!crate::text::is_ws(key[k]));
            } else if k == key.len() {
                assert(g[k] == ' ');
            } else {
                assert(g[k] == j[k - key.len() - 1]);
            }
        }
    }
    lemma_line_words_plain(g);
    assert forall|k: int| 0 <= k < items.len() implies crate::text::is_word(#[trigger] items[k]) by {
        assert(clean_word(items[k]));
    }
    crate::text::lemma_words_join(items);
    crate::text::lemma_words_cons(key, j);
}

/// A line the writer keeps (its keyword is none of the five settings)
/// changes nothing when read.
proof fn lemma_kept_line(x: DnsView, l: Seq<char>)
    requires
        keyword(l) != "nameserver"@,
        keyword(l) != "search"@,
        keyword(l) != "domain"@,
        keyword(l) != "options"@,
        keyword(l) != "sortlist"@,
    ensures
        resolv_step(x, strip_cr(l)) == x,
{
    let b = before_char(l, '#');
    crate::text::lemma_words_trim_end(b);
    let m = strip_cr(l);
    crate::text::lemma_words_trim(before_char(m, '#'));
    if l.len() > 0 && l.last() == '\r' {
        assert(m == l.drop_last());
        crate::text::lemma_find_char_facts(l, '#');
        match crate::text::find_char(l, '#') {
            Some(i) => {
                assert(i < l.len() - 1);
                assert forall|k: int| 0 <= k < i implies m[k] != '#' by {
                    assert(m[k] == l[k]);
                }
                assert(m[i] == l[i]);
                crate::text::lemma_find_char(m, '#', i);
                assert(m.take(i) =~= l.take(i));
            },
            None => {
                assert forall|k: int| 0 <= k < m.len() implies m[k] != '#' by {
                    assert(m[k] == l[k]);
                }
                crate::text::lemma_find_char(m, '#', m.len() as int);
                assert(l =~= m.push('\r'));
                crate::text::lemma_words_push_ws(m, '\r');
            },
        }
    }
    assert(line_words(m) == words(b));
}

pub open spec fn map_cr(ls: Seq<Seq<char>>) -> Seq<Seq<char>> {
    ls.map_values(|l: Seq<char>| strip_cr(l))
}

proof fn lemma_map_cr_concat(a: Seq<Seq<char>>, b: Seq<Seq<char>>)
    ensures
        map_cr(a + b) == map_cr(a) + map_cr(b),
{
    assert(map_cr(a + b) =~= map_cr(a) + map_cr(b));
}

pub open spec fn no_newline(ls: Seq<Seq<char>>) -> bool {
    forall|k: int| 0 <= k < ls.len() ==> !(#[trigger] ls[k]).contains('\n')
}

proof fn lemma_no_newline_concat(a: Seq<Seq<char>>, b: Seq<Seq<char>>)
    requires
        no_newline(a),
        no_newline(b),
    ensures
        no_newline(a + b),
{
    assert forall|k: int| 0 <= k < (a + b).len() implies !(#[trigger] (a + b)[k]).contains('\n') by {
        if k < a.len() {
            assert((a + b)[k] == a[k]);
        } else {
            assert((a + b)[k] == b[k - a.len()]);
        }
    }
}

proof fn lemma_keywords()
    ensures
        clean_word("nameserver"@),
        clean_word("search"@),
        clean_word("domain"@),
        clean_word("options"@),
        clean_word("sortlist"@),
        "nameserver "@ == "nameserver"@ + " "@,
        "domain "@ == "domain"@ + " "@,
        "nameserver"@ != "search"@,
        "nameserver"@ != "domain"@,
        "nameserver"@ != "options"@,
        "nameserver"@ != "sortlist"@,
        "search"@ != "domain"@,
        "search"@ != "options"@,
        "search"@ != "sortlist"@,
        "domain"@ != "options"@,
        "domain"@ != "sortlist"@,
        "options"@ != "sortlist"@,
{
    reveal_strlit("nameserver");
    reveal_strlit("nameserver ");
    reveal_strlit("search");
    reveal_strlit("domain");
    reveal_strlit("domain ");
    reveal_strlit("options");
    reveal_strlit("sortlist");
    reveal_strlit(" ");
    assert("nameserver "@ =~= "nameserver"@ + " "@);
    assert("domain "@ =~= "domain"@ + " "@);
    assert("nameserver"@[0] != "search"@[0]);
    assert("nameserver"@[0] != "domain"@[0]);
    assert("nameserver"@[0] != "options"@[0]);
    assert("nameserver"@[0] != "sortlist"@[0]);
    assert("search"@[0] != "domain"@[0]);
    assert("search"@[0] != "options"@[0]);
    assert("search"@[1] != "sortlist"@[1]);
    assert("domain"@[0] != "options"@[0]);
    assert("domain"@[0] != "sortlist"@[0]);
    assert("options"@[0] != "sortlist"@[0]);
}

/// One key and one word, written and read back.
proof fn lemma_one_word_line(key: Seq<char>, v: Seq<char>)
    requires
        clean_word(key),
        clean_word(v),
    ensures
        strip_cr(key + " "@ + v) == key + " "@ + v,
        line_words(key + " "@ + v) == seq![key, v],
        !(key + " "@ + v).contains('\n'),
{
    assert(join(seq![v], " "@) == v);
    assert(clean_words(seq![v])) by {
        assert forall|k: int| 0 <= k < 1 implies clean_word(#[trigger] seq![v][k]) by {}
    }
    lemma_key_line(key, seq![v]);
    assert(seq![key] + seq![v] =~= seq![key, v]);
}

proof fn lemma_ns_lines(x: DnsView, ns: Seq<Seq<char>>)
    requires
        clean_words(ns),
    ensures
        resolv_from(x, map_cr(nameserver_lines(ns))) == (DnsView {
            nameservers: x.nameservers + ns,
            ..x
        }),
        no_newline(nameserver_lines(ns)),
    decreases ns.len(),
{
    lemma_keywords();
    if ns.len() == 0 {
        assert(map_cr(nameserver_lines(ns)) =~= Seq::<Seq<char>>::empty());
        assert(x.nameservers + ns =~= x.nameservers);
        assert(nameserver_lines(ns) =~= Seq::<Seq<char>>::empty());
    } else {
        let dl = ns.drop_last();
        assert forall|k: int| 0 <= k < dl.len() implies clean_word(#[trigger] dl[k]) by {
            assert(dl[k] == ns[k]);
        }
        lemma_ns_lines(x, dl);
        let g = "nameserver "@ + ns.last();
        assert(clean_word(ns.last()));
        lemma_one_word_line("nameserver"@, ns.last());
        assert(nameserver_lines(ns) =~= nameserver_lines(dl).push(g));
        assert(map_cr(nameserver_lines(ns)) =~= map_cr(nameserver_lines(dl)).push(g));
        assert(map_cr(nameserver_lines(ns)).drop_last() =~= map_cr(nameserver_lines(dl)));
        assert(x.nameservers + dl + seq![ns.last()] =~= x.nameservers + ns);
        assert forall|k: int| 0 <= k < nameserver_lines(ns).len() implies !(#[trigger] nameserver_lines(
            ns,
        )[k]).contains('\n') by {
            if k < dl.len() {
                assert(nameserver_lines(ns)[k] == nameserver_lines(dl)[k]);
            }
        }
    }
}

/// Which settings are written so far, as read back.
pub open spec fn partial(st: WriteState, c: DnsView) -> DnsView {
    DnsView {
        nameservers: if st.ns {
            c.nameservers
        } else {
            seq![]
        },
        search: if st.search {
            c.search
        } else {
            seq![]
        },
        domain: if st.domain {
            c.domain
        } else {
            None
        },
        options: if st.options {
            c.options
        } else {
            seq![]
        },
        sortlist: if st.sortlist {
            c.sortlist
        } else {
            seq![]
        },
    }
}

proof fn lemma_single(x: DnsView, g: Seq<char>)
    ensures
        resolv_from(x, seq![g]) == resolv_step(x, g),
{
    assert(seq![g].drop_last() =~= Seq::<Seq<char>>::empty());
    assert(resolv_from(x, seq![g].drop_last()) == x);
    assert(seq![g].last() == g);
}

/// The list line of `key` (if any), written and read back.
proof fn lemma_list_piece(x: DnsView, key: Seq<char>, items: Seq<Seq<char>>)
    requires
        clean_word(key),
        clean_words(items),
    ensures
        no_newline(list_line(key, items)),
        items.len() > 0 ==> map_cr(list_line(key, items)) == seq![key + " "@ + join(items, " "@)],
        items.len() > 0 ==> line_words(key + " "@ + join(items, " "@)) == seq![key] + items,
        items.len() == 0 ==> resolv_from(x, map_cr(list_line(key, items))) == x,
{
    if items.len() > 0 {
        lemma_key_line(key, items);
        assert(map_cr(list_line(key, items)) =~= seq![key + " "@ + join(items, " "@)]);
    } else {
        assert(map_cr(list_line(key, items)) =~= Seq::<Seq<char>>::empty());
    }
}

/// The search line (if any) read onto `x`.
proof fn lemma_search_piece(x: DnsView, c: DnsView, written: bool)
    requires
        dns_clean(c),
        written || x.search == Seq::<Seq<char>>::empty(),
        written ==> x.search == c.search,
    ensures
        resolv_from(x, map_cr(rest_piece(written, list_line("search"@, c.search)))) == (DnsView {
            search: c.search,
            ..x
        }),
        no_newline(rest_piece(written, list_line("search"@, c.search))),
{
    lemma_keywords();
    lemma_list_piece(x, "search"@, c.search);
    if written {
        assert(map_cr(rest_piece(written, list_line("search"@, c.search))) =~= Seq::<Seq<char>>::empty());
        assert(x == (DnsView { search: c.search, ..x }));
    } else if c.search.len() > 0 {
        let g = "search"@ + " "@ + join(c.search, " "@);
        lemma_single(x, g);
        assert(line_words(g).skip(1) =~= c.search);
        assert(x.search + c.search =~= c.search);
    } else {
        assert(x == (DnsView { search: c.search, ..x }));
    }
}

proof fn lemma_options_piece(x: DnsView, c: DnsView, written: bool)
    requires
        dns_clean(c),
        written || x.options == Seq::<Seq<char>>::empty(),
        written ==> x.options == c.options,
    ensures
        resolv_from(x, map_cr(rest_piece(written, list_line("options"@, c.options)))) == (DnsView {
            options: c.options,
            ..x
        }),
        no_newline(rest_piece(written, list_line("options"@, c.options))),
{
    lemma_keywords();
    lemma_list_piece(x, "options"@, c.options);
    if written {
        assert(map_cr(rest_piece(written, list_line("options"@, c.options))) =~= Seq::<Seq<char>>::empty());
        assert(x == (DnsView { options: c.options, ..x }));
    } else if c.options.len() > 0 {
        let g = "options"@ + " "@ + join(c.options, " "@);
        lemma_single(x, g);
        assert(line_words(g).skip(1) =~= c.options);
        assert(x.options + c.options =~= c.options);
    } else {
        assert(x == (DnsView { options: c.options, ..x }));
    }
}

proof fn lemma_sortlist_piece(x: DnsView, c: DnsView, written: bool)
    requires
        dns_clean(c),
        written || x.sortlist == Seq::<Seq<char>>::empty(),
        written ==> x.sortlist == c.sortlist,
    ensures
        resolv_from(x, map_cr(rest_piece(written, list_line("sortlist"@, c.sortlist)))) == (DnsView {
            sortlist: c.sortlist,
            ..x
        }),
        no_newline(rest_piece(written, list_line("sortlist"@, c.sortlist))),
{
    lemma_keywords();
    lemma_list_piece(x, "sortlist"@, c.sortlist);
    if written {
        assert(map_cr(rest_piece(written, list_line("sortlist"@, c.sortlist))) =~= Seq::<Seq<char>>::empty());
        assert(x == (DnsView { sortlist: c.sortlist, ..x }));
    } else if c.sortlist.len() > 0 {
        let g = "sortlist"@ + " "@ + join(c.sortlist, " "@);
        lemma_single(x, g);
        assert(line_words(g).skip(1) =~= c.sortlist);
        assert(x.sortlist + c.sortlist =~= c.sortlist);
    } else {
        assert(x == (DnsView { sortlist: c.sortlist, ..x }));
    }
}

proof fn lemma_domain_piece(x: DnsView, c: DnsView, written: bool)
    requires
        dns_clean(c),
        written || x.domain == None::<Seq<char>>,
        written ==> x.domain == c.domain,
    ensures
        resolv_from(x, map_cr(rest_piece(written, domain_line(c.domain)))) == (DnsView {
            domain: c.domain,
            ..x
        }),
        no_newline(rest_piece(written, domain_line(c.domain))),
{
    lemma_keywords();
    if written {
        assert(map_cr(rest_piece(written, domain_line(c.domain))) =~= Seq::<Seq<char>>::empty());
        assert(rest_piece(written, domain_line(c.domain)) =~= Seq::<Seq<char>>::empty());
        assert(x == (DnsView { domain: c.domain, ..x }));
    } else {
        match c.domain {
            Some(d) => {
                lemma_one_word_line("domain"@, d);
                let g = "domain "@ + d;
                assert(map_cr(domain_line(c.domain)) =~= seq![g]);
                lemma_single(x, g);
                assert forall|k: int| 0 <= k < domain_line(c.domain).len() implies !(
                #[trigger] domain_line(c.domain)[k]).contains('\n') by {}
            },
            None => {
                assert(map_cr(domain_line(c.domain)) =~= Seq::<Seq<char>>::empty());
                assert(domain_line(c.domain) =~= Seq::<Seq<char>>::empty());
                assert(x == (DnsView { domain: c.domain, ..x }));
            },
        }
    }
}

proof fn lemma_ns_piece(x: DnsView, c: DnsView, written: bool)
    requires
        dns_clean(c),
        written || x.nameservers == Seq::<Seq<char>>::empty(),
        written ==> x.nameservers == c.nameservers,
    ensures
        resolv_from(x, map_cr(rest_piece(written, nameserver_lines(c.nameservers)))) == (DnsView {
            nameservers: c.nameservers,
            ..x
        }),
        no_newline(rest_piece(written, nameserver_lines(c.nameservers))),
{
    lemma_ns_lines(x, c.nameservers);
    if written {
        assert(map_cr(rest_piece(written, nameserver_lines(c.nameservers))) =~= Seq::<Seq<char>>::empty());
        assert(rest_piece(written, nameserver_lines(c.nameservers)) =~= Seq::<Seq<char>>::empty());
        assert(x == (DnsView { nameservers: c.nameservers, ..x }));
    } else {
        assert(x.nameservers + c.nameservers =~= c.nameservers);
    }
}

/// Writing over any file: what the lines written so far read back as.
proof fn lemma_write_fold(ls: Seq<Seq<char>>, c: DnsView)
    requires
        dns_clean(c),
        no_newline(ls),
    ensures
        no_newline(write_fold(ls, c).out),
        resolv_from(empty_dns(), map_cr(write_fold(ls, c).out)) == partial(write_fold(ls, c), c),
    decreases ls.len(),
{
    lemma_keywords();
    if ls.len() == 0 {
        assert(map_cr(write_fold(ls, c).out) =~= Seq::<Seq<char>>::empty());
        assert(partial(write_fold(ls, c), c) =~= empty_dns());
        assert(write_fold(ls, c).out =~= Seq::<Seq<char>>::empty());
    } else {
        let dl = ls.drop_last();
        assert forall|k: int| 0 <= k < dl.len() implies !(#[trigger] dl[k]).contains('\n') by {
            assert(dl[k] == ls[k]);
        }
        lemma_write_fold(dl, c);
        let st = write_fold(dl, c);
        let l = ls.last();
        assert(!l.contains('\n'));
        let st2 = write_fold(ls, c);
        assert(st2 == write_step(st, l, c));
        let x = partial(st, c);
        let kw = keyword(l);
        let b: Seq<Seq<char>> = st2.out.skip(st.out.len() as int);
        if kw == "nameserver"@ {
            if !st.ns {
                assert(b =~= nameserver_lines(c.nameservers));
                assert(st2.out =~= st.out + b);
                lemma_ns_piece(x, c, false);
                assert(rest_piece(false, nameserver_lines(c.nameservers)) == b);
            } else {
                assert(st2 == st);
                assert(b =~= Seq::<Seq<char>>::empty());
            }
        } else if kw == "search"@ {
            if !st.search && c.search.len() > 0 {
                assert(b =~= list_line("search"@, c.search));
                assert(st2.out =~= st.out + b);
                lemma_search_piece(x, c, false);
                assert(rest_piece(false, list_line("search"@, c.search)) == b);
            } else {
                assert(st2 == st);
                assert(b =~= Seq::<Seq<char>>::empty());
            }
        } else if kw == "domain"@ {
            if !st.domain {
                assert(b =~= domain_line(c.domain));
                assert(st2.out =~= st.out + b);
                lemma_domain_piece(x, c, false);
                assert(rest_piece(false, domain_line(c.domain)) == b);
            } else {
                assert(st2 == st);
                assert(b =~= Seq::<Seq<char>>::empty());
            }
        } else if kw == "options"@ {
            if !st.options && c.options.len() > 0 {
                assert(b =~= list_line("options"@, c.options));
                assert(st2.out =~= st.out + b);
                lemma_options_piece(x, c, false);
                assert(rest_piece(false, list_line("options"@, c.options)) == b);
            } else {
                assert(st2 == st);
                assert(b =~= Seq::<Seq<char>>::empty());
            }
        } else if kw == "sortlist"@ {
            if !st.sortlist && c.sortlist.len() > 0 {
                assert(b =~= list_line("sortlist"@, c.sortlist));
                assert(st2.out =~= st.out + b);
                lemma_sortlist_piece(x, c, false);
                assert(rest_piece(false, list_line("sortlist"@, c.sortlist)) == b);
            } else {
                assert(st2 == st);
                assert(b =~= Seq::<Seq<char>>::empty());
            }
        } else {
            assert(b =~= seq![l]);
            assert(st2.out =~= st.out + b);
            assert(map_cr(b) =~= seq![strip_cr(l)]);
            lemma_single(x, strip_cr(l));
            lemma_kept_line(x, l);
            assert forall|k: int| 0 <= k < b.len() implies !(#[trigger] b[k]).contains('\n') by {}
        }
        assert(st2.out =~= st.out + b);
        lemma_map_cr_concat(st.out, b);
        lemma_resolv_from_concat(empty_dns(), map_cr(st.out), map_cr(b));
        lemma_no_newline_concat(st.out, b);
        assert(partial(st2, c) =~= resolv_from(x, map_cr(b)));
    }
}

/// Settings written into resolv.conf read back as those settings, whatever
/// the file held before, when each value is one word without `#` (what
/// reading a file always gives, and what a checked address is).
pub proof fn lemma_written_settings_read_back(current: Seq<char>, c: DnsView)
    requires
        dns_clean(c),
    ensures
        resolv_spec(text_of(resolv_lines(current, c))) == c,
{
    let ls = lines(current);
    crate::text::lemma_lines_no_newline(current);
    lemma_write_fold(ls, c);
    let st = write_fold(ls, c);
    let p1 = rest_piece(st.ns, nameserver_lines(c.nameservers));
    let p2 = rest_piece(st.search, list_line("search"@, c.search));
    let p3 = rest_piece(st.domain, domain_line(c.domain));
    let p4 = rest_piece(st.options, list_line("options"@, c.options));
    let p5 = rest_piece(st.sortlist, list_line("sortlist"@, c.sortlist));
    let x0 = partial(st, c);
    lemma_ns_piece(x0, c, st.ns);
    let x1 = DnsView { nameservers: c.nameservers, ..x0 };
    lemma_search_piece(x1, c, st.search);
    let x2 = DnsView { search: c.search, ..x1 };
    lemma_domain_piece(x2, c, st.domain);
    let x3 = DnsView { domain: c.domain, ..x2 };
    lemma_options_piece(x3, c, st.options);
    let x4 = DnsView { options: c.options, ..x3 };
    lemma_sortlist_piece(x4, c, st.sortlist);
    let x5 = DnsView { sortlist: c.sortlist, ..x4 };
    assert(x5 =~= c);
    let rest = write_rest(st, c);
    assert(rest == p1 + p2 + p3 + p4 + p5);
    lemma_no_newline_concat(p1, p2);
    lemma_no_newline_concat(p1 + p2, p3);
    lemma_no_newline_concat(p1 + p2 + p3, p4);
    lemma_no_newline_concat(p1 + p2 + p3 + p4, p5);
    lemma_no_newline_concat(st.out, rest);
    let all = st.out + rest;
    assert(resolv_lines(current, c) == all);
    crate::text::lemma_lines_text_of(all);
    assert(lines(text_of(all)) == map_cr(all));
    lemma_resolv_from_empty(map_cr(all));
    lemma_map_cr_concat(st.out, rest);
    lemma_resolv_from_concat(empty_dns(), map_cr(st.out), map_cr(rest));
    lemma_map_cr_concat(p1 + p2 + p3 + p4, p5);
    lemma_map_cr_concat(p1 + p2 + p3, p4);
    lemma_map_cr_concat(p1 + p2, p3);
    lemma_map_cr_concat(p1, p2);
    lemma_resolv_from_concat(x0, map_cr(p1 + p2 + p3 + p4), map_cr(p5));
    lemma_resolv_from_concat(x0, map_cr(p1 + p2 + p3), map_cr(p4));
    lemma_resolv_from_concat(x0, map_cr(p1 + p2), map_cr(p3));
    lemma_resolv_from_concat(x0, map_cr(p1), map_cr(p2));
}

} // verus!
