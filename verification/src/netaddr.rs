//! IP address syntax: the textual IPv4 and IPv6 forms that the standard
//! library's `Ipv4Addr` / `Ipv6Addr` parsers accept, stated as a reader over
//! character positions and implemented by the same reader.
use vstd::prelude::*;
use crate::text::chars_of;

verus! {

// ─── Digits ────────────────────────────────────────────────────────────────

/// `c.to_digit(16)`.
pub open spec fn hex_digit_val(c: char) -> Option<nat> {
    if '0' <= c && c <= '9' {
        Some(((c as u32) - ('0' as u32)) as nat)
    } else if 'a' <= c && c <= 'f' {
        Some(((c as u32) - ('a' as u32) + 10) as nat)
    } else if 'A' <= c && c <= 'F' {
        Some(((c as u32) - ('A' as u32) + 10) as nat)
    } else {
        None
    }
}

/// Length of the run of digits of radix 16 (or 10) starting at `pos`.
pub open spec fn run_len(s: Seq<char>, pos: int, hex: bool) -> nat
    decreases s.len() - pos,
{
    if pos < 0 || pos >= s.len() {
        0
    } else if (hex && hex_digit_val(s[pos]) is Some) || (!hex && '0' <= s[pos] && s[pos] <= '9') {
        1 + run_len(s, pos + 1, hex)
    } else {
        0
    }
}

/// Value of the digits `s[pos..pos + n]` in the given radix.
pub open spec fn run_value(s: Seq<char>, pos: int, n: nat, radix: nat) -> nat
    decreases n,
{
    if n == 0 {
        0
    } else {
        run_value(s, pos, (n - 1) as nat, radix) * radix + hex_digit_val(s[pos + n - 1]).unwrap()
    }
}

/// One IPv6 group: one to four hex digits.
pub open spec fn read_group(s: Seq<char>, pos: int) -> Option<(u16, int)> {
    let n = run_len(s, pos, true);
    if 1 <= n <= 4 {
        Some((run_value(s, pos, n, 16) as u16, pos + n))
    } else {
        None
    }
}

/// One IPv4 octet: one to three decimal digits, at most 255, no leading
/// zero unless it is the only digit.
pub open spec fn read_octet(s: Seq<char>, pos: int) -> Option<(u8, int)> {
    let n = run_len(s, pos, false);
    if 1 <= n <= 3 && run_value(s, pos, n, 10) <= 255 && !(n > 1 && s[pos] == '0') {
        Some((run_value(s, pos, n, 10) as u8, pos + n))
    } else {
        None
    }
}

/// `c` at `pos`.
pub open spec fn char_at(s: Seq<char>, pos: int, c: char) -> bool {
    0 <= pos < s.len() && s[pos] == c
}

/// The octet number `i` (0..4) with its leading `.` when `i > 0`.
pub open spec fn read_octet_sep(s: Seq<char>, pos: int, i: int) -> Option<(u8, int)> {
    if i == 0 {
        read_octet(s, pos)
    } else if char_at(s, pos, '.') {
        read_octet(s, pos + 1)
    } else {
        None
    }
}

/// A dotted-quad IPv4 address starting at `pos`: its value and end.
pub open spec fn read_ipv4(s: Seq<char>, pos: int) -> Option<(u32, int)> {
    match read_octet_sep(s, pos, 0) {
        Some((a, p1)) => match read_octet_sep(s, p1, 1) {
            Some((b, p2)) => match read_octet_sep(s, p2, 2) {
                Some((c, p3)) => match read_octet_sep(s, p3, 3) {
                    Some((d, p4)) => Some(
                        (((a as nat) * 0x1000000 + (b as nat) * 0x10000 + (c as nat) * 0x100 + (
                        d as nat)) as u32, p4),
                    ),
                    None => None,
                },
                None => None,
            },
            None => None,
        },
        None => None,
    }
}

/// `<Ipv4Addr as FromStr>`: the whole text is one dotted-quad address.
pub open spec fn ipv4_value(s: Seq<char>) -> Option<u32> {
    match read_ipv4(s, 0) {
        Some((v, p)) => if p == s.len() {
            Some(v)
        } else {
            None
        },
        None => None,
    }
}

/// Read IPv6 groups from `pos`: group `i` (with a leading `:` when `i > 0`)
/// for `i` below `limit`, where an embedded IPv4 address may stand for the
/// last two groups while at least two slots remain. Returns the groups, the
/// end position and whether an IPv4 address ended the run.
pub open spec fn read_groups(s: Seq<char>, pos: int, i: int, limit: int, acc: Seq<u16>) -> (Seq<u16>, int, bool)
    decreases limit - i,
{
    if i >= limit {
        (acc, pos, false)
    } else {
        let start = if i > 0 {
            if char_at(s, pos, ':') {
                Some(pos + 1)
            } else {
                None
            }
        } else {
            Some(pos)
        };
        match start {
            None => (acc, pos, false),
            Some(q) => {
                let v4 = if i < limit - 1 {
                    read_ipv4(s, q)
                } else {
                    None
                };
                match v4 {
                    Some((v, p)) => (acc.push((v / 0x10000) as u16).push((v % 0x10000) as u16), p, true),
                    None => match read_group(s, q) {
                        Some((g, p)) => read_groups(s, p, i + 1, limit, acc.push(g)),
                        None => (acc, pos, false),
                    },
                }
            },
        }
    }
}

/// `<Ipv6Addr as FromStr>`: eight groups, or a head and a tail around one
/// `::` that stands for at least one zero group.
pub open spec fn ipv6_value(s: Seq<char>) -> Option<Seq<u16>> {
    let (head, p, head_v4) = read_groups(s, 0, 0, 8, seq![]);
    if head.len() == 8 {
        if p == s.len() {
            Some(head)
        } else {
            None
        }
    } else if head_v4 {
        None
    } else if char_at(s, p, ':') && char_at(s, p + 1, ':') {
        let (tail, q, _) = read_groups(s, p + 2, 0, 8 - (head.len() + 1), seq![]);
        if q == s.len() {
            Some(head + Seq::new((8 - head.len() - tail.len()) as nat, |k: int| 0u16) + tail)
        } else {
            None
        }
    } else {
        None
    }
}

/// `<IpAddr as FromStr>`: an IPv4 or an IPv6 address.
pub open spec fn ip_addr_valid(s: Seq<char>) -> bool {
    ipv4_value(s) is Some || ipv6_value(s) is Some
}

// ─── Executable reader ─────────────────────────────────────────────────────

fn hex_digit_of(c: char) -> (r: Option<u32>)
    ensures
        match r {
            Some(d) => hex_digit_val(c) == Some(d as nat) && d < 16,
            None => hex_digit_val(c) is None,
        },
{
    if '0' <= c && c <= '9' {
        Some((c as u32) - ('0' as u32))
    } else if 'a' <= c && c <= 'f' {
        Some((c as u32) - ('a' as u32) + 10)
    } else if 'A' <= c && c <= 'F' {
        Some((c as u32) - ('A' as u32) + 10)
    } else {
        None
    }
}

proof fn lemma_run_len_bound(s: Seq<char>, pos: int, hex: bool)
    ensures
        0 <= pos <= s.len() ==> pos + run_len(s, pos, hex) <= s.len(),
    decreases s.len() - pos,
{
    if 0 <= pos < s.len() {
        lemma_run_len_bound(s, pos + 1, hex);
    }
}

/// Scan a digit run of at most `max` digits (one more is looked at to tell
/// an overlong run): its length, capped at `max + 1`, and its value.
fn scan_run(v: &Vec<char>, pos: usize, hex: bool, max: usize) -> (r: (usize, u32))
    requires
        pos <= v@.len(),
        max <= 4,
    ensures
        r.0 == if run_len(v@, pos as int, hex) <= max {
            run_len(v@, pos as int, hex)
        } else {
            (max + 1) as nat
        },
        r.0 <= max ==> r.1 as nat == run_value(v@, pos as int, r.0 as nat, if hex {
            16nat
        } else {
            10nat
        }),
        r.0 <= max ==> r.1 < pow_bound(r.0 as nat) && pos + r.0 <= v@.len(),
{
    let radix: u32 = if hex {
        16
    } else {
        10
    };
    let n = v.len();
    let mut k: usize = 0;
    let mut val: u32 = 0;
    proof {
        lemma_run_len_bound(v@, pos as int, hex);
    }
    while k <= max && pos + k < n
        invariant
            pos <= n == v@.len(),
            pos + run_len(v@, pos as int, hex) <= n,
            k <= max + 1,
            max <= 4,
            radix == if hex { 16u32 } else { 10u32 },
            k <= run_len(v@, pos as int, hex),
            run_len(v@, pos as int, hex) == k + run_len(v@, pos + k, hex),
            val as nat == run_value(v@, pos as int, k as nat, radix as nat),
            val < pow_bound(k as nat),
        decreases max + 1 - k,
    {
        let c = v[pos + k];
        let d = if hex {
            hex_digit_of(c)
        } else if '0' <= c && c <= '9' {
            Some((c as u32) - ('0' as u32))
        } else {
            None
        };
        match d {
            Some(dv) => {
                assert(run_len(v@, pos + k, hex) == 1 + run_len(v@, pos + k + 1, hex));
                assert(hex_digit_val(c) == Some(dv as nat)) by {
                    if !hex {
                        assert('0' <= c && c <= '9');
                    }
                }
                proof {
                    lemma_pow_bound(k as nat);
                }
                assert(val * radix + dv < pow_bound((k + 1) as nat)) by (nonlinear_arith)
                    requires
                        val < pow_bound(k as nat),
                        dv < radix,
                        radix <= 16,
                        pow_bound((k + 1) as nat) == 16 * pow_bound(k as nat),
                ;
                val = val * radix + dv;
                k += 1;
            },
            None => {
                assert(run_len(v@, pos + k, hex) == 0);
                return (k, val);
            },
        }
    }
    if pos + k >= n && k <= max {
        assert(run_len(v@, pos + k, hex) == 0);
    }
    (k, val)
}

pub open spec fn pow_bound(k: nat) -> nat
    decreases k,
{
    if k == 0 {
        1
    } else {
        16 * pow_bound((k - 1) as nat)
    }
}

proof fn lemma_pow_bound(k: nat)
    ensures
        pow_bound(k + 1) == 16 * pow_bound(k),
        k <= 5 ==> pow_bound(k) <= 0x100000,
{
    reveal_with_fuel(pow_bound, 7);
}

fn read_group_exec(v: &Vec<char>, pos: usize) -> (r: Option<(u16, usize)>)
    requires
        pos <= v@.len(),
    ensures
        match r {
            Some((g, p)) => read_group(v@, pos as int) == Some((g, p as int)) && p <= v@.len(),
            None => read_group(v@, pos as int) is None,
        },
{
    let len = v.len();
    let (n, val) = scan_run(v, pos, true, 4);
    proof {
        lemma_run_len_bound(v@, pos as int, true);
    }
    if n >= 1 && n <= 4 {
        proof {
            lemma_pow_bound(n as nat);
            reveal_with_fuel(pow_bound, 5);
        }
        assert(val < 0x10000);
        Some((val as u16, pos + n))
    } else {
        None
    }
}

fn read_octet_exec(v: &Vec<char>, pos: usize) -> (r: Option<(u8, usize)>)
    requires
        pos <= v@.len(),
    ensures
        match r {
            Some((o, p)) => read_octet(v@, pos as int) == Some((o, p as int)) && p <= v@.len(),
            None => read_octet(v@, pos as int) is None,
        },
{
    let len = v.len();
    let (n, val) = scan_run(v, pos, false, 3);
    proof {
        lemma_run_len_bound(v@, pos as int, false);
        reveal_with_fuel(pow_bound, 5);
    }
    if n >= 1 && n <= 3 && val <= 255 && !(n > 1 && v[pos] == '0') {
        Some((val as u8, pos + n))
    } else {
        None
    }
}

fn read_octet_sep_exec(v: &Vec<char>, pos: usize, i: usize) -> (r: Option<(u8, usize)>)
    requires
        pos <= v@.len(),
    ensures
        match r {
            Some((o, p)) => read_octet_sep(v@, pos as int, i as int) == Some((o, p as int)) && p
                <= v@.len(),
            None => read_octet_sep(v@, pos as int, i as int) is None,
        },
{
    if i == 0 {
        read_octet_exec(v, pos)
    } else if pos < v.len() && v[pos] == '.' {
        read_octet_exec(v, pos + 1)
    } else {
        None
    }
}

fn read_ipv4_exec(v: &Vec<char>, pos: usize) -> (r: Option<(u32, usize)>)
    requires
        pos <= v@.len(),
    ensures
        match r {
            Some((x, p)) => read_ipv4(v@, pos as int) == Some((x, p as int)) && p <= v@.len(),
            None => read_ipv4(v@, pos as int) is None,
        },
{
    let (a, p1) = match read_octet_sep_exec(v, pos, 0) {
        Some(x) => x,
        None => return None,
    };
    let (b, p2) = match read_octet_sep_exec(v, p1, 1) {
        Some(x) => x,
        None => return None,
    };
    let (c, p3) = match read_octet_sep_exec(v, p2, 2) {
        Some(x) => x,
        None => return None,
    };
    let (d, p4) = match read_octet_sep_exec(v, p3, 3) {
        Some(x) => x,
        None => return None,
    };
    let x: u32 = (a as u32) * 0x1000000 + (b as u32) * 0x10000 + (c as u32) * 0x100 + (d as u32);
    Some((x, p4))
}

/// `s.parse::<Ipv4Addr>()`, as the address's `u32` value.
pub fn parse_ipv4(s: &str) -> (r: Option<u32>)
    ensures
        r == ipv4_value(s@),
{
    let v = chars_of(s);
    match read_ipv4_exec(&v, 0) {
        Some((x, p)) => if p == v.len() {
            Some(x)
        } else {
            None
        },
        None => None,
    }
}

proof fn lemma_read_groups_bounds(s: Seq<char>, pos: int, i: int, limit: int, acc: Seq<u16>)
    requires
        0 <= pos <= s.len(),
        0 <= i <= limit,
        acc.len() == i,
    ensures
        pos <= read_groups(s, pos, i, limit, acc).1 <= s.len(),
        read_groups(s, pos, i, limit, acc).0.len() <= limit + 1,
        read_groups(s, pos, i, limit, acc).0.len() >= i,
        read_groups(s, pos, i, limit, acc).2 ==> read_groups(s, pos, i, limit, acc).0.len() <= limit,
        !read_groups(s, pos, i, limit, acc).2 ==> read_groups(s, pos, i, limit, acc).0.len() <= limit,
    decreases limit - i,
{
    if i < limit {
        let q = if i > 0 { pos + 1 } else { pos };
        if i == 0 || char_at(s, pos, ':') {
            let v4 = if i < limit - 1 { read_ipv4(s, q) } else { None };
            if v4 is None {
                match read_group(s, q) {
                    Some((g, p)) => {
                        lemma_run_len_bound(s, q, true);
                        lemma_read_groups_bounds(s, p, i + 1, limit, acc.push(g));
                    },
                    None => {},
                }
            } else {
                lemma_read_ipv4_bounds(s, q);
            }
        }
    }
}

proof fn lemma_read_ipv4_bounds(s: Seq<char>, pos: int)
    requires
        0 <= pos <= s.len(),
    ensures
        read_ipv4(s, pos) matches Some((x, p)) ==> pos <= p <= s.len(),
{
    lemma_run_len_bound(s, pos, false);
    if let Some((a, p1)) = read_octet_sep(s, pos, 0) {
        lemma_run_len_bound(s, p1 + 1, false);
        if let Some((b, p2)) = read_octet_sep(s, p1, 1) {
            lemma_run_len_bound(s, p2 + 1, false);
            if let Some((c, p3)) = read_octet_sep(s, p2, 2) {
                lemma_run_len_bound(s, p3 + 1, false);
            }
        }
    }
}

/// Read up to `limit` IPv6 groups from `pos` (see `read_groups`).
fn read_groups_exec(v: &Vec<char>, pos: usize, limit: usize) -> (r: (Vec<u16>, usize, bool))
    requires
        pos <= v@.len(),
        limit <= 8,
    ensures
        (r.0@, r.1 as int, r.2) == read_groups(v@, pos as int, 0, limit as int, seq![]),
{
    let n = v.len();
    let mut acc: Vec<u16> = Vec::new();
    let mut p = pos;
    let mut i: usize = 0;
    let ghost goal = read_groups(v@, pos as int, 0, limit as int, seq![]);
    while i < limit
        invariant
            n == v@.len(),
            p <= n,
            i <= limit <= 8,
            acc@.len() == i,
            goal == read_groups(v@, pos as int, 0, limit as int, seq![]),
            read_groups(v@, p as int, i as int, limit as int, acc@) == goal,
        decreases limit - i,
    {
        let start = if i > 0 {
            if p < n && v[p] == ':' {
                p + 1
            } else {
                return (acc, p, false);
            }
        } else {
            p
        };
        if i + 1 < limit {
            match read_ipv4_exec(v, start) {
                Some((x, q)) => {
                    acc.push((x / 0x10000) as u16);
                    acc.push((x % 0x10000) as u16);
                    return (acc, q, true);
                },
                None => {},
            }
        }
        match read_group_exec(v, start) {
            Some((g, q)) => {
                acc.push(g);
                p = q;
                i += 1;
            },
            None => return (acc, p, false),
        }
    }
    (acc, p, false)
}

/// `s.parse::<Ipv6Addr>()`, as the address's eight segments.
pub fn parse_ipv6(s: &str) -> (r: Option<Vec<u16>>)
    ensures
        r.deep_view() == ipv6_value(s@),
        r matches Some(v) ==> v@.len() == 8,
{
    let v = chars_of(s);
    let n = v.len();
    let (head, p, head_v4) = read_groups_exec(&v, 0, 8);
    proof {
        lemma_read_groups_bounds(v@, 0, 0, 8, seq![]);
    }
    if head.len() == 8 {
        if p == n {
            assert(head.deep_view() =~= head@);
            return Some(head);
        }
        return None;
    }
    if head_v4 {
        return None;
    }
    if !(p < n && p + 1 < n && v[p] == ':' && v[p + 1] == ':') {
        return None;
    }
    let limit = 8 - (head.len() + 1);
    let (tail, q, _) = read_groups_exec(&v, p + 2, limit);
    proof {
        lemma_read_groups_bounds(v@, p + 2, 0, limit as int, seq![]);
    }
    if q != n {
        return None;
    }
    let mut out: Vec<u16> = Vec::new();
    let mut k: usize = 0;
    while k < head.len()
        invariant
            k <= head@.len(),
            out@ == head@.take(k as int),
        decreases head@.len() - k,
    {
        out.push(head[k]);
        assert(out@ =~= head@.take(k + 1));
        k += 1;
    }
    let zeros = 8 - head.len() - tail.len();
    let mut z: usize = 0;
    let ghost zs = Seq::new(zeros as nat, |k: int| 0u16);
    assert(out@ =~= head@ + zs.take(0));
    while z < zeros
        invariant
            z <= zeros,
            zs == Seq::new(zeros as nat, |k: int| 0u16),
            out@ == head@ + zs.take(z as int),
        decreases zeros - z,
    {
        out.push(0);
        assert(out@ =~= head@ + zs.take(z + 1));
        z += 1;
    }
    let mut t: usize = 0;
    assert(out@ =~= head@ + zs + tail@.take(0));
    while t < tail.len()
        invariant
            t <= tail@.len(),
            out@ == head@ + zs + tail@.take(t as int),
        decreases tail@.len() - t,
    {
        out.push(tail[t]);
        assert(out@ =~= head@ + zs + tail@.take(t + 1));
        t += 1;
    }
    assert(tail@.take(tail@.len() as int) =~= tail@);
    assert(out.deep_view() =~= out@);
    Some(out)
}

/// `s.parse::<IpAddr>().is_ok()`.
pub fn ip_addr_parses(s: &str) -> (r: bool)
    ensures
        r == ip_addr_valid(s@),
{
    parse_ipv4(s).is_some() || parse_ipv6(s).is_some()
}

} // verus!
