//! Character-level string model shared by all parsers: whitespace, trimming,
//! word splitting, joining, prefixes and searches, stated over `Seq<char>`.
use vstd::prelude::*;

verus! {

// ───────────────────────── character classes ─────────────────────────

/// Unicode `White_Space`, the set `char::is_whitespace` tests.
pub open spec fn is_ws(c: char) -> bool {
    ||| c == ' '
    ||| ('\t' <= c && c <= '\r')
    ||| c == '\u{85}'
    ||| c == '\u{a0}'
    ||| c == '\u{1680}'
    ||| ('\u{2000}' <= c && c <= '\u{200a}')
    ||| c == '\u{2028}'
    ||| c == '\u{2029}'
    ||| c == '\u{202f}'
    ||| c == '\u{205f}'
    ||| c == '\u{3000}'
}

pub fn is_ws_char(c: char) -> (b: bool)
    ensures
        b == is_ws(c),
{
    c == ' ' || ('\t' <= c && c <= '\r') || c == '\u{85}' || c == '\u{a0}' || c == '\u{1680}'
        || ('\u{2000}' <= c && c <= '\u{200a}') || c == '\u{2028}' || c == '\u{2029}' || c
        == '\u{202f}' || c == '\u{205f}' || c == '\u{3000}'
}

pub open spec fn is_digit(c: char) -> bool {
    '0' <= c && c <= '9'
}

pub open spec fn is_alpha(c: char) -> bool {
    ('a' <= c && c <= 'z') || ('A' <= c && c <= 'Z')
}

pub open spec fn is_alnum(c: char) -> bool {
    is_alpha(c) || is_digit(c)
}

pub fn is_alnum_char(c: char) -> (b: bool)
    ensures
        b == is_alnum(c),
{
    ('a' <= c && c <= 'z') || ('A' <= c && c <= 'Z') || ('0' <= c && c <= '9')
}

pub fn is_alpha_char(c: char) -> (b: bool)
    ensures
        b == is_alpha(c),
{
    ('a' <= c && c <= 'z') || ('A' <= c && c <= 'Z')
}

pub fn is_digit_char(c: char) -> (b: bool)
    ensures
        b == is_digit(c),
{
    '0' <= c && c <= '9'
}

/// ASCII lower-casing of one character (`char::to_ascii_lowercase`).
pub open spec fn ascii_lower(c: char) -> char {
    if 'A' <= c && c <= 'Z' {
        ((c as u32) + 32) as char
    } else {
        c
    }
}

/// `str::eq_ignore_ascii_case`.
pub open spec fn eq_ignore_case(a: Seq<char>, b: Seq<char>) -> bool {
    a.len() == b.len() && forall|i: int| 0 <= i < a.len() ==> ascii_lower(a[i]) == ascii_lower(b[i])
}

/// Every character satisfies the class `f`.
pub open spec fn all_chars(s: Seq<char>, f: spec_fn(char) -> bool) -> bool {
    forall|i: int| 0 <= i < s.len() ==> f(#[trigger] s[i])
}

// ───────────────────────── conversions ─────────────────────────

/// The characters of a string slice, in order.
pub fn chars_of(s: &str) -> (v: Vec<char>)
    ensures
        v@ == s@,
{
    let mut v: Vec<char> = Vec::new();
    for c in it: s.chars()
        invariant
            v@ == it.seq().take(it.index() as int),
            it.seq() == s@,
    {
        v.push(c);
    }
    v
}

/// `String::push`: appends one character.
#[verifier::external_body]
pub fn push_char(s: &mut String, c: char)
    ensures
        final(s)@ == old(s)@.push(c),
{
    s.push(c);
}

/// The string made of `v[from..to]`.
pub fn string_from(v: &Vec<char>, from: usize, to: usize) -> (s: String)
    requires
        from <= to <= v@.len(),
    ensures
        s@ == v@.subrange(from as int, to as int),
{
    let mut s = String::new();
    let mut i = from;
    while i < to
        invariant
            from <= i <= to <= v@.len(),
            s@ == v@.subrange(from as int, i as int),
        decreases to - i,
    {
        push_char(&mut s, v[i]);
        assert(v@.subrange(from as int, i + 1) =~= v@.subrange(from as int, i as int).push(v@[i as int]));
        i += 1;
    }
    s
}

/// An owned copy of a string slice.
pub fn owned(s: &str) -> (r: String)
    ensures
        r@ == s@,
{
    s.to_owned()
}

/// `a == b` on string slices.
pub fn str_eq(a: &str, b: &str) -> (r: bool)
    ensures
        r == (a@ == b@),
{
    let x = a.to_owned();
    let y = b.to_owned();
    x == y
}

/// `a == b` on strings.
pub fn string_eq(a: &String, b: &String) -> (r: bool)
    ensures
        r == (a@ == b@),
{
    a.eq(b)
}

/// Append `t` to `s`.
pub fn push_str(s: &mut String, t: &str)
    ensures
        final(s)@ == old(s)@ + t@,
{
    s.append(t);
}

// ───────────────────────── trimming ─────────────────────────

pub open spec fn trim_start(s: Seq<char>) -> Seq<char>
    decreases s.len(),
{
    if s.len() > 0 && is_ws(s[0]) {
        trim_start(s.drop_first())
    } else {
        s
    }
}

pub open spec fn trim_end(s: Seq<char>) -> Seq<char>
    decreases s.len(),
{
    if s.len() > 0 && is_ws(s.last()) {
        trim_end(s.drop_last())
    } else {
        s
    }
}

/// `str::trim`.
pub open spec fn trim(s: Seq<char>) -> Seq<char> {
    trim_end(trim_start(s))
}

pub proof fn lemma_trim_start_skip(s: Seq<char>, i: int)
    requires
        0 <= i <= s.len(),
        forall|k: int| 0 <= k < i ==> is_ws(#[trigger] s[k]),
        i == s.len() || !is_ws(s[i]),
    ensures
        trim_start(s) == s.skip(i),
    decreases i,
{
    if i == 0 {
        assert(s.skip(0) =~= s);
    } else {
        let t = s.drop_first();
        assert forall|k: int| 0 <= k < i - 1 implies is_ws(#[trigger] t[k]) by {
            assert(t[k] == s[k + 1]);
        }
        lemma_trim_start_skip(t, i - 1);
        assert(t.skip(i - 1) =~= s.skip(i));
    }
}

pub proof fn lemma_trim_end_take(s: Seq<char>, j: int)
    requires
        0 <= j <= s.len(),
        forall|k: int| j <= k < s.len() ==> is_ws(#[trigger] s[k]),
        j == 0 || !is_ws(s[j - 1]),
    ensures
        trim_end(s) == s.take(j),
    decreases s.len() - j,
{
    if j == s.len() {
        assert(s.take(j) =~= s);
    } else {
        let t = s.drop_last();
        assert forall|k: int| j <= k < t.len() implies is_ws(#[trigger] t[k]) by {
            assert(t[k] == s[k]);
        }
        lemma_trim_end_take(t, j);
        assert(t.take(j) =~= s.take(j));
    }
}

/// Bounds `[i, j)` of the trimmed part of `v`.
pub fn trim_bounds(v: &Vec<char>) -> (r: (usize, usize))
    ensures
        r.0 <= r.1 <= v@.len(),
        v@.subrange(r.0 as int, r.1 as int) == trim(v@),
        trim_start(v@) == v@.skip(r.0 as int),
{
    let n = v.len();
    let mut i: usize = 0;
    while i < n && is_ws_char(v[i])
        invariant
            i <= n == v@.len(),
            forall|k: int| 0 <= k < i ==> is_ws(#[trigger] v@[k]),
        decreases n - i,
    {
        i += 1;
    }
    proof {
        lemma_trim_start_skip(v@, i as int);
    }
    let mut j: usize = n;
    while j > i && is_ws_char(v[j - 1])
        invariant
            i <= j <= n == v@.len(),
            forall|k: int| j <= k < n ==> is_ws(#[trigger] v@[k]),
        decreases j,
    {
        j -= 1;
    }
    proof {
        let t = v@.skip(i as int);
        let jj = j - i;
        assert forall|k: int| jj <= k < t.len() implies is_ws(#[trigger] t[k]) by {
            assert(t[k] == v@[k + i]);
        }
        if jj > 0 {
            assert(t[jj - 1] == v@[j - 1]);
        }
        lemma_trim_end_take(t, jj);
        assert(t.take(jj) =~= v@.subrange(i as int, j as int));
    }
    (i, j)
}

/// `str::trim`, as an owned string.
pub fn trim_str(s: &str) -> (r: String)
    ensures
        r@ == trim(s@),
{
    let v = chars_of(s);
    let (i, j) = trim_bounds(&v);
    string_from(&v, i, j)
}

/// `str::trim_start`, as an owned string.
pub fn trim_start_str(s: &str) -> (r: String)
    ensures
        r@ == trim_start(s@),
{
    let v = chars_of(s);
    let (i, _j) = trim_bounds(&v);
    assert(v@.subrange(i as int, v@.len() as int) =~= v@.skip(i as int));
    string_from(&v, i, v.len())
}

/// `str::trim_end`, as an owned string.
pub fn trim_end_str(s: &str) -> (r: String)
    ensures
        r@ == trim_end(s@),
{
    let v = chars_of(s);
    let n = v.len();
    let mut j: usize = n;
    while j > 0 && is_ws_char(v[j - 1])
        invariant
            j <= n == v@.len(),
            forall|k: int| j <= k < n ==> is_ws(#[trigger] v@[k]),
        decreases j,
    {
        j -= 1;
    }
    proof {
        lemma_trim_end_take(v@, j as int);
    }
    assert(v@.subrange(0, j as int) =~= v@.take(j as int));
    string_from(&v, 0, j)
}

/// Whether a string is empty after trimming.
pub open spec fn is_blank(s: Seq<char>) -> bool {
    trim(s).len() == 0
}

pub proof fn lemma_trim_start_blank(s: Seq<char>)
    ensures
        trim_start(s).len() == 0 <==> all_chars(s, |c: char| is_ws(c)),
    decreases s.len(),
{
    if s.len() > 0 && is_ws(s[0]) {
        lemma_trim_start_blank(s.drop_first());
        if all_chars(s.drop_first(), |c: char| is_ws(c)) {
            assert forall|i: int| 0 <= i < s.len() implies is_ws(#[trigger] s[i]) by {
                if i > 0 {
                    assert(s[i] == s.drop_first()[i - 1]);
                }
            }
        }
        if all_chars(s, |c: char| is_ws(c)) {
            assert forall|i: int| 0 <= i < s.drop_first().len() implies is_ws(
                #[trigger] s.drop_first()[i],
            ) by {
                assert(s.drop_first()[i] == s[i + 1]);
            }
        }
    } else if s.len() > 0 {
        assert(!is_ws(s[0]));
    }
}

pub proof fn lemma_trim_end_of_empty(s: Seq<char>)
    requires
        s.len() == 0,
    ensures
        trim_end(s).len() == 0,
{
}

pub proof fn lemma_trim_end_len(s: Seq<char>)
    ensures
        trim_end(s).len() == 0 ==> s.len() == 0 || is_ws(s[0]),
        trim_end(s).len() <= s.len(),
        s.len() > 0 && !is_ws(s[0]) ==> trim_end(s).len() > 0 && trim_end(s)[0] == s[0],
    decreases s.len(),
{
    if s.len() > 0 && is_ws(s.last()) {
        lemma_trim_end_len(s.drop_last());
        if s.len() > 1 {
            assert(s.drop_last()[0] == s[0]);
        }
    }
}

pub proof fn lemma_trim_start_len(s: Seq<char>)
    ensures
        trim_start(s).len() <= s.len(),
    decreases s.len(),
{
    if s.len() > 0 && is_ws(s[0]) {
        lemma_trim_start_len(s.drop_first());
    }
}

/// Trimming never lengthens.
pub proof fn lemma_trim_len(s: Seq<char>)
    ensures
        trim(s).len() <= s.len(),
{
    lemma_trim_start_len(s);
    lemma_trim_end_len(trim_start(s));
}

/// Blankness is "every character is whitespace".
pub proof fn lemma_blank(s: Seq<char>)
    ensures
        is_blank(s) <==> all_chars(s, |c: char| is_ws(c)),
{
    lemma_trim_start_blank(s);
    let t = trim_start(s);
    lemma_trim_end_len(t);
    if t.len() == 0 {
        lemma_trim_end_of_empty(t);
    } else {
        // t starts with a non-whitespace character
        lemma_trim_start_first(s);
    }
}

pub proof fn lemma_trim_start_first(s: Seq<char>)
    ensures
        trim_start(s).len() > 0 ==> !is_ws(trim_start(s)[0]),
    decreases s.len(),
{
    if s.len() > 0 && is_ws(s[0]) {
        lemma_trim_start_first(s.drop_first());
    }
}

/// Whether a string slice is blank (only whitespace).
pub fn is_blank_str(s: &str) -> (b: bool)
    ensures
        b == is_blank(s@),
{
    let v = chars_of(s);
    let (i, j) = trim_bounds(&v);
    i == j
}

// ───────────────────────── words (split_whitespace) ─────────────────────────

/// Length of the leading run of non-whitespace characters.
pub open spec fn word_len(s: Seq<char>) -> nat
    decreases s.len(),
{
    if s.len() == 0 || is_ws(s[0]) {
        0
    } else {
        1 + word_len(s.drop_first())
    }
}

pub proof fn lemma_word_len(s: Seq<char>)
    ensures
        word_len(s) <= s.len(),
        s.len() > 0 && !is_ws(s[0]) ==> word_len(s) >= 1,
        forall|k: int| 0 <= k < word_len(s) ==> !is_ws(#[trigger] s[k]),
        word_len(s) < s.len() ==> is_ws(s[word_len(s) as int]),
    decreases s.len(),
{
    if s.len() > 0 && !is_ws(s[0]) {
        let t = s.drop_first();
        lemma_word_len(t);
        assert forall|k: int| 0 <= k < word_len(s) implies !is_ws(#[trigger] s[k]) by {
            if k > 0 {
                assert(s[k] == t[k - 1]);
            }
        }
        if word_len(s) < s.len() {
            assert(s[word_len(s) as int] == t[word_len(t) as int]);
        }
    }
}

pub proof fn lemma_word_len_exact(s: Seq<char>, m: int)
    requires
        0 <= m <= s.len(),
        forall|k: int| 0 <= k < m ==> !is_ws(#[trigger] s[k]),
        m == s.len() || is_ws(s[m]),
    ensures
        word_len(s) == m,
    decreases m,
{
    if m > 0 {
        let t = s.drop_first();
        assert forall|k: int| 0 <= k < m - 1 implies !is_ws(#[trigger] t[k]) by {
            assert(t[k] == s[k + 1]);
        }
        if m < s.len() {
            assert(t[m - 1] == s[m]);
        }
        lemma_word_len_exact(t, m - 1);
    }
}

/// `str::split_whitespace`: the maximal runs of non-whitespace characters.
pub open spec fn words(s: Seq<char>) -> Seq<Seq<char>>
    decreases s.len(),
{
    if s.len() == 0 {
        seq![]
    } else if is_ws(s[0]) {
        words(s.drop_first())
    } else {
        let n = word_len(s);
        proof {
            lemma_word_len(s);
        }
        seq![s.take(n as int)] + words(s.skip(n as int))
    }
}

/// Words of the suffix starting at `i`.
pub proof fn lemma_words_step_ws(s: Seq<char>, i: int)
    requires
        0 <= i < s.len(),
        is_ws(s[i]),
    ensures
        words(s.skip(i)) == words(s.skip(i + 1)),
{
    assert(s.skip(i).drop_first() =~= s.skip(i + 1));
}

pub proof fn lemma_words_step_word(s: Seq<char>, i: int, j: int)
    requires
        0 <= i < j <= s.len(),
        forall|k: int| i <= k < j ==> !is_ws(#[trigger] s[k]),
        j == s.len() || is_ws(s[j]),
    ensures
        words(s.skip(i)) == seq![s.subrange(i, j)] + words(s.skip(j)),
{
    let t = s.skip(i);
    assert forall|k: int| 0 <= k < j - i implies !is_ws(#[trigger] t[k]) by {
        assert(t[k] == s[k + i]);
    }
    if j < s.len() {
        assert(t[j - i] == s[j]);
    }
    lemma_word_len_exact(t, j - i);
    assert(t[0] == s[i]);
    assert(t.take(j - i) =~= s.subrange(i, j));
    assert(t.skip(j - i) =~= s.skip(j));
}

/// Words of a character vector.
pub fn words_of_chars(v: &Vec<char>) -> (r: Vec<String>)
    ensures
        r.deep_view() == words(v@),
{
    let n = v.len();
    let mut out: Vec<String> = Vec::new();
    let mut i: usize = 0;
    assert(v@.skip(0) =~= v@);
    while i < n
        invariant
            i <= n == v@.len(),
            out.deep_view() + words(v@.skip(i as int)) == words(v@),
        decreases n - i,
    {
        if is_ws_char(v[i]) {
            proof {
                lemma_words_step_ws(v@, i as int);
            }
            i += 1;
        } else {
            let mut j = i + 1;
            while j < n && !is_ws_char(v[j])
                invariant
                    i < j <= n == v@.len(),
                    forall|k: int| i <= k < j ==> !is_ws(#[trigger] v@[k]),
                decreases n - j,
            {
                j += 1;
            }
            proof {
                lemma_words_step_word(v@, i as int, j as int);
            }
            let w = string_from(v, i, j);
            let ghost old_out = out.deep_view();
            out.push(w);
            assert(out.deep_view() =~= old_out.push(v@.subrange(i as int, j as int)));
            assert(out.deep_view() + words(v@.skip(j as int)) =~= old_out + (seq![
                v@.subrange(i as int, j as int),
            ] + words(v@.skip(j as int))));
            i = j;
        }
    }
    assert(v@.skip(n as int) =~= Seq::<char>::empty());
    assert(out.deep_view() + Seq::<Seq<char>>::empty() =~= out.deep_view());
    out
}

/// `s.split_whitespace()`, collected.
pub fn split_ws(s: &str) -> (r: Vec<String>)
    ensures
        r.deep_view() == words(s@),
{
    let v = chars_of(s);
    words_of_chars(&v)
}

// ───────────────────────── joining ─────────────────────────

/// `parts.join(sep)`.
pub open spec fn join(parts: Seq<Seq<char>>, sep: Seq<char>) -> Seq<char>
    decreases parts.len(),
{
    if parts.len() == 0 {
        seq![]
    } else if parts.len() == 1 {
        parts[0]
    } else {
        join(parts.drop_last(), sep) + sep + parts.last()
    }
}

/// Joining one more part.
pub proof fn lemma_join_push(parts: Seq<Seq<char>>, sep: Seq<char>, p: Seq<char>)
    ensures
        join(parts.push(p), sep) == if parts.len() == 0 {
            p
        } else {
            join(parts, sep) + sep + p
        },
{
    assert(parts.push(p).drop_last() =~= parts);
}

/// `parts.join(sep)` on owned strings.
pub fn join_strings(parts: &Vec<String>, sep: &str) -> (r: String)
    ensures
        r@ == join(parts.deep_view(), sep@),
{
    let mut out = String::new();
    let n = parts.len();
    let ghost dv = parts.deep_view();
    let mut i: usize = 0;
    while i < n
        invariant
            i <= n == parts@.len() == dv.len(),
            dv == parts.deep_view(),
            out@ == join(dv.take(i as int), sep@),
        decreases n - i,
    {
        proof {
            lemma_join_push(dv.take(i as int), sep@, dv[i as int]);
            assert(dv.take(i as int).push(dv[i as int]) =~= dv.take(i + 1));
        }
        if i > 0 {
            out.append(sep);
        }
        out.append(parts[i].as_str());
        i += 1;
    }
    assert(dv.take(n as int) =~= dv);
    out
}

// ───────────────────────── prefixes, suffixes, searches ─────────────────────────

pub open spec fn starts_with(s: Seq<char>, p: Seq<char>) -> bool {
    p.len() <= s.len() && s.take(p.len() as int) == p
}

pub open spec fn ends_with(s: Seq<char>, p: Seq<char>) -> bool {
    p.len() <= s.len() && s.skip(s.len() - p.len()) == p
}

/// `p` occurs in `s` as a contiguous run.
pub open spec fn contains_sub(s: Seq<char>, p: Seq<char>) -> bool {
    exists|i: int| 0 <= i && i + p.len() <= s.len() && #[trigger] s.subrange(i, i + p.len()) == p
}

pub fn starts_with_str(s: &str, p: &str) -> (b: bool)
    ensures
        b == starts_with(s@, p@),
{
    let v = chars_of(s);
    let w = chars_of(p);
    if w.len() > v.len() {
        return false;
    }
    let mut i: usize = 0;
    while i < w.len()
        invariant
            i <= w@.len() <= v@.len(),
            v@ == s@,
            w@ == p@,
            forall|k: int| 0 <= k < i ==> v@[k] == w@[k],
        decreases w@.len() - i,
    {
        if v[i] != w[i] {
            proof {
                let t = v@.take(w@.len() as int);
                if t == w@ {
                    assert(t[i as int] == w@[i as int]);
                }
            }
            return false;
        }
        i += 1;
    }
    assert(v@.take(w@.len() as int) =~= w@);
    true
}

pub fn ends_with_str(s: &str, p: &str) -> (b: bool)
    ensures
        b == ends_with(s@, p@),
{
    let v = chars_of(s);
    let w = chars_of(p);
    if w.len() > v.len() {
        return false;
    }
    let off = v.len() - w.len();
    let n = v.len();
    let mut i: usize = 0;
    while i < w.len()
        invariant
            i <= w@.len() <= v@.len(),
            n == v@.len(),
            v@ == s@,
            w@ == p@,
            off + w@.len() == v@.len(),
            forall|k: int| 0 <= k < i ==> v@[off + k] == w@[k],
        decreases w@.len() - i,
    {
        if v[off + i] != w[i] {
            proof {
                let t = v@.skip(off as int);
                if t == w@ {
                    assert(t[i as int] == w@[i as int]);
                }
            }
            return false;
        }
        i += 1;
    }
    assert(v@.skip(off as int) =~= w@);
    true
}

/// Whether `p` occurs in `v` starting at `i`.
pub fn matches_at(v: &Vec<char>, w: &Vec<char>, i: usize) -> (b: bool)
    requires
        i + w@.len() <= v@.len(),
    ensures
        b == (v@.subrange(i as int, i + w@.len()) == w@),
{
    let n = v.len();
    let mut k: usize = 0;
    while k < w.len()
        invariant
            k <= w@.len(),
            n == v@.len(),
            i + w@.len() <= v@.len(),
            forall|m: int| 0 <= m < k ==> v@[i + m] == w@[m],
        decreases w@.len() - k,
    {
        if v[i + k] != w[k] {
            proof {
                let t = v@.subrange(i as int, i + w@.len());
                if t == w@ {
                    assert(t[k as int] == w@[k as int]);
                }
            }
            return false;
        }
        k += 1;
    }
    assert(v@.subrange(i as int, i + w@.len()) =~= w@);
    true
}

pub fn contains_str(s: &str, p: &str) -> (b: bool)
    ensures
        b == contains_sub(s@, p@),
{
    let v = chars_of(s);
    let w = chars_of(p);
    if w.len() > v.len() {
        return false;
    }
    if w.len() == 0 {
        assert(v@.subrange(0int, 0int + w@.len()) =~= w@);
        assert(s@.subrange(0int, 0int + p@.len()) == p@);
        return true;
    }
    let n = v.len();
    let last = v.len() - w.len();
    let mut i: usize = 0;
    while i <= last
        invariant
            last + w@.len() == v@.len(),
            last < n,
            n == v@.len(),
            i <= last + 1,
            v@ == s@,
            w@ == p@,
            forall|k: int| 0 <= k < i ==> #[trigger] v@.subrange(k, k + w@.len()) != w@,
        decreases last + 1 - i,
    {
        if matches_at(&v, &w, i) {
            assert(v@.subrange(i as int, i + w@.len()) == w@);
            return true;
        }
        i += 1;
    }
    proof {
        assert forall|k: int| 0 <= k && k + w@.len() <= v@.len() implies #[trigger] v@.subrange(k, k + w@.len()) != w@ by {
            assert(k < i);
        }
    }
    false
}

pub fn contains_char(s: &str, c: char) -> (b: bool)
    ensures
        b == s@.contains(c),
{
    let v = chars_of(s);
    let mut i: usize = 0;
    while i < v.len()
        invariant
            i <= v@.len(),
            v@ == s@,
            forall|k: int| 0 <= k < i ==> v@[k] != c,
        decreases v@.len() - i,
    {
        if v[i] == c {
            assert(v@[i as int] == c);
            return true;
        }
        i += 1;
    }
    false
}

/// Index of the first occurrence of `c`.
pub open spec fn find_char(s: Seq<char>, c: char) -> Option<int>
    decreases s.len(),
{
    if s.len() == 0 {
        None
    } else if s[0] == c {
        Some(0)
    } else {
        match find_char(s.drop_first(), c) {
            Some(i) => Some(i + 1),
            None => None,
        }
    }
}

pub proof fn lemma_find_char(s: Seq<char>, c: char, i: int)
    requires
        0 <= i <= s.len(),
        forall|k: int| 0 <= k < i ==> s[k] != c,
        i == s.len() || s[i] == c,
    ensures
        find_char(s, c) == if i == s.len() {
            None::<int>
        } else {
            Some(i)
        },
    decreases i,
{
    if i > 0 {
        let t = s.drop_first();
        assert forall|k: int| 0 <= k < i - 1 implies t[k] != c by {
            assert(t[k] == s[k + 1]);
        }
        if i < s.len() {
            assert(t[i - 1] == s[i]);
        }
        lemma_find_char(t, c, i - 1);
    }
}

/// Position of the first `c` in a character vector.
pub fn find_char_vec(v: &Vec<char>, c: char) -> (r: Option<usize>)
    ensures
        match r {
            Some(i) => find_char(v@, c) == Some(i as int) && i < v@.len(),
            None => find_char(v@, c) == None::<int>,
        },
{
    let mut i: usize = 0;
    while i < v.len()
        invariant
            i <= v@.len(),
            forall|k: int| 0 <= k < i ==> v@[k] != c,
        decreases v@.len() - i,
    {
        if v[i] == c {
            proof {
                lemma_find_char(v@, c, i as int);
            }
            return Some(i);
        }
        i += 1;
    }
    proof {
        lemma_find_char(v@, c, i as int);
    }
    None
}

/// `s.split_once(c)`.
pub open spec fn split_once(s: Seq<char>, c: char) -> Option<(Seq<char>, Seq<char>)> {
    match find_char(s, c) {
        Some(i) => Some((s.take(i), s.skip(i + 1))),
        None => None,
    }
}

/// `s.split(c).next().unwrap()`: the part before the first `c`.
pub open spec fn before_char(s: Seq<char>, c: char) -> Seq<char> {
    match find_char(s, c) {
        Some(i) => s.take(i),
        None => s,
    }
}

pub fn split_once_str(s: &str, c: char) -> (r: Option<(String, String)>)
    ensures
        match r {
            Some((a, b)) => split_once(s@, c) == Some((a@, b@)),
            None => split_once(s@, c) is None,
        },
{
    let v = chars_of(s);
    let n = v.len();
    match find_char_vec(&v, c) {
        Some(i) => {
            assert(i < n);
            let a = string_from(&v, 0, i);
            let b = string_from(&v, i + 1, v.len());
            assert(v@.subrange(0, i as int) =~= v@.take(i as int));
            assert(v@.subrange(i + 1, v@.len() as int) =~= v@.skip(i + 1));
            Some((a, b))
        },
        None => None,
    }
}

pub fn before_char_str(s: &str, c: char) -> (r: String)
    ensures
        r@ == before_char(s@, c),
{
    let v = chars_of(s);
    match find_char_vec(&v, c) {
        Some(i) => {
            assert(v@.subrange(0, i as int) =~= v@.take(i as int));
            string_from(&v, 0, i)
        },
        None => {
            assert(v@.subrange(0, v@.len() as int) =~= v@);
            string_from(&v, 0, v.len())
        },
    }
}

/// `str::eq_ignore_ascii_case`.
pub fn eq_ignore_case_str(a: &str, b: &str) -> (r: bool)
    ensures
        r == eq_ignore_case(a@, b@),
{
    let v = chars_of(a);
    let w = chars_of(b);
    if v.len() != w.len() {
        return false;
    }
    let mut i: usize = 0;
    while i < v.len()
        invariant
            i <= v@.len() == w@.len(),
            v@ == a@,
            w@ == b@,
            forall|k: int| 0 <= k < i ==> ascii_lower(v@[k]) == ascii_lower(w@[k]),
        decreases v@.len() - i,
    {
        let x = v[i];
        let y = w[i];
        let lx = if 'A' <= x && x <= 'Z' {
            ((x as u32) + 32) as u8 as char
        } else {
            x
        };
        let ly = if 'A' <= y && y <= 'Z' {
            ((y as u32) + 32) as u8 as char
        } else {
            y
        };
        assert(lx == ascii_lower(x));
        assert(ly == ascii_lower(y));
        if lx != ly {
            assert(ascii_lower(v@[i as int]) != ascii_lower(w@[i as int]));
            return false;
        }
        i += 1;
    }
    true
}

/// Every character of `s` is ASCII alphanumeric or one of `extra`.
pub open spec fn all_alnum_or(s: Seq<char>, extra: Seq<char>) -> bool {
    forall|i: int| 0 <= i < s.len() ==> is_alnum(#[trigger] s[i]) || extra.contains(s[i])
}

pub fn all_alnum_or_str(s: &str, extra: &str) -> (b: bool)
    ensures
        b == all_alnum_or(s@, extra@),
{
    let v = chars_of(s);
    let e = chars_of(extra);
    let mut i: usize = 0;
    while i < v.len()
        invariant
            i <= v@.len(),
            v@ == s@,
            e@ == extra@,
            forall|k: int| 0 <= k < i ==> is_alnum(#[trigger] v@[k]) || e@.contains(v@[k]),
        decreases v@.len() - i,
    {
        let c = v[i];
        if !is_alnum_char(c) {
            let mut found = false;
            let mut k: usize = 0;
            while k < e.len()
                invariant
                    k <= e@.len(),
                    found == exists|m: int| 0 <= m < k && e@[m] == c,
                decreases e@.len() - k,
            {
                if e[k] == c {
                    found = true;
                }
                k += 1;
            }
            if !found {
                assert(!e@.contains(c));
                assert(!(is_alnum(v@[i as int]) || e@.contains(v@[i as int])));
                return false;
            }
        }
        i += 1;
    }
    true
}

/// Number of UTF-8 bytes of a character.
pub open spec fn utf8_width(c: char) -> nat {
    if (c as u32) < 0x80 {
        1
    } else if (c as u32) < 0x800 {
        2
    } else if (c as u32) < 0x10000 {
        3
    } else {
        4
    }
}

/// UTF-8 byte length of a character sequence (`str::len`).
pub open spec fn byte_len(s: Seq<char>) -> nat
    decreases s.len(),
{
    if s.len() == 0 {
        0
    } else {
        byte_len(s.drop_last()) + utf8_width(s.last())
    }
}

/// Whether the UTF-8 encoding of `s` is longer than `limit` bytes.
pub fn bytes_exceed(s: &str, limit: usize) -> (r: bool)
    ensures
        r == (byte_len(s@) > limit),
{
    let v = chars_of(s);
    let mut total: usize = 0;
    let mut k: usize = 0;
    while k < v.len()
        invariant
            k <= v@.len(),
            v@ == s@,
            total == byte_len(v@.take(k as int)),
            total <= limit,
        decreases v@.len() - k,
    {
        assert(v@.take(k + 1).drop_last() =~= v@.take(k as int));
        let c = v[k] as u32;
        let w: usize = if c < 0x80 {
            1
        } else if c < 0x800 {
            2
        } else if c < 0x10000 {
            3
        } else {
            4
        };
        if w > limit - total {
            proof {
                lemma_byte_len_prefix(v@, k + 1);
            }
            return true;
        }
        total = total + w;
        k += 1;
    }
    assert(v@.take(v@.len() as int) =~= v@);
    false
}

/// `str::len`: the UTF-8 byte length.
pub fn utf8_len(s: &str) -> (n: usize)
    requires
        byte_len(s@) <= usize::MAX,
    ensures
        n == byte_len(s@),
{
    let v = chars_of(s);
    let mut total: usize = 0;
    let mut k: usize = 0;
    while k < v.len()
        invariant
            k <= v@.len(),
            v@ == s@,
            byte_len(s@) <= usize::MAX,
            total == byte_len(v@.take(k as int)),
        decreases v@.len() - k,
    {
        assert(v@.take(k + 1).drop_last() =~= v@.take(k as int));
        proof {
            lemma_byte_len_prefix(v@, k + 1);
        }
        let c = v[k] as u32;
        let w: usize = if c < 0x80 {
            1
        } else if c < 0x800 {
            2
        } else if c < 0x10000 {
            3
        } else {
            4
        };
        total = total + w;
        k += 1;
    }
    assert(v@.take(v@.len() as int) =~= v@);
    total
}

/// The bytes of a prefix never exceed those of the whole.
pub proof fn lemma_byte_len_prefix(s: Seq<char>, k: int)
    requires
        0 <= k <= s.len(),
    ensures
        byte_len(s.take(k)) <= byte_len(s),
    decreases s.len() - k,
{
    if k < s.len() {
        lemma_byte_len_prefix(s, k + 1);
        assert(s.take(k + 1).drop_last() =~= s.take(k));
    } else {
        assert(s.take(k) =~= s);
    }
}

/// Only the empty string has no bytes.
pub proof fn lemma_byte_len_zero(s: Seq<char>)
    ensures
        byte_len(s) == 0 <==> s.len() == 0,
{
}

// ───────────────────────── substrings and control characters ─────────────────────────

/// `p` occurs in `s` at position `i`.
pub open spec fn occurs_at(s: Seq<char>, p: Seq<char>, i: int) -> bool {
    0 <= i && i + p.len() <= s.len() && s.subrange(i, i + p.len()) == p
}

/// `i` is the first position at which `p` occurs in `s`.
pub open spec fn first_at(s: Seq<char>, p: Seq<char>, i: int) -> bool {
    occurs_at(s, p, i) && forall|k: int| 0 <= k < i ==> !#[trigger] occurs_at(s, p, k)
}

/// `str::find` with a string pattern: the first position of `p` in `s`.
pub open spec fn find_sub(s: Seq<char>, p: Seq<char>) -> Option<int> {
    if exists|i: int| first_at(s, p, i) {
        Some(choose|i: int| first_at(s, p, i))
    } else {
        None
    }
}

/// A first occurrence is the only one.
pub proof fn lemma_first_at_unique(s: Seq<char>, p: Seq<char>, i: int)
    requires
        first_at(s, p, i),
    ensures
        find_sub(s, p) == Some(i),
{
    let j = choose|j: int| first_at(s, p, j);
    assert(first_at(s, p, j));
    if j < i {
        assert(!occurs_at(s, p, j));
    } else if j > i {
        assert(!occurs_at(s, p, i));
    }
}

/// `s.find(p)` for string slices.
pub fn find_str(s: &str, p: &str) -> (r: Option<usize>)
    ensures
        match r {
            Some(i) => find_sub(s@, p@) == Some(i as int) && i + p@.len() <= s@.len(),
            None => find_sub(s@, p@) is None,
        },
{
    let v = chars_of(s);
    let w = chars_of(p);
    if w.len() > v.len() {
        proof {
            assert forall|i: int| !first_at(s@, p@, i) by {}
        }
        return None;
    }
    if w.len() == 0 {
        proof {
            assert(v@.subrange(0, 0) =~= w@);
            assert(first_at(s@, p@, 0));
            lemma_first_at_unique(s@, p@, 0);
        }
        return Some(0);
    }
    let n = v.len();
    let last = v.len() - w.len();
    let mut i: usize = 0;
    while i <= last
        invariant
            last + w@.len() == v@.len(),
            n == v@.len(),
            w@.len() > 0,
            i <= last + 1,
            v@ == s@,
            w@ == p@,
            forall|k: int| 0 <= k < i ==> !#[trigger] occurs_at(s@, p@, k),
        decreases last + 1 - i,
    {
        if matches_at(&v, &w, i) {
            proof {
                assert(first_at(s@, p@, i as int));
                lemma_first_at_unique(s@, p@, i as int);
            }
            return Some(i);
        }
        i += 1;
    }
    proof {
        assert forall|k: int| !first_at(s@, p@, k) by {
            if first_at(s@, p@, k) {
                assert(k < i);
            }
        }
    }
    None
}

/// The part of `s` before the first `p` (all of `s` when `p` does not occur):
/// the first item of `s.split(p)`.
pub open spec fn before_sub(s: Seq<char>, p: Seq<char>) -> Seq<char> {
    match find_sub(s, p) {
        Some(i) => s.take(i),
        None => s,
    }
}

/// `s.split(p).nth(1)`: the piece between the first and second `p`.
pub open spec fn second_piece(s: Seq<char>, p: Seq<char>) -> Option<Seq<char>> {
    match find_sub(s, p) {
        Some(i) => Some(before_sub(s.skip(i + p.len()), p)),
        None => None,
    }
}

pub fn before_sub_str(s: &str, p: &str) -> (r: String)
    ensures
        r@ == before_sub(s@, p@),
{
    let v = chars_of(s);
    match find_str(s, p) {
        Some(i) => {
            assert(v@.subrange(0, i as int) =~= v@.take(i as int));
            string_from(&v, 0, i)
        },
        None => {
            assert(v@.subrange(0, v@.len() as int) =~= v@);
            string_from(&v, 0, v.len())
        },
    }
}

pub fn second_piece_str(s: &str, p: &str) -> (r: Option<String>)
    ensures
        match r {
            Some(t) => second_piece(s@, p@) == Some(t@),
            None => second_piece(s@, p@) is None,
        },
{
    let v = chars_of(s);
    let pv = chars_of(p);
    let plen = pv.len();
    let n = v.len();
    match find_str(s, p) {
        Some(i) => {
            assert(plen == p@.len());
            let rest = string_from(&v, i + plen, n);
            proof {
                assert(rest@ =~= s@.skip(i + p@.len()));
            }
            Some(before_sub_str(rest.as_str(), p))
        },
        None => None,
    }
}

/// A C0 control character or DEL.
pub open spec fn is_ctrl(c: char) -> bool {
    c < ' ' || c == '\x7f'
}

/// Some character of `s` is a control character.
pub open spec fn any_ctrl(s: Seq<char>) -> bool {
    exists|i: int| 0 <= i < s.len() && is_ctrl(#[trigger] s[i])
}

/// `s.chars().any(|c| c < ' ' || c == '\x7f')`.
pub fn has_ctrl(s: &str) -> (b: bool)
    ensures
        b == any_ctrl(s@),
{
    let v = chars_of(s);
    let mut i: usize = 0;
    while i < v.len()
        invariant
            i <= v@.len(),
            v@ == s@,
            forall|k: int| 0 <= k < i ==> !is_ctrl(#[trigger] v@[k]),
        decreases v@.len() - i,
    {
        if v[i] < ' ' || v[i] == '\x7f' {
            assert(is_ctrl(s@[i as int]));
            return true;
        }
        i += 1;
    }
    false
}

// ───────────────────────── lines ─────────────────────────

/// What `find_char` reports, spelled out.
pub proof fn lemma_find_char_facts(s: Seq<char>, c: char)
    ensures
        match find_char(s, c) {
            Some(i) => 0 <= i < s.len() && s[i] == c && forall|k: int| 0 <= k < i ==> s[k] != c,
            None => forall|k: int| 0 <= k < s.len() ==> s[k] != c,
        },
    decreases s.len(),
{
    if s.len() > 0 && s[0] != c {
        lemma_find_char_facts(s.drop_first(), c);
        let t = s.drop_first();
        match find_char(t, c) {
            Some(i) => {
                assert forall|k: int| 0 <= k < i + 1 implies s[k] != c by {
                    if k > 0 {
                        assert(s[k] == t[k - 1]);
                    }
                }
            },
            None => {
                assert forall|k: int| 0 <= k < s.len() implies s[k] != c by {
                    if k > 0 {
                        assert(s[k] == t[k - 1]);
                    }
                }
            },
        }
    }
}

/// A line ending in `\r\n` loses its `\r`.
pub open spec fn strip_cr(t: Seq<char>) -> Seq<char> {
    if t.len() > 0 && t.last() == '\r' {
        t.drop_last()
    } else {
        t
    }
}

/// `str::lines`: pieces separated by `\n`; a `\r` just before a `\n` is
/// dropped; a final `\n` does not start an empty line.
pub open spec fn lines(s: Seq<char>) -> Seq<Seq<char>>
    decreases s.len(),
{
    if s.len() == 0 {
        seq![]
    } else {
        match find_char(s, '\n') {
            Some(i) => {
                proof {
                    lemma_find_char_facts(s, '\n');
                }
                seq![strip_cr(s.take(i))] + lines(s.skip(i + 1))
            },
            None => seq![s],
        }
    }
}

/// One step of `lines` from position `i`, when the next `\n` is at `j`.
pub proof fn lemma_lines_step(s: Seq<char>, i: int, j: int)
    requires
        0 <= i <= j < s.len(),
        s[j] == '\n',
        forall|k: int| i <= k < j ==> s[k] != '\n',
    ensures
        lines(s.skip(i)) == seq![strip_cr(s.subrange(i, j))] + lines(s.skip(j + 1)),
{
    let t = s.skip(i);
    assert forall|k: int| 0 <= k < j - i implies t[k] != '\n' by {
        assert(t[k] == s[k + i]);
    }
    assert(t[j - i] == s[j]);
    lemma_find_char(t, '\n', j - i);
    assert(t.take(j - i) =~= s.subrange(i, j));
    assert(t.skip(j - i + 1) =~= s.skip(j + 1));
}

/// The last line, when no `\n` follows position `i`.
pub proof fn lemma_lines_last(s: Seq<char>, i: int)
    requires
        0 <= i < s.len(),
        forall|k: int| i <= k < s.len() ==> s[k] != '\n',
    ensures
        lines(s.skip(i)) == seq![s.skip(i)],
{
    let t = s.skip(i);
    assert forall|k: int| 0 <= k < t.len() implies t[k] != '\n' by {
        assert(t[k] == s[k + i]);
    }
    lemma_find_char(t, '\n', t.len() as int);
}

fn strip_cr_range(v: &Vec<char>, i: usize, j: usize) -> (r: String)
    requires
        i <= j <= v@.len(),
    ensures
        r@ == strip_cr(v@.subrange(i as int, j as int)),
{
    if j > i && v[j - 1] == '\r' {
        assert(v@.subrange(i as int, j as int).drop_last() =~= v@.subrange(i as int, j - 1));
        string_from(v, i, j - 1)
    } else {
        string_from(v, i, j)
    }
}

/// `s.lines()`, collected.
pub fn split_lines(s: &str) -> (r: Vec<String>)
    ensures
        r.deep_view() == lines(s@),
{
    let v = chars_of(s);
    let n = v.len();
    let mut out: Vec<String> = Vec::new();
    let mut i: usize = 0;
    assert(v@.skip(0) =~= v@);
    while i < n
        invariant
            i <= n == v@.len(),
            v@ == s@,
            out.deep_view() + lines(v@.skip(i as int)) == lines(v@),
        decreases n - i,
    {
        let mut j = i;
        while j < n && v[j] != '\n'
            invariant
                i <= j <= n == v@.len(),
                forall|k: int| i <= k < j ==> v@[k] != '\n',
            decreases n - j,
        {
            j += 1;
        }
        let ghost old_out = out.deep_view();
        if j < n {
            proof {
                lemma_lines_step(v@, i as int, j as int);
            }
            let line = strip_cr_range(&v, i, j);
            out.push(line);
            assert(out.deep_view() =~= old_out.push(strip_cr(v@.subrange(i as int, j as int))));
            assert(out.deep_view() + lines(v@.skip(j + 1)) =~= old_out + (seq![
                strip_cr(v@.subrange(i as int, j as int)),
            ] + lines(v@.skip(j + 1))));
            i = j + 1;
        } else {
            proof {
                lemma_lines_last(v@, i as int);
            }
            let line = string_from(&v, i, n);
            assert(line@ =~= v@.skip(i as int));
            out.push(line);
            assert(out.deep_view() =~= old_out.push(v@.skip(i as int)));
            assert(v@.skip(n as int) =~= Seq::<char>::empty());
            assert(out.deep_view() + lines(v@.skip(n as int)) =~= old_out + seq![v@.skip(i as int)]);
            i = n;
        }
    }
    assert(v@.skip(n as int) =~= Seq::<char>::empty());
    assert(out.deep_view() + Seq::<Seq<char>>::empty() =~= out.deep_view());
    out
}

// ───────────────────────── case ─────────────────────────

/// What `str::to_lowercase` returns: the full Unicode lower-case mapping.
pub uninterp spec fn unicode_lower(s: Seq<char>) -> Seq<char>;

/// What `str::to_uppercase` returns: the full Unicode upper-case mapping.
pub uninterp spec fn unicode_upper(s: Seq<char>) -> Seq<char>;

/// `str::to_uppercase`. The contract names the result only: the Unicode
/// case tables it follows are not restated here.
#[verifier::external_body]
pub fn to_uppercase_str(s: &str) -> (r: String)
    ensures
        r@ == unicode_upper(s@),
{
    s.to_uppercase()
}

/// `str::to_lowercase`. The contract names the result only: the Unicode
/// case tables it follows are not restated here.
#[verifier::external_body]
pub fn to_lowercase_str(s: &str) -> (r: String)
    ensures
        r@ == unicode_lower(s@),
{
    s.to_lowercase()
}

pub proof fn lemma_trim_end_idempotent(s: Seq<char>)
    ensures
        trim_end(trim_end(s)) == trim_end(s),
    decreases s.len(),
{
    if s.len() > 0 && is_ws(s.last()) {
        lemma_trim_end_idempotent(s.drop_last());
    }
}

/// Trimming twice is trimming once.
pub proof fn lemma_trim_idempotent(s: Seq<char>)
    ensures
        trim(trim(s)) == trim(s),
{
    let u = trim_start(s);
    let t = trim_end(u);
    lemma_trim_start_first(s);
    lemma_trim_end_len(u);
    assert(trim_start(t) == t);
    lemma_trim_end_idempotent(u);
}

/// Lines written one after another, each ended by a newline.
pub closed spec fn text_of(ls: Seq<Seq<char>>) -> Seq<char>
    decreases ls.len(),
{
    if ls.len() == 0 {
        seq![]
    } else {
        text_of(ls.drop_last()) + ls.last() + "\n"@
    }
}

pub proof fn lemma_text_of_empty()
    ensures
        text_of(seq![]) == Seq::<char>::empty(),
{
}

/// Appends `line` and a newline.
pub(crate) fn push_line(out: &mut String, line: &String, Ghost(ls): Ghost<Seq<Seq<char>>>)
    requires
        old(out)@ == text_of(ls),
    ensures
        final(out)@ == text_of(ls.push(line@)),
{
    proof {
        reveal_strlit("\n");
    }
    push_str(out, line.as_str());
    push_char(out, '\n');
    assert(ls.push(line@).drop_last() =~= ls);
    assert(out@ =~= text_of(ls.push(line@)));
}

// ───────────────────────── splitting on a character ─────────────────────────

/// `s.splitn(n, c)`: at most `n` pieces; the last holds the rest.
pub open spec fn splitn_char(s: Seq<char>, n: nat, c: char) -> Seq<Seq<char>>
    decreases n,
{
    if n == 0 {
        seq![]
    } else if n == 1 {
        seq![s]
    } else {
        match find_char(s, c) {
            Some(i) => seq![s.take(i)] + splitn_char(s.skip(i + 1), (n - 1) as nat, c),
            None => seq![s],
        }
    }
}

/// A piece without the separator, then the separator: `splitn` takes the
/// piece and goes on after it.
pub proof fn lemma_splitn_cons(a: Seq<char>, rest: Seq<char>, n: nat, c: char)
    requires
        n >= 2,
        !a.contains(c),
    ensures
        splitn_char(a + seq![c] + rest, n, c) == seq![a] + splitn_char(rest, (n - 1) as nat, c),
{
    let s = a + seq![c] + rest;
    assert forall|k: int| 0 <= k < a.len() implies s[k] != c by {
        assert(s[k] == a[k]);
        if a[k] == c {
            assert(a.contains(c));
        }
    }
    assert(s[a.len() as int] == c);
    lemma_find_char(s, c, a.len() as int);
    assert(s.take(a.len() as int) =~= a);
    assert(s.skip(a.len() as int + 1) =~= rest);
}

/// `splitn` with room for at least one piece gives at least one.
pub proof fn lemma_splitn_nonempty(s: Seq<char>, n: nat, c: char)
    requires
        n >= 1,
    ensures
        splitn_char(s, n, c).len() >= 1,
{
}

/// `s.split(c)`: all pieces between occurrences of `c`.
pub open spec fn split_char(s: Seq<char>, c: char) -> Seq<Seq<char>>
    decreases s.len(),
{
    match find_char(s, c) {
        Some(i) => {
            proof {
                lemma_find_char_facts(s, c);
            }
            seq![s.take(i)] + split_char(s.skip(i + 1), c)
        },
        None => seq![s],
    }
}

proof fn lemma_find_char_from(s: Seq<char>, c: char, i: int, j: int)
    requires
        0 <= i <= j <= s.len(),
        forall|k: int| i <= k < j ==> s[k] != c,
        j == s.len() || s[j] == c,
    ensures
        find_char(s.skip(i), c) == if j == s.len() {
            None::<int>
        } else {
            Some(j - i)
        },
{
    let t = s.skip(i);
    assert forall|k: int| 0 <= k < j - i implies t[k] != c by {
        assert(t[k] == s[k + i]);
    }
    if j < s.len() {
        assert(t[j - i] == s[j]);
    }
    lemma_find_char(t, c, j - i);
}

/// `s.splitn(n, c)`, collected.
pub fn splitn_str(s: &str, n: usize, c: char) -> (r: Vec<String>)
    ensures
        r.deep_view() == splitn_char(s@, n as nat, c),
{
    let v = chars_of(s);
    let len = v.len();
    let mut out: Vec<String> = Vec::new();
    let mut i: usize = 0;
    let mut k: usize = n;
    assert(v@.skip(0) =~= v@);
    while k > 1
        invariant
            i <= len == v@.len(),
            v@ == s@,
            k <= n,
            out.deep_view() + splitn_char(v@.skip(i as int), k as nat, c) == splitn_char(s@, n as nat, c),
        decreases k,
    {
        let mut j = i;
        while j < len && v[j] != c
            invariant
                i <= j <= len == v@.len(),
                forall|m: int| i <= m < j ==> v@[m] != c,
            decreases len - j,
        {
            j += 1;
        }
        proof {
            lemma_find_char_from(v@, c, i as int, j as int);
        }
        let ghost o0 = out.deep_view();
        if j == len {
            let piece = string_from(&v, i, len);
            assert(piece@ =~= v@.skip(i as int));
            out.push(piece);
            assert(out.deep_view() =~= o0.push(v@.skip(i as int)));
            assert(out.deep_view() =~= o0 + splitn_char(v@.skip(i as int), k as nat, c));
            return out;
        }
        let piece = string_from(&v, i, j);
        assert(piece@ =~= v@.skip(i as int).take(j - i));
        out.push(piece);
        assert(v@.skip(i as int).skip(j - i + 1) =~= v@.skip(j + 1));
        assert(out.deep_view() + splitn_char(v@.skip(j + 1), (k - 1) as nat, c) =~= o0
            + splitn_char(v@.skip(i as int), k as nat, c));
        i = j + 1;
        k -= 1;
    }
    let ghost o0 = out.deep_view();
    if k == 1 {
        let piece = string_from(&v, i, len);
        assert(piece@ =~= v@.skip(i as int));
        out.push(piece);
        assert(out.deep_view() =~= o0 + splitn_char(v@.skip(i as int), k as nat, c));
    } else {
        assert(out.deep_view() =~= o0 + splitn_char(v@.skip(i as int), k as nat, c));
    }
    out
}

/// `s.split(c)`, collected.
pub fn split_str(s: &str, c: char) -> (r: Vec<String>)
    ensures
        r.deep_view() == split_char(s@, c),
{
    let v = chars_of(s);
    let len = v.len();
    let mut out: Vec<String> = Vec::new();
    let mut i: usize = 0;
    assert(v@.skip(0) =~= v@);
    loop
        invariant
            i <= len == v@.len(),
            v@ == s@,
            out.deep_view() + split_char(v@.skip(i as int), c) == split_char(s@, c),
        decreases len - i,
    {
        let mut j = i;
        while j < len && v[j] != c
            invariant
                i <= j <= len == v@.len(),
                forall|m: int| i <= m < j ==> v@[m] != c,
            decreases len - j,
        {
            j += 1;
        }
        proof {
            lemma_find_char_from(v@, c, i as int, j as int);
        }
        let ghost o0 = out.deep_view();
        if j == len {
            let piece = string_from(&v, i, len);
            assert(piece@ =~= v@.skip(i as int));
            out.push(piece);
            assert(out.deep_view() =~= o0 + split_char(v@.skip(i as int), c));
            return out;
        }
        let piece = string_from(&v, i, j);
        assert(piece@ =~= v@.skip(i as int).take(j - i));
        out.push(piece);
        assert(v@.skip(i as int).skip(j - i + 1) =~= v@.skip(j + 1));
        assert(out.deep_view() + split_char(v@.skip(j + 1), c) =~= o0 + split_char(
            v@.skip(i as int),
            c,
        ));
        i = j + 1;
    }
}

// ───────────────────────── replacing ─────────────────────────

pub proof fn lemma_find_sub_facts(s: Seq<char>, p: Seq<char>)
    ensures
        match find_sub(s, p) {
            Some(i) => first_at(s, p, i),
            None => forall|i: int| !first_at(s, p, i),
        },
{
    if exists|i: int| first_at(s, p, i) {
        let i = choose|i: int| first_at(s, p, i);
        assert(first_at(s, p, i));
    }
}

/// `s.replace(pat, rep)` for a non-empty pattern: every occurrence, left to
/// right and not overlapping, replaced.
pub open spec fn replace_all(s: Seq<char>, pat: Seq<char>, rep: Seq<char>) -> Seq<char>
    decreases s.len(),
{
    if pat.len() == 0 {
        s
    } else {
        match find_sub(s, pat) {
            Some(i) => {
                proof {
                    lemma_find_sub_facts(s, pat);
                }
                s.take(i) + rep + replace_all(s.skip(i + pat.len()), pat, rep)
            },
            None => s,
        }
    }
}

/// `s.replace(pat, rep)`.
pub fn replace_str(s: &str, pat: &str, rep: &str) -> (r: String)
    requires
        pat@.len() > 0,
    ensures
        r@ == replace_all(s@, pat@, rep@),
    decreases s@.len(),
{
    match find_str(s, pat) {
        Some(i) => {
            proof {
                lemma_find_sub_facts(s@, pat@);
            }
            let v = chars_of(s);
            let n = v.len();
            let plen = chars_of(pat).len();
            let head = string_from(&v, 0, i);
            let tail = string_from(&v, i + plen, n);
            assert(head@ =~= s@.take(i as int));
            assert(tail@ =~= s@.skip(i + pat@.len()));
            let rest = replace_str(tail.as_str(), pat, rep);
            let mut out = head;
            push_str(&mut out, rep);
            push_str(&mut out, rest.as_str());
            out
        },
        None => owned(s),
    }
}

// ───────────────────────── ordering strings ─────────────────────────

/// Code-point (equivalently, UTF-8 byte) order: `a` comes strictly before `b`.
pub open spec fn str_lt(a: Seq<char>, b: Seq<char>) -> bool
    decreases a.len(),
{
    if a.len() == 0 {
        b.len() > 0
    } else if b.len() == 0 {
        false
    } else if a[0] != b[0] {
        a[0] < b[0]
    } else {
        str_lt(a.drop_first(), b.drop_first())
    }
}

pub open spec fn str_le(a: Seq<char>, b: Seq<char>) -> bool {
    str_lt(a, b) || a == b
}

pub proof fn lemma_str_lt_total(a: Seq<char>, b: Seq<char>)
    ensures
        str_lt(a, b) || a == b || str_lt(b, a),
    decreases a.len(),
{
    if a.len() > 0 && b.len() > 0 && a[0] == b[0] {
        lemma_str_lt_total(a.drop_first(), b.drop_first());
        if a.drop_first() == b.drop_first() {
            assert(a.len() == a.drop_first().len() + 1);
            assert(b.len() == b.drop_first().len() + 1);
            assert(a =~= b) by {
                assert forall|i: int| 0 <= i < a.len() implies a[i] == b[i] by {
                    if i > 0 {
                        assert(a[i] == a.drop_first()[i - 1]);
                        assert(b[i] == b.drop_first()[i - 1]);
                    }
                }
            }
        }
    } else if a.len() == 0 && b.len() == 0 {
        assert(a =~= b);
    }
}

pub proof fn lemma_str_lt_irreflexive(a: Seq<char>)
    ensures
        !str_lt(a, a),
    decreases a.len(),
{
    if a.len() > 0 {
        lemma_str_lt_irreflexive(a.drop_first());
    }
}

pub proof fn lemma_str_lt_trans(a: Seq<char>, b: Seq<char>, c: Seq<char>)
    requires
        str_lt(a, b),
        str_lt(b, c),
    ensures
        str_lt(a, c),
    decreases a.len(),
{
    if a.len() > 0 && b.len() > 0 && c.len() > 0 && a[0] == b[0] && b[0] == c[0] {
        lemma_str_lt_trans(a.drop_first(), b.drop_first(), c.drop_first());
    }
}

/// `a < b` on strings.
pub fn string_lt(a: &String, b: &String) -> (r: bool)
    ensures
        r == str_lt(a@, b@),
{
    let x = chars_of(a.as_str());
    let y = chars_of(b.as_str());
    let mut i: usize = 0;
    assert(x@.skip(0) =~= x@);
    assert(y@.skip(0) =~= y@);
    while i < x.len() && i < y.len() && x[i] == y[i]
        invariant
            i <= x@.len(),
            i <= y@.len(),
            x@ == a@,
            y@ == b@,
            str_lt(x@.skip(i as int), y@.skip(i as int)) == str_lt(a@, b@),
        decreases x@.len() - i,
    {
        assert(x@.skip(i as int).drop_first() =~= x@.skip(i + 1));
        assert(y@.skip(i as int).drop_first() =~= y@.skip(i + 1));
        i += 1;
    }
    if i == x.len() {
        i < y.len()
    } else if i == y.len() {
        false
    } else {
        x[i] < y[i]
    }
}

/// Every string comes no later than the next.
pub open spec fn sorted_strs(v: Seq<Seq<char>>) -> bool {
    forall|i: int, j: int| 0 <= i < j < v.len() ==> str_le(#[trigger] v[i], #[trigger] v[j])
}

pub proof fn lemma_str_le_trans(a: Seq<char>, b: Seq<char>, c: Seq<char>)
    requires
        str_le(a, b),
        str_le(b, c),
    ensures
        str_le(a, c),
{
    if str_lt(a, b) && str_lt(b, c) {
        lemma_str_lt_trans(a, b, c);
    }
}

proof fn lemma_insert_sorted(s: Seq<Seq<char>>, k: int, x: Seq<char>)
    requires
        sorted_strs(s),
        0 <= k <= s.len(),
        forall|a: int| 0 <= a < k ==> str_le(#[trigger] s[a], x),
        k < s.len() ==> str_lt(x, s[k]),
    ensures
        sorted_strs(s.insert(k, x)),
{
    let t = s.insert(k, x);
    assert forall|i: int, j: int| 0 <= i < j < t.len() implies str_le(#[trigger] t[i], #[trigger] t[j]) by {
        if j < k {
            assert(t[i] == s[i] && t[j] == s[j]);
        } else if j == k {
            assert(t[i] == s[i] && t[j] == x);
        } else if i < k {
            assert(t[i] == s[i] && t[j] == s[j - 1]);
            assert(str_le(s[i], x));
            assert(str_le(s[k], s[j - 1]));
            lemma_str_le_trans(x, s[k], s[j - 1]);
            lemma_str_le_trans(s[i], x, s[j - 1]);
        } else if i == k {
            assert(t[i] == x && t[j] == s[j - 1]);
            if j - 1 > k {
                assert(str_le(s[k], s[j - 1]));
            }
            lemma_str_le_trans(x, s[k], s[j - 1]);
        } else {
            assert(t[i] == s[i - 1] && t[j] == s[j - 1]);
        }
    }
}

/// The strings sorted in code-point order (`sort` on `String`s).
pub fn sort_strings(v: &Vec<String>) -> (r: Vec<String>)
    ensures
        sorted_strs(r.deep_view()),
        r.deep_view().to_multiset() == v.deep_view().to_multiset(),
{
    broadcast use vstd::seq_lib::group_to_multiset_ensures;

    let mut out: Vec<String> = Vec::new();
    let mut i: usize = 0;
    assert(v.deep_view().take(0) =~= Seq::<Seq<char>>::empty());
    assert(out.deep_view() =~= Seq::<Seq<char>>::empty());
    while i < v.len()
        invariant
            i <= v@.len(),
            sorted_strs(out.deep_view()),
            out.deep_view().to_multiset() == v.deep_view().take(i as int).to_multiset(),
        decreases v@.len() - i,
    {
        let x = v[i].clone();
        assert(v.deep_view()[i as int] == x@);
        let mut k: usize = 0;
        while k < out.len() && !string_lt(&x, &out[k])
            invariant
                k <= out@.len(),
                forall|a: int| 0 <= a < k ==> str_le(#[trigger] out.deep_view()[a], x@),
            decreases out@.len() - k,
        {
            assert(out.deep_view()[k as int] == out@[k as int]@);
            proof {
                lemma_str_lt_total(x@, out@[k as int]@);
            }
            k += 1;
        }
        proof {
            if k < out@.len() {
                assert(out.deep_view()[k as int] == out@[k as int]@);
            }
            lemma_insert_sorted(out.deep_view(), k as int, x@);
        }
        let ghost o0 = out.deep_view();
        out.insert(k, x);
        assert(out.deep_view() =~= o0.insert(k as int, v.deep_view()[i as int]));
        proof {
            vstd::seq_lib::to_multiset_insert(o0, k as int, v.deep_view()[i as int]);
            assert(v.deep_view().take(i + 1) =~= v.deep_view().take(i as int).push(v.deep_view()[i as int]));
            vstd::seq_lib::to_multiset_build(v.deep_view().take(i as int), v.deep_view()[i as int]);
        }
        i += 1;
    }
    assert(v.deep_view().take(v@.len() as int) =~= v.deep_view());
    out
}


/// Two sorted lists of the same strings are the same list.
pub proof fn lemma_sorted_unique(a: Seq<Seq<char>>, b: Seq<Seq<char>>)
    requires
        sorted_strs(a),
        sorted_strs(b),
        a.to_multiset() == b.to_multiset(),
    ensures
        a == b,
    decreases a.len(),
{
    broadcast use vstd::seq_lib::group_to_multiset_ensures;
    broadcast use vstd::multiset::group_multiset_axioms;

    vstd::seq_lib::to_multiset_len(a);
    vstd::seq_lib::to_multiset_len(b);
    assert(a.len() == b.len());
    if a.len() == 0 {
        assert(a =~= b);
    } else {
        let n = a.len() - 1;
        let x = a[n];
        let y = b[n];
        assert(a.to_multiset().count(x) > 0);
        assert(b.contains(x));
        let j = choose|j: int| 0 <= j < b.len() && b[j] == x;
        if j < n {
            assert(str_le(b[j], b[n]));
        }
        assert(b.to_multiset().count(y) > 0);
        assert(a.contains(y));
        let i = choose|i: int| 0 <= i < a.len() && a[i] == y;
        if i < n {
            assert(str_le(a[i], a[n]));
        }
        if x != y {
            lemma_str_lt_trans(x, y, x);
            lemma_str_lt_irreflexive(x);
        }
        vstd::seq_lib::to_multiset_build(a.drop_last(), x);
        vstd::seq_lib::to_multiset_build(b.drop_last(), x);
        assert(a.drop_last().push(x) =~= a);
        assert(b.drop_last().push(x) =~= b);
        assert(a.drop_last().to_multiset() =~= b.drop_last().to_multiset()) by {
            let ma = a.drop_last().to_multiset();
            let mb = b.drop_last().to_multiset();
            assert(ma.insert(x) == a.to_multiset());
            assert(mb.insert(x) == b.to_multiset());
            assert forall|z: Seq<char>| ma.count(z) == mb.count(z) by {
                assert(ma.insert(x).count(z) == mb.insert(x).count(z));
            }
        }
        assert(sorted_strs(a.drop_last()));
        assert(sorted_strs(b.drop_last()));
        lemma_sorted_unique(a.drop_last(), b.drop_last());
        assert(a =~= b);
    }
}

// ───────────────────────── trimming a given character ─────────────────────────

/// `s.trim_end_matches(c)`: every trailing `c` removed.
pub open spec fn strip_trailing(s: Seq<char>, c: char) -> Seq<char>
    decreases s.len(),
{
    if s.len() > 0 && s.last() == c {
        strip_trailing(s.drop_last(), c)
    } else {
        s
    }
}

/// `s.trim_start_matches(c)`: every leading `c` removed.
pub open spec fn strip_leading(s: Seq<char>, c: char) -> Seq<char>
    decreases s.len(),
{
    if s.len() > 0 && s[0] == c {
        strip_leading(s.drop_first(), c)
    } else {
        s
    }
}

/// `s.trim_end_matches(c)`, as an owned string.
pub fn strip_trailing_str(s: &str, c: char) -> (r: String)
    ensures
        r@ == strip_trailing(s@, c),
{
    let v = chars_of(s);
    let mut j: usize = v.len();
    assert(v@.take(j as int) =~= v@);
    while j > 0 && v[j - 1] == c
        invariant
            j <= v@.len(),
            v@ == s@,
            strip_trailing(v@.take(j as int), c) == strip_trailing(s@, c),
        decreases j,
    {
        assert(v@.take(j as int).drop_last() =~= v@.take(j - 1));
        j -= 1;
    }
    assert(v@.subrange(0, j as int) =~= v@.take(j as int));
    string_from(&v, 0, j)
}

/// `s.trim_start_matches(c)`, as an owned string.
pub fn strip_leading_str(s: &str, c: char) -> (r: String)
    ensures
        r@ == strip_leading(s@, c),
{
    let v = chars_of(s);
    let n = v.len();
    let mut i: usize = 0;
    assert(v@.skip(0) =~= v@);
    while i < n && v[i] == c
        invariant
            i <= n == v@.len(),
            v@ == s@,
            strip_leading(v@.skip(i as int), c) == strip_leading(s@, c),
        decreases n - i,
    {
        assert(v@.skip(i as int).drop_first() =~= v@.skip(i + 1));
        i += 1;
    }
    assert(v@.subrange(i as int, n as int) =~= v@.skip(i as int));
    string_from(&v, i, n)
}


// ───────────────────────── paths ─────────────────────────

/// The last of `pieces` that is neither empty nor `.`, unless that one is
/// `..`.
pub open spec fn last_named(pieces: Seq<Seq<char>>) -> Option<Seq<char>>
    decreases pieces.len(),
{
    if pieces.len() == 0 {
        None
    } else {
        let l = pieces.last();
        if l.len() == 0 || l == "."@ {
            last_named(pieces.drop_last())
        } else if l == ".."@ {
            None
        } else {
            Some(l)
        }
    }
}

/// What `std::path::Path::file_name` gives for a Unix path: its components
/// are the `/`-separated pieces with empty and `.` pieces left out; the
/// file name is the last one, none when there is none or it is `..`.
pub open spec fn path_file_name(p: Seq<char>) -> Option<Seq<char>> {
    last_named(split_char(p, '/'))
}

/// The file name of a Unix path, as `Path::new(p).file_name()` gives it.
pub fn file_name_of(p: &str) -> (r: Option<String>)
    ensures
        match r {
            Some(n) => path_file_name(p@) == Some(n@),
            None => path_file_name(p@) is None,
        },
{
    proof {
        reveal_strlit(".");
        reveal_strlit("..");
    }
    let pieces = split_str(p, '/');
    let ghost pv = pieces.deep_view();
    let mut j = pieces.len();
    assert(pv.take(j as int) =~= pv);
    while j > 0 && (pieces[j - 1].as_str().is_empty() || str_eq(pieces[j - 1].as_str(), "."))
        invariant
            j <= pieces@.len(),
            pv == pieces.deep_view(),
            last_named(pv.take(j as int)) == last_named(pv),
        decreases j,
    {
        assert(pv[j - 1] == pieces@[j - 1]@);
        assert(pv.take(j as int).drop_last() =~= pv.take(j - 1));
        assert(pv.take(j as int).last() == pv[j - 1]);
        j -= 1;
    }
    if j == 0 {
        return None;
    }
    assert(pv[j - 1] == pieces@[j - 1]@);
    assert(pv.take(j as int).last() == pv[j - 1]);
    if str_eq(pieces[j - 1].as_str(), "..") {
        None
    } else {
        Some(pieces[j - 1].clone())
    }
}

/// What `String::from_utf8_lossy` makes of `bytes`: the text they encode,
/// with U+FFFD in place of each invalid sequence.
pub uninterp spec fn utf8_lossy(bytes: Seq<u8>) -> Seq<char>;

/// `String::from_utf8_lossy(bytes)`, as an owned string. The contract only
/// names the answer, a function of the bytes alone.
#[verifier::external_body]
pub fn utf8_lossy_of(bytes: &Vec<u8>) -> (r: String)
    ensures
        r@ == utf8_lossy(bytes@),
{
    String::from_utf8_lossy(bytes.as_slice()).into_owned()
}

// ───────────────────────── words and lines, facts ─────────────────────────

/// A nonempty run of non-whitespace characters.
pub open spec fn is_word(w: Seq<char>) -> bool {
    w.len() > 0 && forall|k: int| 0 <= k < w.len() ==> !is_ws(#[trigger] w[k])
}

pub proof fn lemma_words_trim_start(s: Seq<char>)
    ensures
        words(trim_start(s)) == words(s),
    decreases s.len(),
{
    if s.len() > 0 && is_ws(s[0]) {
        lemma_words_trim_start(s.drop_first());
    }
}

/// Whitespace at the end adds no word.
pub proof fn lemma_words_push_ws(s: Seq<char>, c: char)
    requires
        is_ws(c),
    ensures
        words(s.push(c)) == words(s),
    decreases s.len(),
{
    let t = s.push(c);
    if s.len() == 0 {
        assert(t[0] == c);
        assert(t.drop_first() =~= Seq::<char>::empty());
        assert(words(t) == words(t.drop_first()));
    } else if is_ws(s[0]) {
        assert(t[0] == s[0]);
        assert(t.drop_first() =~= s.drop_first().push(c));
        lemma_words_push_ws(s.drop_first(), c);
        assert(words(t) == words(t.drop_first()));
    } else {
        assert(t[0] == s[0]);
        lemma_word_len(s);
        let n = word_len(s);
        assert forall|k: int| 0 <= k < n implies !is_ws(#[trigger] t[k]) by {
            assert(t[k] == s[k]);
        }
        if n < s.len() {
            assert(t[n as int] == s[n as int]);
        }
        lemma_word_len_exact(t, n as int);
        assert(t.take(n as int) =~= s.take(n as int));
        assert(t.skip(n as int) =~= s.skip(n as int).push(c));
        lemma_words_push_ws(s.skip(n as int), c);
        assert(words(t) == seq![t.take(word_len(t) as int)] + words(t.skip(word_len(t) as int)));
        assert(words(s) == seq![s.take(n as int)] + words(s.skip(n as int)));
    }
}

pub proof fn lemma_words_trim_end(s: Seq<char>)
    ensures
        words(trim_end(s)) == words(s),
    decreases s.len(),
{
    if s.len() > 0 && is_ws(s.last()) {
        lemma_words_trim_end(s.drop_last());
        assert(s =~= s.drop_last().push(s.last()));
        lemma_words_push_ws(s.drop_last(), s.last());
    }
}

pub proof fn lemma_words_trim(s: Seq<char>)
    ensures
        words(trim(s)) == words(s),
{
    lemma_words_trim_end(trim_start(s));
    lemma_words_trim_start(s);
}

/// Every piece `words` gives is a word.
pub proof fn lemma_words_are_words(s: Seq<char>)
    ensures
        forall|k: int| 0 <= k < words(s).len() ==> is_word(#[trigger] words(s)[k]),
    decreases s.len(),
{
    if s.len() == 0 {
    } else if is_ws(s[0]) {
        lemma_words_are_words(s.drop_first());
        assert(words(s) == words(s.drop_first()));
    } else {
        lemma_word_len(s);
        let n = word_len(s);
        let w = s.take(n as int);
        assert(words(s) == seq![w] + words(s.skip(n as int)));
        lemma_words_are_words(s.skip(n as int));
        assert(is_word(w)) by {
            assert forall|k: int| 0 <= k < w.len() implies !is_ws(#[trigger] w[k]) by {
                assert(w[k] == s[k]);
            }
        }
        let ws = words(s);
        assert forall|k: int| 0 <= k < ws.len() implies is_word(#[trigger] ws[k]) by {
            if k > 0 {
                assert(ws[k] == words(s.skip(n as int))[k - 1]);
            } else {
                assert(ws[0] == w);
            }
        }
    }
}

/// The words of a word, a space, and more text.
pub proof fn lemma_words_cons(a: Seq<char>, b: Seq<char>)
    requires
        is_word(a),
    ensures
        words(a + " "@ + b) == seq![a] + words(b),
{
    reveal_strlit(" ");
    let s = a + " "@ + b;
    assert forall|k: int| 0 <= k < a.len() implies !is_ws(#[trigger] s[k]) by {
        assert(s[k] == a[k]);
    }
    assert(s[a.len() as int] == ' ');
    lemma_word_len_exact(s, a.len() as int);
    assert(s.take(a.len() as int) =~= a);
    let r = s.skip(a.len() as int);
    assert(r[0] == ' ');
    assert(r.drop_first() =~= b);
    assert(s[0] == a[0]);
    assert(words(r) == words(r.drop_first()));
    assert(words(s) == seq![s.take(word_len(s) as int)] + words(s.skip(word_len(s) as int)));
}

/// A word's words: itself.
pub proof fn lemma_words_word(w: Seq<char>)
    requires
        is_word(w),
    ensures
        words(w) == seq![w],
{
    lemma_word_len_exact(w, w.len() as int);
    assert(w.take(w.len() as int) =~= w);
    assert(w.skip(w.len() as int) =~= Seq::<char>::empty());
    assert(!is_ws(w[0]));
    assert(words(w) == seq![w.take(word_len(w) as int)] + words(w.skip(word_len(w) as int)));
    assert(words(Seq::<char>::empty()) == Seq::<Seq<char>>::empty());
    assert(seq![w] + Seq::<Seq<char>>::empty() =~= seq![w]);
}

/// Joining from the front.
pub proof fn lemma_join_front(parts: Seq<Seq<char>>, sep: Seq<char>)
    requires
        parts.len() >= 2,
    ensures
        join(parts, sep) == parts[0] + sep + join(parts.drop_first(), sep),
    decreases parts.len(),
{
    if parts.len() > 2 {
        lemma_join_front(parts.drop_last(), sep);
        assert(parts.drop_last().drop_first() =~= parts.drop_first().drop_last());
        assert(parts.drop_first().last() == parts.last());
        assert(parts.drop_last()[0] == parts[0]);
        let df = parts.drop_first();
        assert(df.len() >= 2);
        assert(join(df, sep) == join(df.drop_last(), sep) + sep + df.last());
        assert(join(parts, sep) == join(parts.drop_last(), sep) + sep + parts.last());
        assert(join(parts, sep) =~= parts[0] + sep + join(parts.drop_first(), sep));
    } else {
        assert(parts.drop_last() =~= seq![parts[0]]);
        assert(parts.drop_first() =~= seq![parts[1]]);
        assert(join(parts.drop_last(), sep) == parts[0]);
        assert(join(parts.drop_first(), sep) == parts[1]);
        assert(join(parts, sep) == join(parts.drop_last(), sep) + sep + parts.last());
    }
}

/// Words joined by spaces split back into the same words.
pub proof fn lemma_words_join(items: Seq<Seq<char>>)
    requires
        forall|k: int| 0 <= k < items.len() ==> is_word(#[trigger] items[k]),
    ensures
        words(join(items, " "@)) == items,
    decreases items.len(),
{
    if items.len() == 0 {
        assert(words(Seq::<char>::empty()) =~= Seq::<Seq<char>>::empty());
    } else if items.len() == 1 {
        lemma_words_word(items[0]);
        assert(seq![items[0]] =~= items);
    } else {
        lemma_join_front(items, " "@);
        let rest = items.drop_first();
        assert forall|k: int| 0 <= k < rest.len() implies is_word(#[trigger] rest[k]) by {
            assert(rest[k] == items[k + 1]);
        }
        lemma_words_join(rest);
        lemma_words_cons(items[0], join(rest, " "@));
        assert(seq![items[0]] + rest =~= items);
    }
}

/// `text_of` from the front.
pub proof fn lemma_text_of_front(ls: Seq<Seq<char>>)
    requires
        ls.len() > 0,
    ensures
        text_of(ls) == ls[0] + "\n"@ + text_of(ls.drop_first()),
    decreases ls.len(),
{
    if ls.len() == 1 {
        assert(ls.drop_last() =~= Seq::<Seq<char>>::empty());
        assert(ls.drop_first() =~= Seq::<Seq<char>>::empty());
        assert(text_of(ls.drop_first()) == Seq::<char>::empty());
        assert(text_of(ls.drop_last()) == Seq::<char>::empty());
        assert(text_of(ls) =~= ls[0] + "\n"@);
    } else {
        lemma_text_of_front(ls.drop_last());
        assert(ls.drop_last().drop_first() =~= ls.drop_first().drop_last());
        assert(ls.drop_first().last() == ls.last());
        assert(ls.drop_last()[0] == ls[0]);
        assert(text_of(ls.drop_first()) == text_of(ls.drop_first().drop_last()) + ls.last() + "\n"@);
        assert(text_of(ls) == text_of(ls.drop_last()) + ls.last() + "\n"@);
        assert(text_of(ls) =~= ls[0] + "\n"@ + text_of(ls.drop_first()));
    }
}

/// Lines written one after another, each ended by a newline, read back as
/// those lines (a `\r` at the end of one is dropped).
pub proof fn lemma_lines_text_of(ls: Seq<Seq<char>>)
    requires
        forall|k: int| 0 <= k < ls.len() ==> !(#[trigger] ls[k]).contains('\n'),
    ensures
        lines(text_of(ls)) == ls.map_values(|l: Seq<char>| strip_cr(l)),
    decreases ls.len(),
{
    reveal_strlit("\n");
    if ls.len() == 0 {
        assert(text_of(ls) == Seq::<char>::empty());
        assert(ls.map_values(|l: Seq<char>| strip_cr(l)) =~= Seq::<Seq<char>>::empty());
    } else {
        lemma_text_of_front(ls);
        let rest = ls.drop_first();
        assert forall|k: int| 0 <= k < rest.len() implies !(#[trigger] rest[k]).contains('\n') by {
            assert(rest[k] == ls[k + 1]);
        }
        lemma_lines_text_of(rest);
        let s = text_of(ls);
        let n = ls[0].len() as int;
        assert forall|k: int| 0 <= k < n implies s[k] != '\n' by {
            assert(s[k] == ls[0][k]);
        }
        assert(s[n] == '\n');
        lemma_find_char(s, '\n', n);
        assert(s.take(n) =~= ls[0]);
        assert(s.skip(n + 1) =~= text_of(rest));
        assert(ls.map_values(|l: Seq<char>| strip_cr(l)) =~= seq![strip_cr(ls[0])] + rest.map_values(
            |l: Seq<char>| strip_cr(l),
        ));
    }
}

/// No line holds a newline.
pub proof fn lemma_lines_no_newline(s: Seq<char>)
    ensures
        forall|k: int| 0 <= k < lines(s).len() ==> !(#[trigger] lines(s)[k]).contains('\n'),
    decreases s.len(),
{
    if s.len() > 0 {
        lemma_find_char_facts(s, '\n');
        match find_char(s, '\n') {
            Some(i) => {
                lemma_lines_no_newline(s.skip(i + 1));
                let first = strip_cr(s.take(i));
                assert(!first.contains('\n')) by {
                    if first.contains('\n') {
                        let k = choose|k: int| 0 <= k < first.len() && first[k] == '\n';
                        assert(s.take(i)[k] == s[k]);
                    }
                }
                assert forall|k: int| 0 <= k < lines(s).len() implies !(#[trigger] lines(s)[k]).contains('\n') by {
                    if k > 0 {
                        assert(lines(s)[k] == lines(s.skip(i + 1))[k - 1]);
                    }
                }
            },
            None => {},
        }
    }
}

/// Lines joined by newlines, with an empty last piece: each line ended
/// by a newline.
pub proof fn lemma_join_newlines(ls: Seq<Seq<char>>)
    ensures
        join(ls.push(seq![]), "\n"@) == text_of(ls),
    decreases ls.len(),
{
    lemma_join_push(ls, "\n"@, seq![]);
    if ls.len() == 0 {
        assert(text_of(ls) == Seq::<char>::empty());
    } else {
        lemma_join_newline_end(ls);
        assert(join(ls, "\n"@) + "\n"@ + Seq::<char>::empty() =~= join(ls, "\n"@) + "\n"@);
    }
}

pub proof fn lemma_join_newline_end(ls: Seq<Seq<char>>)
    requires
        ls.len() > 0,
    ensures
        join(ls, "\n"@) + "\n"@ == text_of(ls),
    decreases ls.len(),
{
    if ls.len() == 1 {
        assert(ls.drop_last() =~= Seq::<Seq<char>>::empty());
        assert(text_of(ls.drop_last()) == Seq::<char>::empty());
        assert(text_of(ls) =~= ls[0] + "\n"@);
    } else {
        lemma_join_newline_end(ls.drop_last());
        assert(join(ls, "\n"@) + "\n"@ =~= (join(ls.drop_last(), "\n"@) + "\n"@) + ls.last() + "\n"@);
    }
}

/// `trim_end` keeps a prefix that reaches past every non-whitespace character.
pub proof fn lemma_trim_end_prefix(s: Seq<char>)
    ensures
        trim_end(s).len() <= s.len(),
        trim_end(s) == s.take(trim_end(s).len() as int),
        forall|k: int| 0 <= k < s.len() && !is_ws(#[trigger] s[k]) ==> k < trim_end(s).len(),
    decreases s.len(),
{
    if s.len() > 0 && is_ws(s.last()) {
        let d = s.drop_last();
        lemma_trim_end_prefix(d);
        assert(d.take(trim_end(d).len() as int) =~= s.take(trim_end(d).len() as int));
        assert forall|k: int| 0 <= k < s.len() && !is_ws(#[trigger] s[k]) implies k < trim_end(s).len() by {
            if k < d.len() {
                assert(d[k] == s[k]);
            }
        }
    } else {
        assert(s.take(s.len() as int) =~= s);
    }
}

/// A word is its own trim.
pub proof fn lemma_trim_word(w: Seq<char>)
    requires
        is_word(w),
    ensures
        trim(w) == w,
{
    lemma_trim_start_skip(w, 0);
    assert(w.skip(0) =~= w);
    lemma_trim_end_take(w, w.len() as int);
    assert(w.take(w.len() as int) =~= w);
}

// ───────────────────────── splitting and trimming, facts ─────────────────────────

/// No piece of a split holds the separator, and there is at least one.
pub proof fn lemma_split_pieces(s: Seq<char>, c: char)
    ensures
        split_char(s, c).len() >= 1,
        forall|k: int| 0 <= k < split_char(s, c).len() ==> !(#[trigger] split_char(s, c)[k]).contains(c),
    decreases s.len(),
{
    lemma_find_char_facts(s, c);
    match find_char(s, c) {
        Some(i) => {
            let rest = s.skip(i + 1);
            lemma_split_pieces(rest, c);
            let sp = split_char(s, c);
            assert(sp == seq![s.take(i)] + split_char(rest, c));
            assert forall|k: int| 0 <= k < sp.len() implies !(#[trigger] sp[k]).contains(c) by {
                if k == 0 {
                    assert(sp[0] == s.take(i));
                    if s.take(i).contains(c) {
                        let m = choose|m: int| 0 <= m < s.take(i).len() && s.take(i)[m] == c;
                        assert(s[m] == c);
                    }
                } else {
                    assert(sp[k] == split_char(rest, c)[k - 1]);
                }
            }
        },
        None => {
            let sp = split_char(s, c);
            assert(sp == seq![s]);
            assert(!s.contains(c)) by {
                if s.contains(c) {
                    let m = choose|m: int| 0 <= m < s.len() && s[m] == c;
                }
            }
        },
    }
}

/// Pieces without newlines, joined by newlines, split back into the same
/// pieces.
pub proof fn lemma_split_join_newlines(ls: Seq<Seq<char>>)
    requires
        ls.len() >= 1,
        forall|k: int| 0 <= k < ls.len() ==> !(#[trigger] ls[k]).contains('\n'),
    ensures
        split_char(join(ls, "\n"@), '\n') == ls,
    decreases ls.len(),
{
    reveal_strlit("\n");
    let first = ls[0];
    assert forall|k: int| 0 <= k < first.len() implies first[k] != '\n' by {
        if first[k] == '\n' {
            assert(first.contains('\n'));
        }
    }
    if ls.len() == 1 {
        assert(join(ls, "\n"@) == first);
        lemma_find_char(first, '\n', first.len() as int);
        assert(split_char(first, '\n') == seq![first]);
        assert(seq![first] =~= ls);
    } else {
        let rest = ls.drop_first();
        lemma_join_front(ls, "\n"@);
        let j = join(ls, "\n"@);
        let n = first.len() as int;
        assert(j == first + "\n"@ + join(rest, "\n"@));
        assert forall|k: int| 0 <= k < n implies j[k] != '\n' by {
            assert(j[k] == first[k]);
        }
        assert(j[n] == '\n');
        lemma_find_char(j, '\n', n);
        assert(j.take(n) =~= first);
        assert(j.skip(n + 1) =~= join(rest, "\n"@));
        assert forall|k: int| 0 <= k < rest.len() implies !(#[trigger] rest[k]).contains('\n') by {
            assert(rest[k] == ls[k + 1]);
        }
        lemma_split_join_newlines(rest);
        assert(split_char(j, '\n') == seq![first] + split_char(j.skip(n + 1), '\n'));
        assert(seq![first] + rest =~= ls);
    }
}

/// What `trim_end` leaves ends in a non-blank character.
pub proof fn lemma_trim_end_last(w: Seq<char>)
    ensures
        trim_end(w).len() > 0 ==> !is_ws(trim_end(w).last()),
    decreases w.len(),
{
    if w.len() > 0 && is_ws(w.last()) {
        lemma_trim_end_last(w.drop_last());
    }
}

/// Trimming takes no character in.
pub proof fn lemma_trim_lacks(u: Seq<char>, c: char)
    requires
        !u.contains(c),
    ensures
        !trim(u).contains(c),
{
    lemma_trim_start_lacks(u, c);
    lemma_trim_end_lacks(trim_start(u), c);
}

proof fn lemma_trim_start_lacks(u: Seq<char>, c: char)
    requires
        !u.contains(c),
    ensures
        !trim_start(u).contains(c),
    decreases u.len(),
{
    if u.len() > 0 && is_ws(u[0]) {
        let t = u.drop_first();
        assert(!t.contains(c)) by {
            if t.contains(c) {
                let m = choose|m: int| 0 <= m < t.len() && t[m] == c;
                assert(u[m + 1] == c);
            }
        }
        lemma_trim_start_lacks(t, c);
    }
}

proof fn lemma_trim_end_lacks(u: Seq<char>, c: char)
    requires
        !u.contains(c),
    ensures
        !trim_end(u).contains(c),
    decreases u.len(),
{
    if u.len() > 0 && is_ws(u.last()) {
        let t = u.drop_last();
        assert(!t.contains(c)) by {
            if t.contains(c) {
                let m = choose|m: int| 0 <= m < t.len() && t[m] == c;
                assert(u[m] == c);
            }
        }
        lemma_trim_end_lacks(t, c);
    }
}

/// A non-blank character in front of trimmed text keeps it trimmed.
pub proof fn lemma_trim_cons(c: char, v: Seq<char>)
    requires
        !is_ws(c),
        trim(v) == v,
    ensures
        trim(seq![c] + v) == seq![c] + v,
{
    let s = seq![c] + v;
    assert(s[0] == c);
    assert(trim_start(s) == s);
    if v.len() > 0 {
        lemma_trim_end_last(trim_start(v));
        assert(s.last() == v.last());
    }
    assert(trim_end(s) == s);
}

/// A space in front of trimmed text is trimmed away.
pub proof fn lemma_trim_space_front(v: Seq<char>)
    requires
        trim(v) == v,
    ensures
        trim(" "@ + v) == v,
{
    reveal_strlit(" ");
    let s = " "@ + v;
    assert(s[0] == ' ');
    assert(s.drop_first() =~= v);
    assert(trim_start(s) == trim_start(v));
}

/// An occurrence of `p` means a first one.
proof fn lemma_some_first(s: Seq<char>, p: Seq<char>, k: int)
    requires
        occurs_at(s, p, k),
    ensures
        exists|i: int| first_at(s, p, i),
    decreases k,
{
    if !first_at(s, p, k) {
        let j = choose|j: int| 0 <= j < k && #[trigger] occurs_at(s, p, j);
        lemma_some_first(s, p, j);
    }
}

/// Replacing every `R` by nothing leaves no `R` and takes no character in.
pub proof fn lemma_remove_r(v: Seq<char>, c: char)
    ensures
        !replace_all(v, "R"@, ""@).contains('R'),
        !v.contains(c) ==> !replace_all(v, "R"@, ""@).contains(c),
    decreases v.len(),
{
    reveal_strlit("R");
    reveal_strlit("");
    lemma_find_sub_facts(v, "R"@);
    let r = replace_all(v, "R"@, ""@);
    match find_sub(v, "R"@) {
        Some(i) => {
            let rest = v.skip(i + 1);
            lemma_remove_r(rest, c);
            let rr = replace_all(rest, "R"@, ""@);
            assert(r == v.take(i) + ""@ + rr);
            assert(r =~= v.take(i) + rr);
            assert forall|m: int| 0 <= m < r.len() implies r[m] != 'R' && (!v.contains(c) ==> r[m] != c) by {
                if m < i {
                    assert(r[m] == v[m]);
                    if v[m] == 'R' {
                        assert(v.subrange(m, m + 1) =~= "R"@);
                        assert(occurs_at(v, "R"@, m));
                    }
                    if !v.contains(c) && v[m] == c {
                        assert(v.contains(c));
                    }
                } else {
                    assert(r[m] == rr[m - i]);
                    if rr[m - i] == 'R' {
                        assert(rr.contains('R'));
                    }
                    if !v.contains(c) {
                        assert(!rest.contains(c)) by {
                            if rest.contains(c) {
                                let q = choose|q: int| 0 <= q < rest.len() && rest[q] == c;
                                assert(v[q + i + 1] == c);
                            }
                        }
                        if rr[m - i] == c {
                            assert(rr.contains(c));
                        }
                    }
                }
            }
        },
        None => {
            assert(r == v);
            assert forall|m: int| 0 <= m < v.len() implies v[m] != 'R' by {
                if v[m] == 'R' {
                    assert(v.subrange(m, m + 1) =~= "R"@);
                    lemma_some_first(v, "R"@, m);
                }
            }
        },
    }
}

/// Text without `R` is left alone when its `R`s are removed.
pub proof fn lemma_remove_r_none(v: Seq<char>)
    requires
        !v.contains('R'),
    ensures
        replace_all(v, "R"@, ""@) == v,
{
    reveal_strlit("R");
    lemma_find_sub_facts(v, "R"@);
    match find_sub(v, "R"@) {
        Some(i) => {
            assert(v.subrange(i, i + 1) == "R"@);
            assert(v[i] == v.subrange(i, i + 1)[0]);
            assert(v.contains('R'));
        },
        None => {},
    }
}

/// A space separates: the words of `a`, a space and `b` are those of `a`
/// then those of `b`.
pub proof fn lemma_words_concat(a: Seq<char>, b: Seq<char>)
    ensures
        words(a + " "@ + b) == words(a) + words(b),
    decreases a.len(),
{
    reveal_strlit(" ");
    let s = a + " "@ + b;
    if a.len() == 0 {
        assert(s[0] == ' ');
        assert(s.drop_first() =~= b);
        assert(words(a) =~= Seq::<Seq<char>>::empty());
        assert(words(s) == words(s.drop_first()));
        assert(words(a) + words(b) =~= words(b));
    } else if is_ws(a[0]) {
        assert(s[0] == a[0]);
        assert(s.drop_first() =~= a.drop_first() + " "@ + b);
        lemma_words_concat(a.drop_first(), b);
        assert(words(s) == words(s.drop_first()));
        assert(words(a) == words(a.drop_first()));
    } else {
        lemma_word_len(a);
        let n = word_len(a) as int;
        assert forall|k: int| 0 <= k < n implies !is_ws(#[trigger] s[k]) by {
            assert(s[k] == a[k]);
        }
        if n < a.len() {
            assert(s[n] == a[n]);
        } else {
            assert(s[n] == ' ');
        }
        lemma_word_len_exact(s, n);
        assert(s.take(n) =~= a.take(n));
        assert(s.skip(n) =~= a.skip(n) + " "@ + b);
        lemma_words_concat(a.skip(n), b);
        assert(s[0] == a[0]);
        assert(words(s) == seq![s.take(word_len(s) as int)] + words(s.skip(word_len(s) as int)));
        assert(words(a) == seq![a.take(n)] + words(a.skip(n)));
        assert(words(s) =~= words(a) + words(b));
    }
}

/// The words of each part, in order.
pub open spec fn words_of_parts(parts: Seq<Seq<char>>) -> Seq<Seq<char>>
    decreases parts.len(),
{
    if parts.len() == 0 {
        seq![]
    } else {
        words_of_parts(parts.drop_last()) + words(parts.last())
    }
}

/// Parts joined by spaces have the words of the parts, in order.
pub proof fn lemma_words_join_parts(parts: Seq<Seq<char>>)
    ensures
        words(join(parts, " "@)) == words_of_parts(parts),
    decreases parts.len(),
{
    if parts.len() == 0 {
        assert(words(Seq::<char>::empty()) =~= Seq::<Seq<char>>::empty());
    } else if parts.len() == 1 {
        assert(parts.drop_last() =~= Seq::<Seq<char>>::empty());
        assert(words_of_parts(parts.drop_last()) == Seq::<Seq<char>>::empty());
        assert(parts.last() == parts[0]);
        assert(words_of_parts(parts) == words_of_parts(parts.drop_last()) + words(parts.last()));
        assert(words_of_parts(parts) =~= words(parts[0]));
    } else {
        lemma_words_join_parts(parts.drop_last());
        lemma_words_concat(join(parts.drop_last(), " "@), parts.last());
    }
}

/// The words of two runs of parts.
pub proof fn lemma_words_of_parts_add(a: Seq<Seq<char>>, b: Seq<Seq<char>>)
    ensures
        words_of_parts(a + b) == words_of_parts(a) + words_of_parts(b),
    decreases b.len(),
{
    if b.len() == 0 {
        assert(a + b =~= a);
        assert(words_of_parts(a) + words_of_parts(b) =~= words_of_parts(a));
    } else {
        lemma_words_of_parts_add(a, b.drop_last());
        assert((a + b).drop_last() =~= a + b.drop_last());
        assert((a + b).last() == b.last());
        assert(words_of_parts(a) + words_of_parts(b) =~= words_of_parts(a) + words_of_parts(b.drop_last())
            + words(b.last()));
    }
}

/// Trimming the start of text with one more character at its end.
proof fn lemma_trim_start_push(s: Seq<char>, c: char)
    ensures
        trim_start(s.push(c)) == if trim_start(s).len() > 0 {
            trim_start(s).push(c)
        } else {
            trim_start(seq![c])
        },
    decreases s.len(),
{
    if s.len() == 0 {
        assert(s.push(c) =~= seq![c]);
    } else if is_ws(s[0]) {
        assert(s.push(c)[0] == s[0]);
        assert(s.push(c).drop_first() =~= s.drop_first().push(c));
        lemma_trim_start_push(s.drop_first(), c);
    } else {
        assert(s.push(c)[0] == s[0]);
    }
}

/// A `\r` at the end changes nothing once trimmed.
pub proof fn lemma_trim_strip_cr(k: Seq<char>)
    ensures
        trim(strip_cr(k)) == trim(k),
{
    if k.len() > 0 && k.last() == '\r' {
        let s = k.drop_last();
        assert(k =~= s.push('\r'));
        lemma_trim_start_push(s, '\r');
        if trim_start(s).len() > 0 {
            let t = trim_start(s).push('\r');
            assert(t.drop_last() =~= trim_start(s));
            assert(trim_end(t) == trim_end(trim_start(s)));
        } else {
            let one: Seq<char> = seq!['\r'];
            assert(one.drop_first() =~= Seq::<char>::empty());
            assert(trim_start(one) == trim_start(one.drop_first()));
            assert(trim_start(one) =~= Seq::<char>::empty());
        }
    }
}

} // verus!
