//! Kernel state variables.
use vstd::prelude::*;
use crate::error::{ApiError, ApiResult, bad_request, is_bad_request};
use crate::num::{parse_i64, parse_signed64, parse_u32, parse_u64, parse_unsigned, parse_unsigned_str};
use crate::pattern::{regex_is_match, regex_match};
use crate::text::{
    before_char, before_char_str, byte_len, bytes_exceed, contains_char, contains_str,
    contains_sub, ends_with, ends_with_str, join, join_strings, lines, owned, push_str,
    split_lines, starts_with, starts_with_str, str_eq, to_lowercase_str, trim, trim_str,
    unicode_lower, strip_cr, text_of,
};

verus! {

/// One variable.
#[derive(Debug, Clone)]
pub struct SysctlEntry {
    pub name: String,
    pub value: Option<String>,
    pub typ: String,
    pub fmt: String,
    pub description: Option<String>,
    pub writable: bool,
    pub modified: bool,
}

/// A name filter.
#[derive(Debug, Clone)]
pub struct SearchQuery {
    pub q: Option<String>,
}

/// A new value, and whether to keep it across reboots.
#[derive(Debug, Clone)]
pub struct SetBody {
    pub value: String,
    pub persist: Option<bool>,
}


// ───────────────────────── kinds ─────────────────────────

/// The type bits of a kind.
pub const CTLTYPE_MASK: u32 = 0xf;
/// The type of an inner node of the tree.
pub const CTLTYPE_NODE: u32 = 1;
/// The writable flag of a kind.
pub const CTLFLAG_WR: u32 = 0x4000_0000;

/// The name of a `CTLTYPE_*` type.
pub open spec fn type_name_spec(typ: u32) -> Seq<char> {
    if typ == 2 {
        "integer"@
    } else if typ == 3 {
        "string"@
    } else if typ == 4 {
        "s64"@
    } else if typ == 5 {
        "opaque"@
    } else if typ == 6 {
        "unsigned integer"@
    } else if typ == 7 {
        "long integer"@
    } else if typ == 8 {
        "unsigned long"@
    } else if typ == 9 {
        "uint64"@
    } else if typ == 0xa {
        "uint8"@
    } else if typ == 0xb {
        "uint16"@
    } else if typ == 0xc {
        "int8"@
    } else if typ == 0xd {
        "int16"@
    } else if typ == 0xe {
        "int32"@
    } else if typ == 0xf {
        "uint32"@
    } else {
        "unknown"@
    }
}

pub fn ctl_type_name(typ: u32) -> (r: &'static str)
    ensures
        r@ == type_name_spec(typ),
{
    match typ {
        2 => "integer",
        3 => "string",
        4 => "s64",
        5 => "opaque",
        6 => "unsigned integer",
        7 => "long integer",
        8 => "unsigned long",
        9 => "uint64",
        0xa => "uint8",
        0xb => "uint16",
        0xc => "int8",
        0xd => "int16",
        0xe => "int32",
        0xf => "uint32",
        _ => "unknown",
    }
}

/// Whether a kind can be set: writable, and not an inner node.
pub fn check_settable(name: &str, kind: u32) -> (r: ApiResult<u32>)
    ensures
        kind & CTLFLAG_WR == 0 ==> is_bad_request(r, "sysctl '"@ + name@ + "' is read-only"@),
        kind & CTLFLAG_WR != 0 && kind & CTLTYPE_MASK == CTLTYPE_NODE ==> is_bad_request(
            r,
            "sysctl '"@ + name@ + "' is a container node, not settable"@,
        ),
        kind & CTLFLAG_WR != 0 && kind & CTLTYPE_MASK != CTLTYPE_NODE ==> r == Ok::<u32, ApiError>(
            kind & CTLTYPE_MASK,
        ),
{
    if kind & CTLFLAG_WR == 0 {
        let mut m = owned("sysctl '");
        push_str(&mut m, name);
        push_str(&mut m, "' is read-only");
        return Err(ApiError::BadRequest(m));
    }
    let typ = kind & CTLTYPE_MASK;
    if typ == CTLTYPE_NODE {
        let mut m = owned("sysctl '");
        push_str(&mut m, name);
        push_str(&mut m, "' is a container node, not settable");
        return Err(ApiError::BadRequest(m));
    }
    Ok(typ)
}

// ───────────────────────── names and values ─────────────────────────

pub open spec fn sysctl_name_ok(name: Seq<char>) -> bool {
    0 < byte_len(name) <= 128 && regex_match(r"^[a-zA-Z0-9._]+$"@, name) == Some(true)
}

pub fn validate_name(name: &str) -> (r: ApiResult<()>)
    ensures
        r is Ok <==> sysctl_name_ok(name@),
        !(0 < byte_len(name@) <= 128) ==> is_bad_request(r, "invalid sysctl name length"@),
        0 < byte_len(name@) <= 128 && regex_match(r"^[a-zA-Z0-9._]+$"@, name@) == Some(false)
            ==> is_bad_request(r, "sysctl name must match [a-zA-Z0-9._]+"@),
{
    proof {
        crate::text::lemma_byte_len_zero(name@);
    }
    if name.is_empty() || bytes_exceed(name, 128) {
        return bad_request("invalid sysctl name length");
    }
    match regex_is_match(r"^[a-zA-Z0-9._]+$", name) {
        Some(true) => Ok(()),
        Some(false) => bad_request("sysctl name must match [a-zA-Z0-9._]+"),
        None => Err(ApiError::Internal(owned("sysctl name pattern does not compile"))),
    }
}

pub open spec fn value_ok(value: Seq<char>) -> bool {
    !value.contains('\0') && !value.contains('\n') && !value.contains('\r')
}

pub fn validate_value(value: &str) -> (r: ApiResult<()>)
    ensures
        r is Ok <==> value_ok(value@),
        !value_ok(value@) ==> is_bad_request(r, "value must not contain newlines or null bytes"@),
{
    if contains_char(value, '\0') || contains_char(value, '\n') || contains_char(value, '\r') {
        return bad_request("value must not contain newlines or null bytes");
    }
    Ok(())
}

/// A value read for the type of the variable it is for.
#[derive(Debug, Clone, PartialEq, Eq)]
pub enum SysctlValue {
    Text(String),
    I8(i8),
    U8(u8),
    I16(i16),
    U16(u16),
    I32(i32),
    U32(u32),
    I64(i64),
    U64(u64),
}

/// `s.parse::<iN>().ok()` for a signed type with the given bounds.
pub open spec fn parse_signed_in(s: Seq<char>, lo: int, hi: int) -> Option<int> {
    match parse_signed64(s) {
        Some(n) => if lo <= n <= hi {
            Some(n)
        } else {
            None
        },
        None => None,
    }
}

/// What a value string reads as for a type: the typed number, or the error
/// naming what was expected; strings are taken as they are.
pub open spec fn value_for(value: Seq<char>, typ: u32) -> Result<SysctlValue, Seq<char>> {
    if typ == 3 {
        Err(seq![])
    } else if typ == 2 || typ == 0xe {
        match parse_signed_in(value, i32::MIN as int, i32::MAX as int) {
            Some(n) => Ok(SysctlValue::I32(n as i32)),
            None => Err("expected integer, got '"@ + value + "'"@),
        }
    } else if typ == 6 || typ == 0xf {
        match parse_unsigned(value, u32::MAX as nat) {
            Some(n) => Ok(SysctlValue::U32(n as u32)),
            None => Err("expected unsigned integer, got '"@ + value + "'"@),
        }
    } else if typ == 7 || typ == 4 {
        match parse_signed64(value) {
            Some(n) => Ok(SysctlValue::I64(n as i64)),
            None => Err(
                (if typ == 7 {
                    "expected long integer, got '"@
                } else {
                    "expected s64, got '"@
                }) + value + "'"@,
            ),
        }
    } else if typ == 8 || typ == 9 {
        match parse_unsigned(value, u64::MAX as nat) {
            Some(n) => Ok(SysctlValue::U64(n as u64)),
            None => Err(
                (if typ == 8 {
                    "expected unsigned long, got '"@
                } else {
                    "expected u64, got '"@
                }) + value + "'"@,
            ),
        }
    } else if typ == 0xa {
        match parse_unsigned(value, u8::MAX as nat) {
            Some(n) => Ok(SysctlValue::U8(n as u8)),
            None => Err("expected uint8, got '"@ + value + "'"@),
        }
    } else if typ == 0xb {
        match parse_unsigned(value, u16::MAX as nat) {
            Some(n) => Ok(SysctlValue::U16(n as u16)),
            None => Err("expected uint16, got '"@ + value + "'"@),
        }
    } else if typ == 0xc {
        match parse_signed_in(value, i8::MIN as int, i8::MAX as int) {
            Some(n) => Ok(SysctlValue::I8(n as i8)),
            None => Err("expected int8, got '"@ + value + "'"@),
        }
    } else if typ == 0xd {
        match parse_signed_in(value, i16::MIN as int, i16::MAX as int) {
            Some(n) => Ok(SysctlValue::I16(n as i16)),
            None => Err("expected int16, got '"@ + value + "'"@),
        }
    } else {
        Err(seq![])
    }
}

fn quoted_msg(a: &str, v: &str) -> (r: String)
    ensures
        r@ == a@ + v@ + "'"@,
{
    let mut m = owned(a);
    push_str(&mut m, v);
    push_str(&mut m, "'");
    m
}

/// Reads a new value for a variable of type `typ` (the number the kernel
/// is given; its bytes are laid out by the caller). Strings pass as they
/// are; a type that cannot be set is refused.
pub fn parse_sysctl_value(value: &str, typ: u32) -> (r: ApiResult<SysctlValue>)
    ensures
        typ == 3 ==> (r matches Ok(SysctlValue::Text(t)) && t@ == value@),
        typ != 3 ==> match value_for(value@, typ) {
            Ok(v) => r == Ok::<SysctlValue, ApiError>(v),
            Err(m) => if m.len() > 0 {
                is_bad_request(r, m)
            } else {
                (r matches Err(ApiError::BadRequest(e)) && e@ == "cannot set sysctl of type '"@
                    + type_name_spec(typ) + "' ("@ + crate::num::dec(typ as nat) + ")"@)
            },
        },
{
    proof {
        reveal_strlit("'");
        reveal_strlit("expected integer, got '");
        reveal_strlit("expected unsigned integer, got '");
        reveal_strlit("expected long integer, got '");
        reveal_strlit("expected s64, got '");
        reveal_strlit("expected unsigned long, got '");
        reveal_strlit("expected u64, got '");
        reveal_strlit("expected uint8, got '");
        reveal_strlit("expected uint16, got '");
        reveal_strlit("expected int8, got '");
        reveal_strlit("expected int16, got '");
    }
    if typ == 3 {
        return Ok(SysctlValue::Text(owned(value)));
    }
    if typ == 2 || typ == 0xe {
        return match parse_i64(value) {
            Some(n) if -2147483648 <= n && n <= 2147483647 => Ok(SysctlValue::I32(n as i32)),
            _ => Err(ApiError::BadRequest(quoted_msg("expected integer, got '", value))),
        };
    }
    if typ == 6 || typ == 0xf {
        return match parse_u32(value) {
            Some(n) => Ok(SysctlValue::U32(n)),
            None => Err(ApiError::BadRequest(quoted_msg("expected unsigned integer, got '", value))),
        };
    }
    if typ == 7 || typ == 4 {
        return match parse_i64(value) {
            Some(n) => Ok(SysctlValue::I64(n)),
            None => Err(
                ApiError::BadRequest(
                    quoted_msg(
                        if typ == 7 {
                            "expected long integer, got '"
                        } else {
                            "expected s64, got '"
                        },
                        value,
                    ),
                ),
            ),
        };
    }
    if typ == 8 || typ == 9 {
        return match parse_u64(value) {
            Some(n) => Ok(SysctlValue::U64(n)),
            None => Err(
                ApiError::BadRequest(
                    quoted_msg(
                        if typ == 8 {
                            "expected unsigned long, got '"
                        } else {
                            "expected u64, got '"
                        },
                        value,
                    ),
                ),
            ),
        };
    }
    if typ == 0xa {
        return match parse_unsigned_str(value, 255) {
            Some(n) => Ok(SysctlValue::U8(n as u8)),
            None => Err(ApiError::BadRequest(quoted_msg("expected uint8, got '", value))),
        };
    }
    if typ == 0xb {
        return match parse_unsigned_str(value, 65535) {
            Some(n) => Ok(SysctlValue::U16(n as u16)),
            None => Err(ApiError::BadRequest(quoted_msg("expected uint16, got '", value))),
        };
    }
    if typ == 0xc {
        return match parse_i64(value) {
            Some(n) if -128 <= n && n <= 127 => Ok(SysctlValue::I8(n as i8)),
            _ => Err(ApiError::BadRequest(quoted_msg("expected int8, got '", value))),
        };
    }
    if typ == 0xd {
        return match parse_i64(value) {
            Some(n) if -32768 <= n && n <= 32767 => Ok(SysctlValue::I16(n as i16)),
            _ => Err(ApiError::BadRequest(quoted_msg("expected int16, got '", value))),
        };
    }
    let mut m = owned("cannot set sysctl of type '");
    push_str(&mut m, ctl_type_name(typ));
    push_str(&mut m, "' (");
    crate::num::push_dec(&mut m, typ as u64);
    push_str(&mut m, ")");
    Err(ApiError::BadRequest(m))
}

// ───────────────────────── sysctl.conf ─────────────────────────

/// The names set in `sysctl.conf`: each non-comment line with a `=`, the
/// trimmed part before it.
pub open spec fn conf_names_fold(ls: Seq<Seq<char>>) -> Seq<Seq<char>>
    decreases ls.len(),
{
    if ls.len() == 0 {
        seq![]
    } else {
        let rest = conf_names_fold(ls.drop_last());
        let l = trim(ls.last());
        if l.len() == 0 || starts_with(l, "#"@) || !l.contains('=') {
            rest
        } else {
            rest.push(trim(before_char(l, '=')))
        }
    }
}

pub fn parse_sysctl_conf(content: &str) -> (r: Vec<String>)
    ensures
        r.deep_view() == conf_names_fold(lines(content@)),
{
    let ls = split_lines(content);
    let ghost lv = ls.deep_view();
    let mut out: Vec<String> = Vec::new();
    let mut i: usize = 0;
    assert(lv.take(0) =~= Seq::<Seq<char>>::empty());
    assert(out.deep_view() =~= Seq::<Seq<char>>::empty());
    while i < ls.len()
        invariant
            i <= ls@.len() == lv.len(),
            lv == ls.deep_view(),
            out.deep_view() == conf_names_fold(lv.take(i as int)),
        decreases ls@.len() - i,
    {
        assert(lv.take(i + 1).drop_last() =~= lv.take(i as int));
        assert(lv.take(i + 1).last() == ls@[i as int]@);
        let l = trim_str(ls[i].as_str());
        if !l.as_str().is_empty() && !starts_with_str(l.as_str(), "#") && contains_char(
            l.as_str(),
            '=',
        ) {
            let b = before_char_str(l.as_str(), '=');
            let ghost o = out.deep_view();
            out.push(trim_str(b.as_str()));
            assert(out.deep_view() =~= o.push(trim(before_char(l@, '='))));
        }
        i += 1;
    }
    assert(lv.take(i as int) =~= lv);
    out
}

/// A line that sets `name` (not commented out).
pub open spec fn sets_name(line: Seq<char>, name: Seq<char>) -> bool {
    let t = trim(line);
    starts_with(t, name + "="@) && !starts_with(t, "#"@)
}

pub open spec fn upsert_lines(ls: Seq<Seq<char>>, name: Seq<char>, value: Seq<char>) -> Seq<Seq<char>> {
    ls.map_values(|l: Seq<char>| if sets_name(l, name) {
        name + "="@ + value
    } else {
        l
    })
}

/// `sysctl.conf` with every line that sets `name` replaced by
/// `name=value` (appended when there is none), ended by a newline.
pub open spec fn upserted_conf(content: Seq<char>, name: Seq<char>, value: Seq<char>) -> Seq<char> {
    let ls = lines(content);
    let found = exists|i: int| 0 <= i < ls.len() && sets_name(#[trigger] ls[i], name);
    let body = upsert_lines(ls, name, value);
    join(
        (if found {
            body
        } else {
            body.push(name + "="@ + value)
        }).push(seq![]),
        "\n"@,
    )
}

pub fn upsert_sysctl_conf(content: &str, name: &str, value: &str) -> (r: String)
    ensures
        r@ == upserted_conf(content@, name@, value@),
{
    let ls = split_lines(content);
    let ghost lv = ls.deep_view();
    let mut prefix = owned(name);
    push_str(&mut prefix, "=");
    let mut target = owned(name);
    push_str(&mut target, "=");
    push_str(&mut target, value);
    let mut out: Vec<String> = Vec::new();
    let mut found = false;
    let mut i: usize = 0;
    assert(out.deep_view() =~= upsert_lines(lv.take(0), name@, value@));
    while i < ls.len()
        invariant
            i <= ls@.len() == lv.len(),
            lv == ls.deep_view(),
            prefix@ == name@ + "="@,
            target@ == name@ + "="@ + value@,
            out.deep_view() == upsert_lines(lv.take(i as int), name@, value@),
            found == exists|k: int| 0 <= k < i && sets_name(#[trigger] lv[k], name@),
        decreases ls@.len() - i,
    {
        assert(lv[i as int] == ls@[i as int]@);
        let t = trim_str(ls[i].as_str());
        let hit = starts_with_str(t.as_str(), prefix.as_str()) && !starts_with_str(t.as_str(), "#");
        let ghost o = out.deep_view();
        assert(hit == sets_name(lv[i as int], name@));
        let ghost item = if hit {
            name@ + "="@ + value@
        } else {
            lv[i as int]
        };
        if hit {
            found = true;
            out.push(target.clone());
        } else {
            out.push(ls[i].clone());
        }
        assert(out.deep_view() =~= o.push(item));
        assert(upsert_lines(lv.take(i + 1), name@, value@) =~= upsert_lines(lv.take(i as int), name@, value@).push(item));
        i += 1;
    }
    assert(lv.take(i as int) =~= lv);
    if !found {
        let ghost o = out.deep_view();
        out.push(target);
        assert(out.deep_view() =~= o.push(name@ + "="@ + value@));
    }
    let ghost o2 = out.deep_view();
    out.push(String::new());
    assert(out.deep_view() =~= o2.push(seq![]));
    join_strings(&out, "\n")
}

/// `sysctl.conf` without the lines that set `name`, ended by a newline.
pub open spec fn removed_conf(content: Seq<char>, name: Seq<char>) -> Seq<char> {
    let j = join(lines(content).filter(|l: Seq<char>| !sets_name(l, name)), "\n"@);
    if ends_with(j, "\n"@) {
        j
    } else {
        j + "\n"@
    }
}

/// The lines that stay when `name` is removed, and how the result reads
/// back: those lines (with a final empty one dropped), or one empty line
/// when none stays.
proof fn lemma_removed_conf_shape(content: Seq<char>, name: Seq<char>)
    ensures
        ({
            let kept = lines(content).filter(|l: Seq<char>| !sets_name(l, name));
            let back = lines(removed_conf(content, name));
            &&& kept.len() == 0 ==> back == seq![Seq::<char>::empty()]
            &&& kept.len() > 0 && kept.last().len() > 0 ==> back == kept.map_values(|l: Seq<char>| strip_cr(l))
            &&& kept.len() == 1 && kept.last().len() == 0 ==> back == seq![Seq::<char>::empty()]
            &&& kept.len() > 1 && kept.last().len() == 0 ==> back == kept.drop_last().map_values(
                |l: Seq<char>| strip_cr(l),
            )
        }),
{
    reveal_strlit("\n");
    let keep = |l: Seq<char>| !sets_name(l, name);
    let ls = lines(content);
    let kept = ls.filter(keep);
    let j = join(kept, "\n"@);
    crate::text::lemma_lines_no_newline(content);
    assert forall|k: int| 0 <= k < kept.len() implies !(#[trigger] kept[k]).contains('\n') by {
        ls.lemma_filter_contains_rev(keep, kept[k]);
        let q = choose|q: int| 0 <= q < ls.len() && ls[q] == kept[k];
        assert(!ls[q].contains('\n'));
    }
    let nl: Seq<char> = "\n"@;
    let lone: Seq<char> = seq!['\n'];
    assert(nl =~= lone);
    assert(lines(lone) == seq![Seq::<char>::empty()]) by {
        crate::text::lemma_find_char(lone, '\n', 0);
        assert(lone.take(0) =~= Seq::<char>::empty());
        assert(lone.skip(1) =~= Seq::<char>::empty());
        assert(strip_cr(Seq::<char>::empty()) == Seq::<char>::empty());
        assert(lines(lone) == seq![strip_cr(lone.take(0))] + lines(lone.skip(1)));
    }
    if kept.len() == 0 || (kept.len() == 1 && kept.last().len() == 0) {
        if kept.len() == 1 {
            assert(j == kept[0]);
        }
        assert(j.len() == 0);
        assert(!ends_with(j, "\n"@));
        assert(removed_conf(content, name) =~= lone);
    } else if kept.last().len() > 0 {
        let lst = kept.last();
        assert(!lst.contains('\n'));
        if kept.len() == 1 {
            assert(j == kept[0]);
        } else {
            assert(j == join(kept.drop_last(), "\n"@) + "\n"@ + lst);
        }
        assert(j.len() > 0 && j.last() == lst.last());
        assert(lst.last() != '\n') by {
            assert(lst.contains(lst[lst.len() - 1]));
        }
        assert(!ends_with(j, "\n"@)) by {
            if ends_with(j, "\n"@) {
                assert(j.skip(j.len() - 1)[0] == j.last());
            }
        }
        crate::text::lemma_join_newline_end(kept);
        crate::text::lemma_lines_text_of(kept);
        assert(removed_conf(content, name) == text_of(kept));
    } else {
        let front = kept.drop_last();
        assert(kept.last() =~= Seq::<char>::empty());
        assert(kept =~= front.push(Seq::<char>::empty()));
        crate::text::lemma_join_newlines(front);
        assert(j == join(front, "\n"@) + "\n"@ + Seq::<char>::empty());
        assert(ends_with(j, "\n"@)) by {
            assert(j.skip(j.len() - 1) =~= "\n"@);
        }
        assert forall|k: int| 0 <= k < front.len() implies !(#[trigger] front[k]).contains('\n') by {
            assert(front[k] == kept[k]);
        }
        crate::text::lemma_lines_text_of(front);
        assert(removed_conf(content, name) == text_of(front));
    }
}

/// Removing `name` from `sysctl.conf`: no line of the result sets `name`
/// (trimmed, it starts with `name=` and is no comment), and every other
/// non-empty line stays, a line setting a longer name that begins with
/// `name` among them (a line ending in `\r` loses that `\r`); the result
/// ends with a newline.
pub proof fn lemma_removed_conf(content: Seq<char>, name: Seq<char>)
    ensures
        ends_with(removed_conf(content, name), "\n"@),
        forall|l: Seq<char>|
            #[trigger] lines(removed_conf(content, name)).contains(l) ==> !(starts_with(trim(l), name + "="@)
                && !starts_with(trim(l), "#"@)),
        forall|l: Seq<char>|
            #[trigger] lines(content).contains(l) && l.len() > 0 && strip_cr(l) == l && !(starts_with(
                trim(l),
                name + "="@,
            ) && !starts_with(trim(l), "#"@)) ==> lines(removed_conf(content, name)).contains(l),
{
    reveal_strlit("=");
    reveal_strlit("\n");
    let j0 = join(lines(content).filter(|l: Seq<char>| !sets_name(l, name)), "\n"@);
    if !ends_with(j0, "\n"@) {
        assert((j0 + "\n"@).skip((j0 + "\n"@).len() - 1) =~= "\n"@);
    }
    let keep = |l: Seq<char>| !sets_name(l, name);
    let ls = lines(content);
    let kept = ls.filter(keep);
    let back = lines(removed_conf(content, name));
    lemma_removed_conf_shape(content, name);
    assert forall|l: Seq<char>| #[trigger] back.contains(l) implies !(starts_with(trim(l), name + "="@)
        && !starts_with(trim(l), "#"@)) by {
        let i = choose|i: int| 0 <= i < back.len() && back[i] == l;
        if kept.len() > 0 && !(kept.len() == 1 && kept.last().len() == 0) {
            assert(i < kept.len());
            if kept.last().len() == 0 {
                assert(back[i] == strip_cr(kept.drop_last()[i]));
                assert(kept.drop_last()[i] == kept[i]);
            }
            assert(l == strip_cr(kept[i]));
            ls.lemma_filter_pred(keep, i);
            assert(keep(kept[i]));
            assert(!sets_name(kept[i], name));
            crate::text::lemma_trim_strip_cr(kept[i]);
            assert(trim(l) == trim(kept[i]));
        } else {
            assert(l == Seq::<char>::empty());
            assert(trim(l) =~= Seq::<char>::empty());
            assert((name + "="@).len() >= 1);
            assert(!starts_with(trim(l), name + "="@));
        }
    }
    assert forall|l: Seq<char>|
        #[trigger] ls.contains(l) && l.len() > 0 && strip_cr(l) == l && !(starts_with(trim(l), name + "="@)
            && !starts_with(trim(l), "#"@)) implies back.contains(l) by {
        let q = choose|q: int| 0 <= q < ls.len() && ls[q] == l;
        ls.lemma_filter_contains(keep, q);
        let i = choose|i: int| 0 <= i < kept.len() && kept[i] == l;
        if kept.last().len() > 0 {
            assert(back[i] == strip_cr(kept[i]));
        } else {
            assert(i != kept.len() - 1);
            assert(kept.len() > 1);
            assert(back[i] == strip_cr(kept.drop_last()[i]));
        }
    }
}

pub fn remove_from_sysctl_conf(content: &str, name: &str) -> (r: String)
    ensures
        r@ == removed_conf(content@, name@),
{
    let ls = split_lines(content);
    let ghost lv = ls.deep_view();
    let ghost keep = |l: Seq<char>| !sets_name(l, name@);
    let mut prefix = owned(name);
    push_str(&mut prefix, "=");
    let mut out: Vec<String> = Vec::new();
    let mut i: usize = 0;
    assert(lv.take(0).filter(keep) =~= Seq::<Seq<char>>::empty());
    while i < ls.len()
        invariant
            i <= ls@.len() == lv.len(),
            lv == ls.deep_view(),
            prefix@ == name@ + "="@,
            keep == (|l: Seq<char>| !sets_name(l, name@)),
            out.deep_view() == lv.take(i as int).filter(keep),
        decreases ls@.len() - i,
    {
        assert(lv[i as int] == ls@[i as int]@);
        assert(lv.take(i + 1) =~= lv.take(i as int).push(lv[i as int]));
        proof {
            lv.take(i as int).lemma_filter_push(lv[i as int], keep);
        }
        let t = trim_str(ls[i].as_str());
        let hit = starts_with_str(t.as_str(), prefix.as_str()) && !starts_with_str(t.as_str(), "#");
        if !hit {
            let ghost o = out.deep_view();
            out.push(ls[i].clone());
            assert(out.deep_view() =~= o.push(lv[i as int]));
        }
        i += 1;
    }
    assert(lv.take(i as int) =~= lv);
    let mut j = join_strings(&out, "\n");
    if !ends_with_str(j.as_str(), "\n") {
        push_str(&mut j, "\n");
    }
    j
}

/// A variable is listed under a query when its name, lower-cased, contains
/// the query, lower-cased.
pub fn name_matches(name: &str, query: &str) -> (b: bool)
    ensures
        b == contains_sub(unicode_lower(name@), unicode_lower(query@)),
{
    let n = to_lowercase_str(name);
    let q = to_lowercase_str(query);
    contains_str(n.as_str(), q.as_str())
}

// ───────────────────────── the listing ─────────────────────────

/// A variable as contracts speak of it.
pub struct EntryView {
    pub name: Seq<char>,
    pub value: Option<Seq<char>>,
    pub typ: Seq<char>,
    pub fmt: Seq<char>,
    pub description: Option<Seq<char>>,
    pub writable: bool,
    pub modified: bool,
}

pub open spec fn opt_view(o: Option<String>) -> Option<Seq<char>> {
    match o {
        Some(s) => Some(s@),
        None => None,
    }
}

pub open spec fn entry_view(e: SysctlEntry) -> EntryView {
    EntryView {
        name: e.name@,
        value: opt_view(e.value),
        typ: e.typ@,
        fmt: e.fmt@,
        description: opt_view(e.description),
        writable: e.writable,
        modified: e.modified,
    }
}

pub open spec fn entries_view(v: Seq<SysctlEntry>) -> Seq<EntryView> {
    v.map_values(|e: SysctlEntry| entry_view(e))
}

/// The listed entry of a variable of kind `kind`: none for an inner node;
/// else its type name, whether it is writable, and whether
/// `/etc/sysctl.conf` names it.
pub open spec fn entry_of(
    name: Seq<char>,
    kind: u32,
    fmt: Seq<char>,
    description: Option<Seq<char>>,
    value: Option<Seq<char>>,
    modified: Seq<Seq<char>>,
) -> Option<EntryView> {
    if kind & CTLTYPE_MASK == CTLTYPE_NODE {
        None
    } else {
        Some(
            EntryView {
                name,
                value,
                typ: type_name_spec(kind & CTLTYPE_MASK),
                fmt,
                description,
                writable: kind & CTLFLAG_WR != 0,
                modified: modified.contains(name),
            },
        )
    }
}

fn clone_opt_string(o: &Option<String>) -> (r: Option<String>)
    ensures
        opt_view(r) == opt_view(*o),
{
    match o {
        Some(s) => Some(s.clone()),
        None => None,
    }
}

fn names_contain(names: &Vec<String>, name: &String) -> (b: bool)
    ensures
        b == names.deep_view().contains(name@),
{
    let mut i: usize = 0;
    while i < names.len()
        invariant
            i <= names@.len(),
            forall|k: int| 0 <= k < i ==> names@[k]@ != name@,
        decreases names@.len() - i,
    {
        if crate::text::string_eq(&names[i], name) {
            assert(names.deep_view()[i as int] == name@);
            return true;
        }
        i += 1;
    }
    assert forall|k: int| 0 <= k < names.deep_view().len() implies names.deep_view()[k] != name@ by {
        assert(names.deep_view()[k] == names@[k]@);
    }
    false
}

pub fn make_entry(
    name: &String,
    kind: u32,
    fmt: &String,
    description: &Option<String>,
    value: &Option<String>,
    modified: &Vec<String>,
) -> (r: Option<SysctlEntry>)
    ensures
        match r {
            Some(e) => entry_of(name@, kind, fmt@, opt_view(*description), opt_view(*value), modified.deep_view())
                == Some(entry_view(e)),
            None => entry_of(name@, kind, fmt@, opt_view(*description), opt_view(*value), modified.deep_view())
                is None,
        },
{
    let typ = kind & CTLTYPE_MASK;
    if typ == CTLTYPE_NODE {
        return None;
    }
    Some(
        SysctlEntry {
            name: name.clone(),
            value: clone_opt_string(value),
            typ: owned(ctl_type_name(typ)),
            fmt: fmt.clone(),
            description: clone_opt_string(description),
            writable: kind & CTLFLAG_WR != 0,
            modified: names_contain(modified, name),
        },
    )
}

pub open spec fn sorted_by_name(es: Seq<EntryView>) -> bool {
    forall|i: int, j: int|
        0 <= i < j < es.len() ==> crate::text::str_le(#[trigger] es[i].name, #[trigger] es[j].name)
}

proof fn lemma_insert_sorted_entry(s: Seq<EntryView>, k: int, x: EntryView)
    requires
        sorted_by_name(s),
        0 <= k <= s.len(),
        forall|a: int| 0 <= a < k ==> crate::text::str_le(#[trigger] s[a].name, x.name),
        k < s.len() ==> crate::text::str_lt(x.name, s[k].name),
    ensures
        sorted_by_name(s.insert(k, x)),
{
    let t = s.insert(k, x);
    assert forall|i: int, j: int| 0 <= i < j < t.len() implies crate::text::str_le(
        #[trigger] t[i].name,
        #[trigger] t[j].name,
    ) by {
        if j < k {
            assert(t[i] == s[i] && t[j] == s[j]);
        } else if j == k {
            assert(t[i] == s[i] && t[j] == x);
        } else if i < k {
            assert(t[i] == s[i] && t[j] == s[j - 1]);
            crate::text::lemma_str_le_trans(x.name, s[k].name, s[j - 1].name);
            crate::text::lemma_str_le_trans(s[i].name, x.name, s[j - 1].name);
        } else if i == k {
            assert(t[i] == x && t[j] == s[j - 1]);
            if j - 1 > k {
                assert(crate::text::str_le(s[k].name, s[j - 1].name));
            }
            crate::text::lemma_str_le_trans(x.name, s[k].name, s[j - 1].name);
        } else {
            assert(t[i] == s[i - 1] && t[j] == s[j - 1]);
        }
    }
}

/// The entries ordered by name.
pub fn sort_entries(v: Vec<SysctlEntry>) -> (r: Vec<SysctlEntry>)
    ensures
        sorted_by_name(entries_view(r@)),
        entries_view(r@).to_multiset() == entries_view(v@).to_multiset(),
{
    broadcast use vstd::seq_lib::group_to_multiset_ensures;

    let ghost v0 = entries_view(v@);
    let mut src = v;
    let mut out: Vec<SysctlEntry> = Vec::new();
    assert(entries_view(out@) =~= Seq::<EntryView>::empty());
    assert(v0.skip(v0.len() as int) =~= Seq::<EntryView>::empty());
    assert(entries_view(src@) =~= v0.take(src@.len() as int));
    while src.len() > 0
        invariant
            src@.len() <= v0.len(),
            entries_view(src@) == v0.take(src@.len() as int),
            sorted_by_name(entries_view(out@)),
            entries_view(out@).to_multiset() == v0.skip(src@.len() as int).to_multiset(),
        decreases src@.len(),
    {
        let ghost n = src@.len();
        let ghost old_src = src@;
        let x = src.pop().unwrap();
        let ghost xv = entry_view(x);
        assert(entries_view(old_src)[n - 1] == entry_view(old_src[n - 1]));
        assert(v0.take(n as int)[n - 1] == v0[n - 1]);
        assert(xv == v0[n - 1]);
        assert(entries_view(src@) =~= v0.take(n - 1));
        let mut k: usize = 0;
        while k < out.len() && !crate::text::string_lt(&x.name, &out[k].name)
            invariant
                k <= out@.len(),
                xv == entry_view(x),
                forall|a: int| 0 <= a < k ==> crate::text::str_le(#[trigger] entries_view(out@)[a].name, xv.name),
            decreases out@.len() - k,
        {
            assert(entries_view(out@)[k as int] == entry_view(out@[k as int]));
            proof {
                crate::text::lemma_str_lt_total(xv.name, out@[k as int].name@);
            }
            k += 1;
        }
        proof {
            if k < out@.len() {
                assert(entries_view(out@)[k as int] == entry_view(out@[k as int]));
            }
            lemma_insert_sorted_entry(entries_view(out@), k as int, xv);
        }
        let ghost o0 = entries_view(out@);
        out.insert(k, x);
        assert(entries_view(out@) =~= o0.insert(k as int, xv));
        proof {
            vstd::seq_lib::to_multiset_insert(o0, k as int, xv);
            assert(v0.skip(n - 1) =~= v0.skip(n as int).insert(0, xv));
            vstd::seq_lib::to_multiset_insert(v0.skip(n as int), 0, xv);
        }
    }
    assert(v0.skip(0) =~= v0);
    out
}

/// The entries whose name, lower-cased, contains `query`, lower-cased; all
/// of them without a query. Their order is kept.
pub fn filter_entries(v: Vec<SysctlEntry>, query: Option<&str>) -> (r: Vec<SysctlEntry>)
    ensures
        match query {
            None => entries_view(r@) == entries_view(v@),
            Some(q) => entries_view(r@) == entries_view(v@).filter(
                |e: EntryView| contains_sub(unicode_lower(e.name), unicode_lower(q@)),
            ),
        },
{
    match query {
        None => v,
        Some(q) => {
            let ghost keep = |e: EntryView| contains_sub(unicode_lower(e.name), unicode_lower(q@));
            let ghost v0 = entries_view(v@);
            let mut out: Vec<SysctlEntry> = Vec::new();
            let mut src = v;
            let mut rev: Vec<SysctlEntry> = Vec::new();
            // take the entries off the end, then put them back in order
            while src.len() > 0
                invariant
                    src@.len() <= v0.len(),
                    entries_view(src@) == v0.take(src@.len() as int),
                    entries_view(rev@) == v0.skip(src@.len() as int).reverse(),
                decreases src@.len(),
            {
                let ghost n = src@.len();
                let ghost old_src = src@;
                let x = src.pop().unwrap();
                assert(entries_view(old_src)[n - 1] == entry_view(old_src[n - 1]));
                assert(v0.take(n as int)[n - 1] == v0[n - 1]);
                assert(entries_view(src@) =~= v0.take(n - 1));
                let ghost r0 = entries_view(rev@);
                rev.push(x);
                assert(entries_view(rev@) =~= r0.push(v0[n - 1]));
                assert(v0.skip(n - 1).reverse() =~= v0.skip(n as int).reverse().push(v0[n - 1]));
            }
            assert(v0.skip(0) =~= v0);
            while rev.len() > 0
                invariant
                    rev@.len() <= v0.len(),
                    entries_view(rev@) == v0.skip(v0.len() - rev@.len()).reverse(),
                    entries_view(out@) == v0.take(v0.len() - rev@.len()).filter(keep),
                    keep == (|e: EntryView| contains_sub(unicode_lower(e.name), unicode_lower(q@))),
                decreases rev@.len(),
            {
                let ghost n = rev@.len();
                let ghost m = v0.len() - n;
                let ghost old_rev = rev@;
                let x = rev.pop().unwrap();
                assert(entries_view(old_rev)[n - 1] == entry_view(old_rev[n - 1]));
                assert(v0.skip(m).reverse()[n - 1] == v0[m]);
                assert(entry_view(x) == v0[m]);
                assert(rev@ =~= old_rev.drop_last());
                assert(entries_view(rev@) =~= entries_view(old_rev).drop_last());
                assert(v0.skip(m).reverse().drop_last() =~= v0.skip(m + 1).reverse());
                assert(entries_view(rev@) =~= v0.skip(m + 1).reverse());
                assert(v0.take(m + 1) =~= v0.take(m).push(v0[m]));
                proof {
                    v0.take(m).lemma_filter_push(v0[m], keep);
                }
                if name_matches(x.name.as_str(), q) {
                    let ghost o0 = entries_view(out@);
                    out.push(x);
                    assert(entries_view(out@) =~= o0.push(v0[m]));
                }
            }
            assert(v0.take(v0.len() as int) =~= v0);
            out
        },
    }
}

// ───────────────────────── a set value is listed as set ─────────────────────────

/// The name a line of `sysctl.conf` sets, if it sets one.
pub open spec fn line_sets(l: Seq<char>) -> Option<Seq<char>> {
    let t = trim(l);
    if t.len() == 0 || starts_with(t, "#"@) || !t.contains('=') {
        None
    } else {
        Some(trim(before_char(t, '=')))
    }
}

proof fn lemma_names_fold_has(ls: Seq<Seq<char>>, j: int, name: Seq<char>)
    requires
        0 <= j < ls.len(),
        line_sets(ls[j]) == Some(name),
    ensures
        conf_names_fold(ls).contains(name),
    decreases ls.len(),
{
    let rest = conf_names_fold(ls.drop_last());
    if j == ls.len() - 1 {
        assert(conf_names_fold(ls) == rest.push(name));
        assert(conf_names_fold(ls)[rest.len() as int] == name);
    } else {
        assert(ls.drop_last()[j] == ls[j]);
        lemma_names_fold_has(ls.drop_last(), j, name);
        let k = choose|k: int| 0 <= k < rest.len() && rest[k] == name;
        let f = conf_names_fold(ls);
        assert(f == rest || f == rest.push(trim(before_char(trim(ls.last()), '='))));
        assert(f[k] == rest[k]);
    }
}

/// The line `name=value` sets `name`.
proof fn lemma_target_sets(name: Seq<char>, value: Seq<char>)
    requires
        crate::text::is_word(name),
        !name.contains('='),
        !name.contains('#'),
    ensures
        line_sets(name + "="@ + value) == Some(name),
{
    reveal_strlit("=");
    reveal_strlit("#");
    let g = name + "="@ + value;
    let n = name.len() as int;
    assert(g[n] == '=');
    assert(g[0] == name[0]);
    crate::text::lemma_trim_start_skip(g, 0);
    assert(g.skip(0) =~= g);
    crate::text::lemma_trim_end_prefix(g);
    let t = trim(g);
    assert(t == crate::text::trim_end(g));
    assert(!crate::text::is_ws(g[n]));
    assert(n < t.len());
    assert forall|k: int| 0 <= k < n implies t[k] == name[k] && t[k] != '=' by {
        assert(t[k] == g[k]);
        assert(g[k] == name[k]);
    }
    assert(t[n] == '=');
    crate::text::lemma_find_char(t, '=', n);
    assert(t.take(n) =~= name);
    crate::text::lemma_trim_word(name);
    assert(t.contains('='));
    assert(t[0] != '#');
    assert(!starts_with(t, "#"@)) by {
        if starts_with(t, "#"@) {
            assert(t.take(1) =~= "#"@);
            assert(t[0] == t.take(1)[0]);
        }
    }
}

/// After `name` is set in `sysctl.conf`, reading the file lists `name`
/// among the names it sets (for a name of letters, digits, `.` and `_`,
/// and a value without line breaks, as the requests are checked).
pub proof fn lemma_set_then_listed(content: Seq<char>, name: Seq<char>, value: Seq<char>)
    requires
        crate::text::is_word(name),
        !name.contains('='),
        !name.contains('#'),
        !value.contains('\n'),
        !value.contains('\r'),
    ensures
        conf_names_fold(lines(upserted_conf(content, name, value))).contains(name),
{
    reveal_strlit("=");
    let ls = lines(content);
    let found = exists|i: int| 0 <= i < ls.len() && sets_name(#[trigger] ls[i], name);
    let body = upsert_lines(ls, name, value);
    let target = name + "="@ + value;
    let out = if found {
        body
    } else {
        body.push(target)
    };
    crate::text::lemma_join_newlines(out);
    assert(upserted_conf(content, name, value) == crate::text::text_of(out));
    crate::text::lemma_lines_no_newline(content);
    assert(!target.contains('\n')) by {
        if target.contains('\n') {
            let k = choose|k: int| 0 <= k < target.len() && target[k] == '\n';
            if k < name.len() {
                assert(target[k] == name[k]);
                assert(!crate::text::is_ws(name[k]));
            } else if k == name.len() {
            } else {
                assert(target[k] == value[k - name.len() - 1]);
            }
        }
    }
    assert forall|k: int| 0 <= k < out.len() implies !(#[trigger] out[k]).contains('\n') by {
        if k < ls.len() {
            assert(body[k] == if sets_name(ls[k], name) { target } else { ls[k] });
        }
    }
    crate::text::lemma_lines_text_of(out);
    let m = out.map_values(|l: Seq<char>| crate::text::strip_cr(l));
    assert(target.len() > 0);
    assert(target.last() != '\r') by {
        if value.len() > 0 {
            assert(target.last() == value.last());
        } else {
            assert(target.last() == '=');
        }
    }
    assert(crate::text::strip_cr(target) == target);
    lemma_target_sets(name, value);
    if found {
        let i = choose|i: int| 0 <= i < ls.len() && sets_name(#[trigger] ls[i], name);
        assert(out[i] == target);
        assert(m[i] == target);
        lemma_names_fold_has(m, i, name);
    } else {
        assert(out[ls.len() as int] == target);
        assert(m[ls.len() as int] == target);
        lemma_names_fold_has(m, ls.len() as int, name);
    }
}

} // verus!
