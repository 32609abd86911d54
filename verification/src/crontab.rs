//! Crontab files: reading `/etc/crontab` and per-user tabs into entries and
//! inert lines, editing entries, and writing every other line back verbatim.
//!
//! `/etc/crontab` uses the six-field system format (a `who` column names the
//! run-as user); per-user tabs use five fields. Contiguous `#` lines right
//! above a task are that task's comment; a `#` line whose body parses as a
//! schedule is a disabled task; a bare `#` is an inert separator.
use vstd::prelude::*;
use crate::error::{ApiError, ApiResult, bad_request, bad_request_owned, is_bad_request};
use crate::pattern::{regex_match, regex_is_match};
use crate::text::{
    all_chars, byte_len, bytes_exceed, chars_of, contains_char, contains_str, contains_sub,
    ends_with, find_char, find_char_vec, is_alnum, is_alnum_char, is_alpha, is_alpha_char, join,
    join_strings, lines, owned, push_char, push_str, split_lines, split_ws, starts_with,
    starts_with_str, str_eq, string_from, trim, trim_end, trim_end_str, trim_start,
    trim_start_str, trim_str, words, text_of, push_line,
};

verus! {

/// The `@`-aliases cron accepts in place of five time fields.
pub open spec fn is_cron_alias(w: Seq<char>) -> bool {
    w == "@reboot"@ || w == "@yearly"@ || w == "@annually"@ || w == "@monthly"@ || w
        == "@weekly"@ || w == "@daily"@ || w == "@midnight"@ || w == "@hourly"@
}

pub fn is_cron_alias_str(w: &str) -> (b: bool)
    ensures
        b == is_cron_alias(w@),
{
    str_eq(w, "@reboot") || str_eq(w, "@yearly") || str_eq(w, "@annually") || str_eq(
        w,
        "@monthly",
    ) || str_eq(w, "@weekly") || str_eq(w, "@daily") || str_eq(w, "@midnight") || str_eq(
        w,
        "@hourly",
    )
}

// ───────────────────────── model ─────────────────────────

/// A task line, read.
#[derive(Debug, Clone)]
pub enum Parsed {
    Schedule {
        minute: String,
        hour: String,
        dom: String,
        month: String,
        dow: String,
        user: Option<String>,
        command: String,
    },
    Special { special: String, user: Option<String>, command: String },
}

/// A task line, as values.
pub enum ParsedView {
    Schedule {
        minute: Seq<char>,
        hour: Seq<char>,
        dom: Seq<char>,
        month: Seq<char>,
        dow: Seq<char>,
        user: Option<Seq<char>>,
        command: Seq<char>,
    },
    Special { special: Seq<char>, user: Option<Seq<char>>, command: Seq<char> },
}

pub open spec fn opt_view(o: Option<String>) -> Option<Seq<char>> {
    match o {
        Some(s) => Some(s@),
        None => None,
    }
}

pub open spec fn parsed_view(p: Parsed) -> ParsedView {
    match p {
        Parsed::Schedule { minute, hour, dom, month, dow, user, command } => ParsedView::Schedule {
            minute: minute@,
            hour: hour@,
            dom: dom@,
            month: month@,
            dow: dow@,
            user: opt_view(user),
            command: command@,
        },
        Parsed::Special { special, user, command } => ParsedView::Special {
            special: special@,
            user: opt_view(user),
            command: command@,
        },
    }
}

/// A task with the comment lines attached to it.
#[derive(Debug, Clone)]
pub struct EntryBlock {
    /// Comment lines above the task, each still starting with `#`.
    pub comment_raw: Vec<String>,
    /// Line number of the task within the whole file: the entry's handle.
    pub task_idx: usize,
    /// The task line as it stands in the file.
    pub raw_task: String,
    pub parsed: Parsed,
    pub disabled: bool,
}

/// A piece of a crontab body: a line kept verbatim, or an entry.
#[derive(Debug, Clone)]
pub enum Block {
    Inert(String),
    Entry(EntryBlock),
}

/// An entry as the API shows it.
#[derive(Debug, Clone)]
pub struct CronEntry {
    pub source: String,
    pub line: usize,
    pub kind: String,
    pub minute: Option<String>,
    pub hour: Option<String>,
    pub dom: Option<String>,
    pub month: Option<String>,
    pub dow: Option<String>,
    pub special: Option<String>,
    pub user: Option<String>,
    pub command: String,
    pub comment: String,
    pub disabled: bool,
    pub system_task: bool,
}

/// The editable fields of an entry.
#[derive(Debug, Clone)]
pub struct EntryInput {
    pub minute: Option<String>,
    pub hour: Option<String>,
    pub dom: Option<String>,
    pub month: Option<String>,
    pub dow: Option<String>,
    pub special: Option<String>,
    pub user: Option<String>,
    pub command: String,
    pub comment: String,
    pub disabled: Option<bool>,
}

/// An entry to add to a source.
#[derive(Debug, Clone)]
pub struct CreateRequest {
    pub source: String,
    pub entry: EntryInput,
}

/// The entry at `line` of `source`, replaced.
#[derive(Debug, Clone)]
pub struct UpdateRequest {
    pub source: String,
    pub line: usize,
    pub entry: EntryInput,
}

/// The entry at `line` of `source`.
#[derive(Debug, Clone)]
pub struct SourceLineQuery {
    pub source: String,
    pub line: usize,
}

/// A file an entry can be added to.
#[derive(Debug, Clone)]
pub struct CronTarget {
    pub source: String,
    pub label: String,
    pub has_tab: bool,
}

// ───────────────────────── classifying a line ─────────────────────────

/// A time field: digits and `* / , -`, as the field pattern accepts.
pub open spec fn time_field_ok(f: Seq<char>) -> bool {
    regex_match(r"^[0-9*/,\-]+$"@, f) == Some(true)
}

fn time_field_ok_str(f: &str) -> (b: bool)
    ensures
        b == time_field_ok(f@),
{
    match regex_is_match(r"^[0-9*/,\-]+$", f) {
        Some(m) => m,
        None => false,
    }
}

/// A `NAME=VALUE` environment assignment: the trimmed name before the first
/// `=` is 1 to 128 bytes, starts with a letter or `_`, and holds only
/// letters, digits and `_`.
pub open spec fn env_var(content: Seq<char>) -> bool {
    match find_char(content, '=') {
        None => false,
        Some(eq) => {
            let name = trim(content.take(eq));
            &&& name.len() > 0
            &&& byte_len(name) <= 128
            &&& (is_alpha(name[0]) || name[0] == '_')
            &&& all_chars(name, |c: char| is_alnum(c) || c == '_')
        },
    }
}

pub fn is_env_var(content: &str) -> (b: bool)
    ensures
        b == env_var(content@),
{
    let v = chars_of(content);
    let eq = match find_char_vec(&v, '=') {
        None => return false,
        Some(eq) => eq,
    };
    let raw = string_from(&v, 0, eq);
    assert(raw@ =~= content@.take(eq as int));
    let name = trim_str(raw.as_str());
    if name.as_str().is_empty() || bytes_exceed(name.as_str(), 128) {
        return false;
    }
    let nv = chars_of(name.as_str());
    assert(nv@[0] == name@[0]);
    if !(is_alpha_char(nv[0]) || nv[0] == '_') {
        assert(!(is_alpha(name@[0]) || name@[0] == '_'));
        assert(!env_var(content@));
        return false;
    }
    let mut i: usize = 0;
    while i < nv.len()
        invariant
            i <= nv@.len(),
            nv@ == name@,
            find_char(content@, '=') == Some(eq as int),
            name@ == trim(content@.take(eq as int)),
            forall|k: int| 0 <= k < i ==> (is_alnum(#[trigger] nv@[k]) || nv@[k] == '_'),
        decreases nv@.len() - i,
    {
        if !(is_alnum_char(nv[i]) || nv[i] == '_') {
            assert(!(is_alnum(name@[i as int]) || name@[i as int] == '_'));
            return false;
        }
        i += 1;
    }
    assert(all_chars(name@, |c: char| is_alnum(c) || c == '_'));
    true
}

/// How cron reads a line that is neither blank nor a comment: an
/// `@`-alias entry, a five-field schedule, or nothing. System entries carry
/// a `who` column after the schedule. The command is the rest of the words
/// joined by single spaces.
pub open spec fn classify_spec(content: Seq<char>, is_system: bool) -> Option<ParsedView> {
    let f = words(content);
    if f.len() == 0 {
        None
    } else if is_cron_alias(f[0]) {
        if is_system {
            if f.len() < 3 {
                None
            } else {
                Some(
                    ParsedView::Special {
                        special: f[0],
                        user: Some(f[1]),
                        command: join(f.skip(2), " "@),
                    },
                )
            }
        } else {
            if f.len() < 2 {
                None
            } else {
                Some(ParsedView::Special { special: f[0], user: None, command: join(f.skip(1), " "@) })
            }
        }
    } else if env_var(content) {
        None
    } else if f.len() < (if is_system {
        7int
    } else {
        6int
    }) {
        None
    } else if !(forall|k: int| 0 <= k < 5 ==> time_field_ok(#[trigger] f[k])) {
        None
    } else if is_system {
        Some(
            ParsedView::Schedule {
                minute: f[0],
                hour: f[1],
                dom: f[2],
                month: f[3],
                dow: f[4],
                user: Some(f[5]),
                command: join(f.skip(6), " "@),
            },
        )
    } else {
        Some(
            ParsedView::Schedule {
                minute: f[0],
                hour: f[1],
                dom: f[2],
                month: f[3],
                dow: f[4],
                user: None,
                command: join(f.skip(5), " "@),
            },
        )
    }
}

/// The words from `from` on, joined by single spaces.
fn join_from(f: &Vec<String>, from: usize) -> (r: String)
    requires
        from <= f@.len(),
    ensures
        r@ == join(f.deep_view().skip(from as int), " "@),
{
    let mut tail: Vec<String> = Vec::new();
    let mut i = from;
    while i < f.len()
        invariant
            from <= i <= f@.len(),
            tail.deep_view() == f.deep_view().subrange(from as int, i as int),
        decreases f@.len() - i,
    {
        let ghost t0 = tail.deep_view();
        assert(f.deep_view()[i as int] == f@[i as int]@);
        tail.push(f[i].clone());
        assert(tail.deep_view() =~= t0.push(f@[i as int]@));
        assert(tail.deep_view() =~= f.deep_view().subrange(from as int, i + 1));
        i += 1;
    }
    assert(f.deep_view().subrange(from as int, f@.len() as int) =~= f.deep_view().skip(
        from as int,
    ));
    join_strings(&tail, " ")
}

pub fn classify(content: &str, is_system: bool) -> (r: Option<Parsed>)
    ensures
        match r {
            Some(p) => classify_spec(content@, is_system) == Some(parsed_view(p)),
            None => classify_spec(content@, is_system) is None,
        },
{
    let f = split_ws(content);
    let ghost fv = f.deep_view();
    if f.len() == 0 {
        return None;
    }
    assert(fv[0] == f@[0]@);
    if is_cron_alias_str(f[0].as_str()) {
        if is_system {
            if f.len() < 3 {
                return None;
            }
            assert(fv[1] == f@[1]@);
            return Some(
                Parsed::Special {
                    special: f[0].clone(),
                    user: Some(f[1].clone()),
                    command: join_from(&f, 2),
                },
            );
        } else {
            if f.len() < 2 {
                return None;
            }
            return Some(
                Parsed::Special { special: f[0].clone(), user: None, command: join_from(&f, 1) },
            );
        }
    }
    if is_env_var(content) {
        assert(classify_spec(content@, is_system) is None);
        return None;
    }
    let need: usize = if is_system {
        7
    } else {
        6
    };
    if f.len() < need {
        assert(classify_spec(content@, is_system) is None);
        return None;
    }
    let mut k: usize = 0;
    while k < 5
        invariant
            k <= 5,
            f@.len() >= need,
            need == if is_system {
                7usize
            } else {
                6usize
            },
            fv == f.deep_view(),
            fv == words(content@),
            !is_cron_alias(fv[0]),
            !env_var(content@),
            forall|j: int| 0 <= j < k ==> time_field_ok(#[trigger] fv[j]),
        decreases 5 - k,
    {
        assert(fv[k as int] == f@[k as int]@);
        if !time_field_ok_str(f[k].as_str()) {
            assert(!time_field_ok(fv[k as int]));
            return None;
        }
        k += 1;
    }
    assert(fv[1] == f@[1]@);
    assert(fv[2] == f@[2]@);
    assert(fv[3] == f@[3]@);
    assert(fv[4] == f@[4]@);
    if is_system {
        assert(fv[5] == f@[5]@);
        Some(
            Parsed::Schedule {
                minute: f[0].clone(),
                hour: f[1].clone(),
                dom: f[2].clone(),
                month: f[3].clone(),
                dow: f[4].clone(),
                user: Some(f[5].clone()),
                command: join_from(&f, 6),
            },
        )
    } else {
        Some(
            Parsed::Schedule {
                minute: f[0].clone(),
                hour: f[1].clone(),
                dom: f[2].clone(),
                month: f[3].clone(),
                dow: f[4].clone(),
                user: None,
                command: join_from(&f, 5),
            },
        )
    }
}

/// One of FreeBSD's stock `/etc/crontab` tasks (save-entropy, newsyslog,
/// periodic, adjkerntz), told by the command's first word.
pub open spec fn builtin_task(source: Seq<char>, command: Seq<char>) -> bool {
    let c = trim_start(command);
    &&& source == "system"@
    &&& (starts_with(c, "/usr/libexec/save-entropy"@) || (words(c).len() > 0 && (words(c)[0]
        == "adjkerntz"@ || words(c)[0] == "newsyslog"@ || words(c)[0] == "periodic"@)))
}

pub fn is_freebsd_builtin(source: &str, command: &str) -> (b: bool)
    ensures
        b == builtin_task(source@, command@),
{
    if !str_eq(source, "system") {
        return false;
    }
    let c = trim_start_str(command);
    if starts_with_str(c.as_str(), "/usr/libexec/save-entropy") {
        return true;
    }
    let ws = split_ws(c.as_str());
    if ws.len() == 0 {
        return false;
    }
    assert(ws.deep_view()[0] == ws@[0]@);
    str_eq(ws[0].as_str(), "adjkerntz") || str_eq(ws[0].as_str(), "newsyslog") || str_eq(
        ws[0].as_str(),
        "periodic",
    )
}

/// `s.trim_start_matches('#')`.
pub open spec fn drop_hashes(s: Seq<char>) -> Seq<char>
    decreases s.len(),
{
    if s.len() > 0 && s[0] == '#' {
        drop_hashes(s.drop_first())
    } else {
        s
    }
}

/// A comment line's text: leading blanks and `#`s removed, then one space.
pub open spec fn comment_text(line: Seq<char>) -> Seq<char> {
    let t = drop_hashes(trim_start(line));
    if t.len() > 0 && t[0] == ' ' {
        t.drop_first()
    } else {
        t
    }
}

pub fn strip_comment(line: &str) -> (r: String)
    ensures
        r@ == comment_text(line@),
{
    let t = trim_start_str(line);
    let v = chars_of(t.as_str());
    let mut i: usize = 0;
    assert(v@.skip(0) =~= v@);
    while i < v.len() && v[i] == '#'
        invariant
            i <= v@.len(),
            v@ == t@,
            drop_hashes(v@.skip(i as int)) == drop_hashes(t@),
        decreases v@.len() - i,
    {
        assert(v@.skip(i as int).drop_first() =~= v@.skip(i + 1));
        i += 1;
    }
    let n = v.len();
    if i < n && v[i] == ' ' {
        let r = string_from(&v, i + 1, n);
        assert(r@ =~= v@.skip(i as int).drop_first());
        r
    } else {
        let r = string_from(&v, i, n);
        assert(r@ =~= v@.skip(i as int));
        r
    }
}

// ───────────────────────── the body of a file ─────────────────────────

/// A block, as values.
pub enum BlockView {
    Inert(Seq<char>),
    Entry {
        comments: Seq<Seq<char>>,
        idx: int,
        raw: Seq<char>,
        parsed: ParsedView,
        disabled: bool,
    },
}

pub open spec fn block_view(b: Block) -> BlockView {
    match b {
        Block::Inert(r) => BlockView::Inert(r@),
        Block::Entry(e) => BlockView::Entry {
            comments: e.comment_raw.deep_view(),
            idx: e.task_idx as int,
            raw: e.raw_task@,
            parsed: parsed_view(e.parsed),
            disabled: e.disabled,
        },
    }
}

pub open spec fn blocks_view(bs: Seq<Block>) -> Seq<BlockView> {
    bs.map_values(|b: Block| block_view(b))
}

/// Pending comment lines that end up attached to no task.
pub open spec fn flush(buf: Seq<Seq<char>>) -> Seq<BlockView> {
    buf.map_values(|r: Seq<char>| BlockView::Inert(r))
}

/// The text after a leading `#` (and one space), for a comment line.
pub open spec fn comment_body(raw: Seq<char>) -> Option<Seq<char>> {
    let t = trim_start(raw);
    if t.len() > 0 && t[0] == '#' {
        let b = t.drop_first();
        Some(
            if b.len() > 0 && b[0] == ' ' {
                b.drop_first()
            } else {
                b
            },
        )
    } else {
        None
    }
}

/// Reading state: the blocks so far and the comment lines not yet attached.
pub type BodyState = (Seq<BlockView>, Seq<Seq<char>>);

/// One line of the body read at line number `abs`.
pub open spec fn body_step(st: BodyState, raw: Seq<char>, abs: int, is_system: bool) -> BodyState {
    let bl = st.0;
    let buf = st.1;
    let inert = (bl + flush(buf)).push(BlockView::Inert(raw));
    if trim(raw).len() == 0 {
        (inert, seq![])
    } else {
        match comment_body(raw) {
            Some(body) => match classify_spec(body, is_system) {
                Some(p) => (
                    bl.push(
                        BlockView::Entry {
                            comments: buf,
                            idx: abs,
                            raw: raw,
                            parsed: p,
                            disabled: true,
                        },
                    ),
                    seq![],
                ),
                None => if trim(body).len() == 0 {
                    (inert, seq![])
                } else {
                    (bl, buf.push(raw))
                },
            },
            None => match classify_spec(raw, is_system) {
                Some(p) => (
                    bl.push(
                        BlockView::Entry {
                            comments: buf,
                            idx: abs,
                            raw: raw,
                            parsed: p,
                            disabled: false,
                        },
                    ),
                    seq![],
                ),
                None => (inert, seq![]),
            },
        }
    }
}

pub open spec fn body_fold(rest: Seq<Seq<char>>, offset: int, is_system: bool) -> BodyState
    decreases rest.len(),
{
    if rest.len() == 0 {
        (seq![], seq![])
    } else {
        body_step(
            body_fold(rest.drop_last(), offset, is_system),
            rest.last(),
            offset + rest.len() - 1,
            is_system,
        )
    }
}

/// The blocks of a body whose first line is line `offset` of the file.
pub open spec fn body_blocks(rest: Seq<Seq<char>>, offset: int, is_system: bool) -> Seq<BlockView> {
    let st = body_fold(rest, offset, is_system);
    st.0 + flush(st.1)
}

/// The file lines a block stands for.
pub open spec fn block_lines(b: BlockView) -> Seq<Seq<char>> {
    match b {
        BlockView::Inert(r) => seq![r],
        BlockView::Entry { comments, raw, .. } => comments.push(raw),
    }
}

pub open spec fn flatten(bl: Seq<BlockView>) -> Seq<Seq<char>>
    decreases bl.len(),
{
    if bl.len() == 0 {
        seq![]
    } else {
        flatten(bl.drop_last()) + block_lines(bl.last())
    }
}

pub proof fn lemma_flatten_append(a: Seq<BlockView>, b: Seq<BlockView>)
    ensures
        flatten(a + b) == flatten(a) + flatten(b),
    decreases b.len(),
{
    if b.len() == 0 {
        assert(a + b =~= a);
        assert(flatten(a) + flatten(b) =~= flatten(a));
    } else {
        lemma_flatten_append(a, b.drop_last());
        assert((a + b).drop_last() =~= a + b.drop_last());
        assert(flatten(a + b) =~= flatten(a) + flatten(b));
    }
}

pub proof fn lemma_flatten_flush(buf: Seq<Seq<char>>)
    ensures
        flatten(flush(buf)) == buf,
    decreases buf.len(),
{
    if buf.len() > 0 {
        lemma_flatten_flush(buf.drop_last());
        assert(flush(buf).drop_last() =~= flush(buf.drop_last()));
        assert(flatten(flush(buf)) =~= buf);
    } else {
        assert(flush(buf) =~= Seq::<BlockView>::empty());
        assert(flatten(flush(buf)) =~= buf);
    }
}

pub proof fn lemma_flatten_push(a: Seq<BlockView>, b: BlockView)
    ensures
        flatten(a.push(b)) == flatten(a) + block_lines(b),
{
    assert(a.push(b).drop_last() =~= a);
}

/// Reading a line keeps every line: the blocks and pending comments hold
/// exactly the lines read so far.
pub proof fn lemma_body_fold_lines(rest: Seq<Seq<char>>, offset: int, is_system: bool)
    ensures
        flatten(body_fold(rest, offset, is_system).0) + body_fold(rest, offset, is_system).1
            == rest,
    decreases rest.len(),
{
    if rest.len() == 0 {
        assert(flatten(Seq::<BlockView>::empty()) + Seq::<Seq<char>>::empty() =~= rest);
    } else {
        let st = body_fold(rest.drop_last(), offset, is_system);
        lemma_body_fold_lines(rest.drop_last(), offset, is_system);
        let raw = rest.last();
        let bl = st.0;
        let buf = st.1;
        lemma_flatten_append(bl, flush(buf));
        lemma_flatten_flush(buf);
        lemma_flatten_push(bl + flush(buf), BlockView::Inert(raw));
        assert(rest =~= rest.drop_last().push(raw));
        let nxt = body_fold(rest, offset, is_system);
        if trim(raw).len() == 0 {
            assert(flatten(nxt.0) + nxt.1 =~= rest);
        } else {
            match comment_body(raw) {
                Some(body) => match classify_spec(body, is_system) {
                    Some(p) => {
                        let e = BlockView::Entry {
                            comments: buf,
                            idx: offset + rest.len() - 1,
                            raw: raw,
                            parsed: p,
                            disabled: true,
                        };
                        lemma_flatten_push(bl, e);
                        assert(flatten(nxt.0) + nxt.1 =~= rest);
                    },
                    None => {
                        assert(flatten(nxt.0) + nxt.1 =~= rest);
                    },
                },
                None => match classify_spec(raw, is_system) {
                    Some(p) => {
                        let e = BlockView::Entry {
                            comments: buf,
                            idx: offset + rest.len() - 1,
                            raw: raw,
                            parsed: p,
                            disabled: false,
                        };
                        lemma_flatten_push(bl, e);
                        assert(flatten(nxt.0) + nxt.1 =~= rest);
                    },
                    None => {
                        assert(flatten(nxt.0) + nxt.1 =~= rest);
                    },
                },
            }
        }
    }
}

/// Reading a body into blocks loses and changes no line: the lines the
/// blocks stand for, in order, are the body's lines.
pub proof fn lemma_body_lines_kept(rest: Seq<Seq<char>>, offset: int, is_system: bool)
    ensures
        flatten(body_blocks(rest, offset, is_system)) == rest,
{
    let st = body_fold(rest, offset, is_system);
    lemma_body_fold_lines(rest, offset, is_system);
    lemma_flatten_append(st.0, flush(st.1));
    lemma_flatten_flush(st.1);
}

fn flush_comments(buf: &mut Vec<String>, blocks: &mut Vec<Block>)
    ensures
        final(buf)@.len() == 0,
        blocks_view(final(blocks)@) == blocks_view(old(blocks)@) + flush(old(buf).deep_view()),
{
    let ghost b0 = blocks_view(blocks@);
    let ghost f0 = buf.deep_view();
    let mut i: usize = 0;
    while i < buf.len()
        invariant
            i <= buf@.len() == f0.len(),
            f0 == buf.deep_view(),
            blocks_view(blocks@) == b0 + flush(f0.take(i as int)),
        decreases buf@.len() - i,
    {
        assert(f0[i as int] == buf@[i as int]@);
        let ghost bb = blocks@;
        let item = Block::Inert(buf[i].clone());
        blocks.push(item);
        assert(blocks@ == bb.push(item));
        assert(blocks_view(blocks@) =~= blocks_view(bb).push(BlockView::Inert(f0[i as int])));
        assert(flush(f0.take(i + 1)) =~= flush(f0.take(i as int)).push(BlockView::Inert(f0[i as int])));
        assert(blocks_view(blocks@) =~= b0 + flush(f0.take(i + 1)));
        i += 1;
    }
    assert(f0.take(f0.len() as int) =~= f0);
    *buf = Vec::new();
}

fn comment_body_str(raw: &str) -> (r: Option<String>)
    ensures
        match r {
            Some(b) => comment_body(raw@) == Some(b@),
            None => comment_body(raw@) is None,
        },
{
    let t = trim_start_str(raw);
    let v = chars_of(t.as_str());
    let n = v.len();
    if n > 0 && v[0] == '#' {
        if n > 1 && v[1] == ' ' {
            let b = string_from(&v, 2, n);
            assert(b@ =~= t@.drop_first().drop_first());
            Some(b)
        } else {
            let b = string_from(&v, 1, n);
            assert(b@ =~= t@.drop_first());
            Some(b)
        }
    } else {
        None
    }
}

fn is_blank(s: &str) -> (b: bool)
    ensures
        b == (trim(s@).len() == 0),
{
    let t = trim_str(s);
    t.as_str().is_empty()
}

/// Reads the body of a file (the lines after its preamble) into blocks;
/// `offset` is the number of preamble lines, so that each entry's handle is
/// its line number in the whole file.
pub fn parse_body(rest: &Vec<String>, offset: usize, is_system: bool) -> (r: Vec<Block>)
    requires
        offset + rest@.len() <= usize::MAX,
    ensures
        blocks_view(r@) == body_blocks(rest.deep_view(), offset as int, is_system),
{
    let ghost rv = rest.deep_view();
    let mut blocks: Vec<Block> = Vec::new();
    let mut buf: Vec<String> = Vec::new();
    let mut j: usize = 0;
    assert(rv.take(0) =~= Seq::<Seq<char>>::empty());
    assert(blocks_view(blocks@) =~= Seq::<BlockView>::empty());
    assert(buf.deep_view() =~= Seq::<Seq<char>>::empty());
    while j < rest.len()
        invariant
            j <= rest@.len() == rv.len(),
            rv == rest.deep_view(),
            offset + rest@.len() <= usize::MAX,
            (blocks_view(blocks@), buf.deep_view()) == body_fold(
                rv.take(j as int),
                offset as int,
                is_system,
            ),
        decreases rest@.len() - j,
    {
        let abs = offset + j;
        let raw = &rest[j];
        assert(rv[j as int] == raw@);
        assert(rv.take(j + 1).drop_last() =~= rv.take(j as int));
        assert(rv.take(j + 1).last() == raw@);
        let ghost bl0 = blocks_view(blocks@);
        let ghost buf0 = buf.deep_view();
        if is_blank(raw.as_str()) {
            flush_comments(&mut buf, &mut blocks);
            blocks.push(Block::Inert(raw.clone()));
            assert(blocks_view(blocks@) =~= (bl0 + flush(buf0)).push(BlockView::Inert(raw@)));
            assert(buf.deep_view() =~= Seq::<Seq<char>>::empty());
        } else {
            match comment_body_str(raw.as_str()) {
                Some(body) => {
                    match classify(body.as_str(), is_system) {
                        Some(parsed) => {
                            let comments = buf;
                            buf = Vec::new();
                            blocks.push(
                                Block::Entry(
                                    EntryBlock {
                                        comment_raw: comments,
                                        task_idx: abs,
                                        raw_task: raw.clone(),
                                        parsed,
                                        disabled: true,
                                    },
                                ),
                            );
                            assert(blocks_view(blocks@) =~= bl0.push(
                                BlockView::Entry {
                                    comments: buf0,
                                    idx: abs as int,
                                    raw: raw@,
                                    parsed: parsed_view(parsed),
                                    disabled: true,
                                },
                            ));
                            assert(buf.deep_view() =~= Seq::<Seq<char>>::empty());
                        },
                        None => {
                            if is_blank(body.as_str()) {
                                flush_comments(&mut buf, &mut blocks);
                                blocks.push(Block::Inert(raw.clone()));
                                assert(blocks_view(blocks@) =~= (bl0 + flush(buf0)).push(
                                    BlockView::Inert(raw@),
                                ));
                                assert(buf.deep_view() =~= Seq::<Seq<char>>::empty());
                            } else {
                                buf.push(raw.clone());
                                assert(buf.deep_view() =~= buf0.push(raw@));
                            }
                        },
                    }
                },
                None => {
                    match classify(raw.as_str(), is_system) {
                        Some(parsed) => {
                            let comments = buf;
                            buf = Vec::new();
                            blocks.push(
                                Block::Entry(
                                    EntryBlock {
                                        comment_raw: comments,
                                        task_idx: abs,
                                        raw_task: raw.clone(),
                                        parsed,
                                        disabled: false,
                                    },
                                ),
                            );
                            assert(blocks_view(blocks@) =~= bl0.push(
                                BlockView::Entry {
                                    comments: buf0,
                                    idx: abs as int,
                                    raw: raw@,
                                    parsed: parsed_view(parsed),
                                    disabled: false,
                                },
                            ));
                            assert(buf.deep_view() =~= Seq::<Seq<char>>::empty());
                        },
                        None => {
                            flush_comments(&mut buf, &mut blocks);
                            blocks.push(Block::Inert(raw.clone()));
                            assert(blocks_view(blocks@) =~= (bl0 + flush(buf0)).push(
                                BlockView::Inert(raw@),
                            ));
                            assert(buf.deep_view() =~= Seq::<Seq<char>>::empty());
                        },
                    }
                },
            }
        }
        j += 1;
    }
    assert(rv.take(rest@.len() as int) =~= rv);
    let ghost bl1 = blocks_view(blocks@);
    let ghost buf1 = buf.deep_view();
    flush_comments(&mut buf, &mut blocks);
    blocks
}

/// The text of a body: every line its blocks stand for.
pub fn serialize_body(blocks: &Vec<Block>) -> (r: String)
    ensures
        r@ == text_of(flatten(blocks_view(blocks@))),
{
    proof {
        reveal_strlit("\n");
    }
    let mut out = String::new();
    proof {
        crate::text::lemma_text_of_empty();
    }
    let ghost bv = blocks_view(blocks@);
    let mut i: usize = 0;
    assert(bv.take(0) =~= Seq::<BlockView>::empty());
    while i < blocks.len()
        invariant
            i <= blocks@.len() == bv.len(),
            bv == blocks_view(blocks@),
            out@ == text_of(flatten(bv.take(i as int))),
        decreases blocks@.len() - i,
    {
        assert(bv.take(i + 1).drop_last() =~= bv.take(i as int));
        assert(bv[i as int] == block_view(blocks@[i as int]));
        let ghost done = flatten(bv.take(i as int));
        match &blocks[i] {
            Block::Inert(raw) => {
                push_line(&mut out, raw, Ghost(done));
                assert(done.push(raw@) =~= done + seq![raw@]);
            },
            Block::Entry(e) => {
                let ghost cv = e.comment_raw.deep_view();
                let mut k: usize = 0;
                while k < e.comment_raw.len()
                    invariant
                        k <= e.comment_raw@.len() == cv.len(),
                        cv == e.comment_raw.deep_view(),
                        out@ == text_of(done + cv.take(k as int)),
                    decreases e.comment_raw@.len() - k,
                {
                    assert(cv[k as int] == e.comment_raw@[k as int]@);
                    push_line(&mut out, &e.comment_raw[k], Ghost(done + cv.take(k as int)));
                    assert((done + cv.take(k as int)).push(cv[k as int]) =~= done + cv.take(k + 1));
                    k += 1;
                }
                assert(cv.take(cv.len() as int) =~= cv);
                push_line(&mut out, &e.raw_task, Ghost(done + cv));
                assert((done + cv).push(e.raw_task@) =~= done + cv.push(e.raw_task@));
            },
        }
        assert(flatten(bv.take(i + 1)) == done + block_lines(bv[i as int]));
        i += 1;
    }
    assert(bv.take(bv.len() as int) =~= bv);
    out
}

/// Writing back what was read gives back the body's text, line for line.
pub proof fn lemma_parse_then_serialize(rest: Seq<Seq<char>>, offset: int, is_system: bool)
    ensures
        text_of(flatten(body_blocks(rest, offset, is_system))) == text_of(rest),
{
    lemma_body_lines_kept(rest, offset, is_system);
}

// ───────────────────────── preamble ─────────────────────────

/// The column-legend line that ends the preamble of `/etc/crontab`.
pub open spec fn legend_line(l: Seq<char>) -> bool {
    regex_match(r"^#\s*minute\s+hour\s+mday\s+month\s+wday\s+who\s+command"@, trim_start(l))
        == Some(true)
}

/// A header line that `crontab` writes at the top of a user's tab.
pub open spec fn tab_header_line(l: Seq<char>) -> bool {
    let t = trim_start(l);
    starts_with(t, "# DO NOT EDIT THIS FILE"@) || (starts_with(t, "# ("@) && (contains_sub(
        t,
        "installed on"@,
    ) || contains_sub(t, "Cron version"@)))
}

/// Index of the first legend line.
pub open spec fn first_legend(ls: Seq<Seq<char>>) -> Option<int>
    decreases ls.len(),
{
    if ls.len() == 0 {
        None
    } else if legend_line(ls[0]) {
        Some(0)
    } else {
        match first_legend(ls.drop_first()) {
            Some(i) => Some(i + 1),
            None => None,
        }
    }
}

/// Number of leading tab header lines.
pub open spec fn header_count(ls: Seq<Seq<char>>) -> nat
    decreases ls.len(),
{
    if ls.len() > 0 && tab_header_line(ls[0]) {
        1 + header_count(ls.drop_first())
    } else {
        0
    }
}

/// The preamble kept verbatim: in `/etc/crontab` everything up to and
/// including the legend line (nothing without one); in a user's tab the
/// leading header lines.
pub open spec fn preamble_spec(ls: Seq<Seq<char>>, is_system: bool) -> nat {
    if is_system {
        match first_legend(ls) {
            Some(i) => (i + 1) as nat,
            None => 0,
        }
    } else {
        header_count(ls)
    }
}

fn is_legend(l: &str) -> (b: bool)
    ensures
        b == legend_line(l@),
{
    let t = trim_start_str(l);
    match regex_is_match(r"^#\s*minute\s+hour\s+mday\s+month\s+wday\s+who\s+command", t.as_str()) {
        Some(m) => m,
        None => false,
    }
}

fn is_tab_header(l: &str) -> (b: bool)
    ensures
        b == tab_header_line(l@),
{
    let t = trim_start_str(l);
    starts_with_str(t.as_str(), "# DO NOT EDIT THIS FILE") || (starts_with_str(t.as_str(), "# (")
        && (contains_str(t.as_str(), "installed on") || contains_str(t.as_str(), "Cron version")))
}

pub fn preamble_len(lines: &Vec<String>, is_system: bool) -> (n: usize)
    ensures
        n as nat == preamble_spec(lines.deep_view(), is_system),
        n <= lines@.len(),
{
    let ghost lv = lines.deep_view();
    let mut i: usize = 0;
    assert(lv.skip(0) =~= lv);
    if is_system {
        while i < lines.len()
            invariant
                i <= lines@.len() == lv.len(),
                lv == lines.deep_view(),
                is_system,
                match first_legend(lv) {
                    Some(k) => match first_legend(lv.skip(i as int)) {
                        Some(m) => k == m + i,
                        None => false,
                    },
                    None => first_legend(lv.skip(i as int)) is None,
                },
            decreases lines@.len() - i,
        {
            assert(lv.skip(i as int)[0] == lv[i as int]);
            assert(lv[i as int] == lines@[i as int]@);
            if is_legend(lines[i].as_str()) {
                assert(first_legend(lv.skip(i as int)) == Some(0int));
                return i + 1;
            }
            assert(first_legend(lv.skip(i as int)) == match first_legend(lv.skip(i as int).drop_first()) {
                Some(m) => Some(m + 1),
                None => None::<int>,
            });
            assert(lv.skip(i as int).drop_first() =~= lv.skip(i + 1));
            i += 1;
        }
        assert(lv.skip(i as int).len() == 0);
        assert(first_legend(lv.skip(i as int)) is None);
        0
    } else {
        while i < lines.len()
            invariant
                i <= lines@.len() == lv.len(),
                lv == lines.deep_view(),
                !is_system,
                header_count(lv) == i + header_count(lv.skip(i as int)),
            decreases lines@.len() - i,
        {
            assert(lv.skip(i as int)[0] == lv[i as int]);
            assert(lv[i as int] == lines@[i as int]@);
            if !is_tab_header(lines[i].as_str()) {
                assert(header_count(lv.skip(i as int)) == 0);
                return i;
            }
            assert(lv.skip(i as int).drop_first() =~= lv.skip(i + 1));
            i += 1;
        }
        assert(header_count(lv.skip(i as int)) == 0);
        i
    }
}

// ───────────────────────── sources ─────────────────────────

/// The file a source names, and whether it is `/etc/crontab`.
pub open spec fn source_file(source: Seq<char>) -> (Seq<char>, bool) {
    if source == "system"@ {
        ("/etc/crontab"@, true)
    } else {
        ("/var/cron/tabs/"@ + source, false)
    }
}

/// A run-as user or tab owner: 1 to 32 letters, digits, `_`, `.`, `-`.
pub open spec fn cron_user_ok(name: Seq<char>) -> bool {
    regex_match(r"^[a-zA-Z0-9_.-]{1,32}$"@, name) == Some(true)
}

pub fn validate_username(name: &str) -> (r: ApiResult<()>)
    ensures
        r is Ok <==> cron_user_ok(name@),
        regex_match(r"^[a-zA-Z0-9_.-]{1,32}$"@, name@) == Some(false) ==> is_bad_request(
            r,
            "invalid username"@,
        ),
{
    match regex_is_match(r"^[a-zA-Z0-9_.-]{1,32}$", name) {
        Some(true) => Ok(()),
        Some(false) => bad_request("invalid username"),
        None => Err(ApiError::Internal(owned("user name pattern does not compile"))),
    }
}

/// `"system"` is `/etc/crontab`; any other source is a user's tab and must
/// be a valid user name.
pub fn source_path(source: &str) -> (r: ApiResult<(String, bool)>)
    ensures
        match r {
            Ok((p, sys)) => (p@, sys) == source_file(source@) && (sys || cron_user_ok(source@)),
            Err(_) => source@ != "system"@ && !cron_user_ok(source@),
        },
{
    if str_eq(source, "system") {
        return Ok((owned("/etc/crontab"), true));
    }
    validate_username(source)?;
    let mut p = owned("/var/cron/tabs/");
    push_str(&mut p, source);
    Ok((p, false))
}

// ───────────────────────── entries as the API shows them ─────────────────────────

/// The comment of an entry: its comment lines' text, joined by newlines.
pub open spec fn comment_of(raw: Seq<Seq<char>>) -> Seq<char> {
    join(raw.map_values(|l: Seq<char>| comment_text(l)), "\n"@)
}

/// `c` is what the API shows for the entry block `e` of `source`.
pub open spec fn cron_entry_of(c: CronEntry, source: Seq<char>, e: EntryBlock) -> bool {
    &&& c.source@ == source
    &&& c.line == e.task_idx
    &&& c.comment@ == comment_of(e.comment_raw.deep_view())
    &&& c.disabled == e.disabled
    &&& match e.parsed {
        Parsed::Schedule { minute, hour, dom, month, dow, user, command } => {
            &&& c.kind@ == "schedule"@
            &&& opt_view(c.minute) == Some(minute@)
            &&& opt_view(c.hour) == Some(hour@)
            &&& opt_view(c.dom) == Some(dom@)
            &&& opt_view(c.month) == Some(month@)
            &&& opt_view(c.dow) == Some(dow@)
            &&& c.special is None
            &&& opt_view(c.user) == opt_view(user)
            &&& c.command@ == command@
            &&& c.system_task == builtin_task(source, command@)
        },
        Parsed::Special { special, user, command } => {
            &&& c.kind@ == "special"@
            &&& c.minute is None && c.hour is None && c.dom is None && c.month is None
                && c.dow is None
            &&& opt_view(c.special) == Some(special@)
            &&& opt_view(c.user) == opt_view(user)
            &&& c.command@ == command@
            &&& c.system_task == builtin_task(source, command@)
        },
    }
}

fn clone_opt(o: &Option<String>) -> (r: Option<String>)
    ensures
        opt_view(r) == opt_view(*o),
{
    match o {
        Some(s) => Some(s.clone()),
        None => None,
    }
}

pub fn entry_to_cron(source: &str, e: &EntryBlock) -> (c: CronEntry)
    ensures
        cron_entry_of(c, source@, *e),
{
    let mut texts: Vec<String> = Vec::new();
    let ghost cv = e.comment_raw.deep_view();
    let mut i: usize = 0;
    while i < e.comment_raw.len()
        invariant
            i <= e.comment_raw@.len() == cv.len(),
            cv == e.comment_raw.deep_view(),
            texts.deep_view() == cv.take(i as int).map_values(|l: Seq<char>| comment_text(l)),
        decreases e.comment_raw@.len() - i,
    {
        let ghost t0 = texts.deep_view();
        assert(cv[i as int] == e.comment_raw@[i as int]@);
        let t = strip_comment(e.comment_raw[i].as_str());
        texts.push(t);
        assert(texts.deep_view() =~= t0.push(comment_text(cv[i as int])));
        assert(texts.deep_view() =~= cv.take(i + 1).map_values(|l: Seq<char>| comment_text(l)));
        i += 1;
    }
    assert(cv.take(cv.len() as int) =~= cv);
    let comment = join_strings(&texts, "\n");
    match &e.parsed {
        Parsed::Schedule { minute, hour, dom, month, dow, user, command } => {
            let system_task = is_freebsd_builtin(source, command.as_str());
            CronEntry {
                source: owned(source),
                line: e.task_idx,
                kind: owned("schedule"),
                minute: Some(minute.clone()),
                hour: Some(hour.clone()),
                dom: Some(dom.clone()),
                month: Some(month.clone()),
                dow: Some(dow.clone()),
                special: None,
                user: clone_opt(user),
                command: command.clone(),
                comment,
                disabled: e.disabled,
                system_task,
            }
        },
        Parsed::Special { special, user, command } => {
            let system_task = is_freebsd_builtin(source, command.as_str());
            CronEntry {
                source: owned(source),
                line: e.task_idx,
                kind: owned("special"),
                minute: None,
                hour: None,
                dom: None,
                month: None,
                dow: None,
                special: Some(special.clone()),
                user: clone_opt(user),
                command: command.clone(),
                comment,
                disabled: e.disabled,
                system_task,
            }
        },
    }
}

/// The entry blocks among `bs`, in order.
pub open spec fn entries_of(bs: Seq<Block>) -> Seq<EntryBlock>
    decreases bs.len(),
{
    if bs.len() == 0 {
        seq![]
    } else {
        match bs.last() {
            Block::Entry(e) => entries_of(bs.drop_last()).push(e),
            Block::Inert(_) => entries_of(bs.drop_last()),
        }
    }
}

/// The entries the API lists for the blocks of one source.
pub fn entries_for(source: &str, blocks: &Vec<Block>) -> (r: Vec<CronEntry>)
    ensures
        r@.len() == entries_of(blocks@).len(),
        forall|i: int|
            0 <= i < r@.len() ==> cron_entry_of(#[trigger] r@[i], source@, entries_of(blocks@)[i]),
{
    let mut out: Vec<CronEntry> = Vec::new();
    let mut i: usize = 0;
    assert(blocks@.take(0) =~= Seq::<Block>::empty());
    while i < blocks.len()
        invariant
            i <= blocks@.len(),
            out@.len() == entries_of(blocks@.take(i as int)).len(),
            forall|k: int|
                0 <= k < out@.len() ==> cron_entry_of(
                    #[trigger] out@[k],
                    source@,
                    entries_of(blocks@.take(i as int))[k],
                ),
        decreases blocks@.len() - i,
    {
        assert(blocks@.take(i + 1).drop_last() =~= blocks@.take(i as int));
        assert(blocks@.take(i + 1).last() == blocks@[i as int]);
        match &blocks[i] {
            Block::Entry(e) => {
                let c = entry_to_cron(source, e);
                out.push(c);
            },
            Block::Inert(_) => {},
        }
        i += 1;
    }
    assert(blocks@.take(blocks@.len() as int) =~= blocks@);
    out
}

/// The entries of a source, read from the text of its file.
pub fn parse_source(source: &str, content: &str, is_system: bool) -> (r: Vec<CronEntry>)
    ensures
        ({
            let ls = lines(content@);
            let n = preamble_spec(ls, is_system);
            exists|bs: Seq<Block>|
                blocks_view(bs) == body_blocks(ls.skip(n as int), n as int, is_system) && r@.len()
                    == entries_of(bs).len() && forall|i: int|
                    0 <= i < r@.len() ==> cron_entry_of(#[trigger] r@[i], source@, entries_of(bs)[i])
        }),
{
    let ls = split_lines(content);
    let plen = preamble_len(&ls, is_system);
    let mut rest: Vec<String> = Vec::new();
    let mut i = plen;
    while i < ls.len()
        invariant
            plen <= i <= ls@.len(),
            rest.deep_view() == ls.deep_view().subrange(plen as int, i as int),
        decreases ls@.len() - i,
    {
        let ghost r0 = rest.deep_view();
        assert(ls.deep_view()[i as int] == ls@[i as int]@);
        rest.push(ls[i].clone());
        assert(rest.deep_view() =~= r0.push(ls@[i as int]@));
        assert(rest.deep_view() =~= ls.deep_view().subrange(plen as int, i + 1));
        i += 1;
    }
    assert(ls.deep_view().subrange(plen as int, ls@.len() as int) =~= ls.deep_view().skip(
        plen as int,
    ));
    let blocks = parse_body(&rest, plen, is_system);
    let r = entries_for(source, &blocks);
    assert(blocks_view(blocks@) == body_blocks(lines(content@).skip(plen as int), plen as int, is_system));
    r
}

// ───────────────────────── validation ─────────────────────────

/// A line break or NUL.
pub open spec fn has_break(v: Seq<char>) -> bool {
    v.contains('\n') || v.contains('\r') || v.contains('\0')
}

fn has_break_str(v: &str) -> (b: bool)
    ensures
        b == has_break(v@),
{
    contains_char(v, '\n') || contains_char(v, '\r') || contains_char(v, '\0')
}

/// A time field: non-empty, at most 128 bytes, on one line.
pub open spec fn field_ok(v: Seq<char>) -> bool {
    v.len() > 0 && byte_len(v) <= 128 && !has_break(v)
}

pub fn validate_field(v: &str, name: &str) -> (r: ApiResult<()>)
    ensures
        r is Ok <==> field_ok(v@),
        v@.len() == 0 ==> is_bad_request(r, name@ + " must not be empty"@),
        v@.len() > 0 && !field_ok(v@) ==> is_bad_request(r, "invalid "@ + name@),
{
    if v.is_empty() {
        let mut m = owned(name);
        push_str(&mut m, " must not be empty");
        return bad_request_owned(m);
    }
    if bytes_exceed(v, 128) || has_break_str(v) {
        let mut m = owned("invalid ");
        push_str(&mut m, name);
        return bad_request_owned(m);
    }
    Ok(())
}

/// A command: non-empty once trimmed, at most 4096 bytes, on one line.
pub open spec fn command_ok(v: Seq<char>) -> bool {
    let t = trim(v);
    t.len() > 0 && byte_len(t) <= 4096 && !has_break(t)
}

pub fn validate_command(v: &str) -> (r: ApiResult<()>)
    ensures
        r is Ok <==> command_ok(v@),
        trim(v@).len() == 0 ==> is_bad_request(r, "command must not be empty"@),
        trim(v@).len() > 0 && !command_ok(v@) ==> is_bad_request(r, "invalid command"@),
{
    let t = trim_str(v);
    if t.as_str().is_empty() {
        return bad_request("command must not be empty");
    }
    if bytes_exceed(t.as_str(), 4096) || has_break_str(t.as_str()) {
        return bad_request("invalid command");
    }
    Ok(())
}

pub fn validate_special(sp: &str) -> (r: ApiResult<()>)
    ensures
        r is Ok <==> is_cron_alias(sp@),
        !is_cron_alias(sp@) ==> is_bad_request(r, "unknown schedule alias: "@ + sp@),
{
    if !is_cron_alias_str(sp) {
        let mut m = owned("unknown schedule alias: ");
        push_str(&mut m, sp);
        return bad_request_owned(m);
    }
    Ok(())
}

/// A comment: no NUL, at most 2000 bytes.
pub open spec fn cron_comment_ok(c: Seq<char>) -> bool {
    !c.contains('\0') && byte_len(c) <= 2000
}

pub fn validate_comment(c: &str) -> (r: ApiResult<()>)
    ensures
        r is Ok <==> cron_comment_ok(c@),
        !cron_comment_ok(c@) ==> is_bad_request(r, "invalid comment"@),
{
    if contains_char(c, '\0') || bytes_exceed(c, 2000) {
        return bad_request("invalid comment");
    }
    Ok(())
}

// ───────────────────────── building a task line ─────────────────────────

pub open spec fn or_star(o: Option<String>) -> Seq<char> {
    match o {
        Some(s) => s@,
        None => "*"@,
    }
}

pub open spec fn user_or_empty(o: Option<String>) -> Seq<char> {
    match o {
        Some(s) => trim(s@),
        None => seq![],
    }
}

/// Whether the input names an `@`-alias (an empty alias counts as none).
pub open spec fn uses_special(input: EntryInput) -> bool {
    input.special matches Some(sp) && sp@.len() > 0
}

/// The fields of `input` pass validation.
pub open spec fn task_input_ok(input: EntryInput, is_system: bool) -> bool {
    &&& command_ok(trim(input.command@))
    &&& if uses_special(input) {
        is_cron_alias(input.special->Some_0@)
    } else {
        field_ok(or_star(input.minute)) && field_ok(or_star(input.hour)) && field_ok(
            or_star(input.dom),
        ) && field_ok(or_star(input.month)) && field_ok(or_star(input.dow))
    }
    &&& is_system ==> cron_user_ok(user_or_empty(input.user))
}

/// The task line for `input`: the alias or the five fields, the user for
/// `/etc/crontab`, then the trimmed command, separated by single spaces.
pub open spec fn task_line(input: EntryInput, is_system: bool) -> Seq<char> {
    let cmd = trim(input.command@);
    let user_part = if is_system {
        user_or_empty(input.user) + " "@
    } else {
        seq![]
    };
    if uses_special(input) {
        input.special->Some_0@ + " "@ + user_part + cmd
    } else {
        or_star(input.minute) + " "@ + or_star(input.hour) + " "@ + or_star(input.dom) + " "@
            + or_star(input.month) + " "@ + or_star(input.dow) + " "@ + user_part + cmd
    }
}

/// Cron reads a schedule from a line's first five words.
proof fn lemma_schedule_words(line: Seq<char>, is_system: bool)
    ensures
        classify_spec(line, is_system) matches Some(ParsedView::Schedule { minute, hour, dom, month, dow, .. })
            ==> words(line).len() >= 5 && minute == words(line)[0] && hour == words(line)[1] && dom == words(
            line,
        )[2] && month == words(line)[3] && dow == words(line)[4],
{
}

#[verifier::spinoff_prover]
#[verifier::rlimit(80)]
proof fn lemma_task_words(input: EntryInput, is_system: bool)
    requires
        !uses_special(input),
        crate::text::is_word(or_star(input.minute)),
        crate::text::is_word(or_star(input.hour)),
        crate::text::is_word(or_star(input.dom)),
        crate::text::is_word(or_star(input.month)),
        crate::text::is_word(or_star(input.dow)),
    ensures
        ({
            let w = words(task_line(input, is_system));
            &&& w.len() >= 5
            &&& w[0] == or_star(input.minute)
            &&& w[1] == or_star(input.hour)
            &&& w[2] == or_star(input.dom)
            &&& w[3] == or_star(input.month)
            &&& w[4] == or_star(input.dow)
        }),
{
    let m = or_star(input.minute);
    let h = or_star(input.hour);
    let d = or_star(input.dom);
    let mo = or_star(input.month);
    let dw = or_star(input.dow);
    let cmd = trim(input.command@);
    let user_part = if is_system {
        user_or_empty(input.user) + " "@
    } else {
        seq![]
    };
    let rest = user_part + cmd;
    let r4 = dw + " "@ + rest;
    let r3 = mo + " "@ + r4;
    let r2 = d + " "@ + r3;
    let r1 = h + " "@ + r2;
    assert(task_line(input, is_system) == m + " "@ + h + " "@ + d + " "@ + mo + " "@ + dw + " "@ + user_part
        + cmd);
    assert(task_line(input, is_system) =~= m + " "@ + r1);
    crate::text::lemma_words_cons(m, r1);
    crate::text::lemma_words_cons(h, r2);
    crate::text::lemma_words_cons(d, r3);
    crate::text::lemma_words_cons(mo, r4);
    crate::text::lemma_words_cons(dw, rest);
    let w = words(task_line(input, is_system));
    assert(w =~= seq![m, h, d, mo, dw] + words(rest));
}

/// A task line puts the five schedule fields first, in cron's order:
/// minute, hour, day of month, month, day of week (each the input's or
/// `*`); cron reads them back as those five, whenever the fields are single
/// tokens.
pub proof fn lemma_task_schedule_order(input: EntryInput, is_system: bool)
    requires
        !uses_special(input),
        crate::text::is_word(or_star(input.minute)),
        crate::text::is_word(or_star(input.hour)),
        crate::text::is_word(or_star(input.dom)),
        crate::text::is_word(or_star(input.month)),
        crate::text::is_word(or_star(input.dow)),
    ensures
        ({
            let w = words(task_line(input, is_system));
            &&& w.len() >= 5
            &&& w[0] == or_star(input.minute)
            &&& w[1] == or_star(input.hour)
            &&& w[2] == or_star(input.dom)
            &&& w[3] == or_star(input.month)
            &&& w[4] == or_star(input.dow)
        }),
        classify_spec(task_line(input, is_system), is_system) matches Some(
            ParsedView::Schedule { minute, hour, dom, month, dow, .. },
        ) ==> minute == or_star(input.minute) && hour == or_star(input.hour) && dom == or_star(input.dom)
            && month == or_star(input.month) && dow == or_star(input.dow),
{
    lemma_task_words(input, is_system);
    lemma_schedule_words(task_line(input, is_system), is_system);
}

/// A task line ends with the trimmed command, after a space; an alias
/// entry starts with its alias.
pub proof fn lemma_task_line_ends(input: EntryInput, is_system: bool)
    ensures
        ends_with(task_line(input, is_system), " "@ + trim(input.command@)),
        uses_special(input) ==> starts_with(task_line(input, is_system), input.special->Some_0@ + " "@),
{
    let cmd = trim(input.command@);
    let line = task_line(input, is_system);
    let user_part = if is_system {
        user_or_empty(input.user) + " "@
    } else {
        seq![]
    };
    let head = if uses_special(input) {
        input.special->Some_0@ + " "@ + user_part
    } else {
        or_star(input.minute) + " "@ + or_star(input.hour) + " "@ + or_star(input.dom) + " "@
            + or_star(input.month) + " "@ + or_star(input.dow) + " "@ + user_part
    };
    assert(line =~= head + cmd);
    reveal_strlit(" ");
    if is_system {
        assert(head =~= head.drop_last() + " "@);
    } else if uses_special(input) {
        assert(head =~= input.special->Some_0@ + " "@);
    } else {
        assert(head =~= head.drop_last() + " "@);
    }
    assert(line.skip(line.len() - (" "@ + cmd).len()) =~= " "@ + cmd);
    if uses_special(input) {
        let pre = input.special->Some_0@ + " "@;
        assert(line.take(pre.len() as int) =~= pre);
    }
}

fn field_or_star(o: &Option<String>) -> (r: String)
    ensures
        r@ == or_star(*o),
{
    match o {
        Some(s) => s.clone(),
        None => owned("*"),
    }
}

/// Validates an entry's fields and builds its task line (without the `#` of
/// a disabled entry) with its reading. A line that validates but that cron
/// would not read as a task (a field holding spaces or letters) is refused.
pub fn build_task(input: &EntryInput, is_system: bool) -> (r: ApiResult<(String, Parsed)>)
    ensures
        r is Ok <==> (task_input_ok(*input, is_system) && classify_spec(
            task_line(*input, is_system),
            is_system,
        ) is Some),
        r matches Ok((line, p)) ==> line@ == task_line(*input, is_system) && classify_spec(
            line@,
            is_system,
        ) == Some(parsed_view(p)),
        task_input_ok(*input, is_system) && classify_spec(task_line(*input, is_system), is_system)
            is None ==> is_bad_request(r, "invalid schedule: "@ + task_line(*input, is_system)),
{
    let cmd = trim_str(input.command.as_str());
    proof {
        crate::text::lemma_trim_idempotent(input.command@);
    }
    validate_command(cmd.as_str())?;
    let mut line = String::new();
    let special = match &input.special {
        Some(sp) => {
            if sp.as_str().is_empty() {
                None
            } else {
                Some(sp)
            }
        },
        None => None,
    };
    match special {
        Some(sp) => {
            validate_special(sp.as_str())?;
            push_str(&mut line, sp.as_str());
            push_str(&mut line, " ");
        },
        None => {
            let m = field_or_star(&input.minute);
            let h = field_or_star(&input.hour);
            let dom = field_or_star(&input.dom);
            let mo = field_or_star(&input.month);
            let dow = field_or_star(&input.dow);
            validate_field(m.as_str(), "minute")?;
            validate_field(h.as_str(), "hour")?;
            validate_field(dom.as_str(), "day of month")?;
            validate_field(mo.as_str(), "month")?;
            validate_field(dow.as_str(), "day of week")?;
            push_str(&mut line, m.as_str());
            push_str(&mut line, " ");
            push_str(&mut line, h.as_str());
            push_str(&mut line, " ");
            push_str(&mut line, dom.as_str());
            push_str(&mut line, " ");
            push_str(&mut line, mo.as_str());
            push_str(&mut line, " ");
            push_str(&mut line, dow.as_str());
            push_str(&mut line, " ");
        },
    }
    if is_system {
        let user = match &input.user {
            Some(u) => trim_str(u.as_str()),
            None => String::new(),
        };
        validate_username(user.as_str())?;
        push_str(&mut line, user.as_str());
        push_str(&mut line, " ");
    }
    push_str(&mut line, cmd.as_str());
    assert(line@ =~= task_line(*input, is_system));
    match classify(line.as_str(), is_system) {
        Some(p) => Ok((line, p)),
        None => {
            let mut m = owned("invalid schedule: ");
            push_str(&mut m, line.as_str());
            Err(ApiError::BadRequest(m))
        },
    }
}

/// The comment lines for an edited comment: one `# line` per row that is
/// not blank, trailing blanks removed.
pub open spec fn comment_lines(c: Seq<Seq<char>>) -> Seq<Seq<char>>
    decreases c.len(),
{
    if c.len() == 0 {
        seq![]
    } else {
        let l = trim_end(c.last());
        comment_lines(c.drop_last()) + if trim(l).len() > 0 {
            seq!["# "@ + l]
        } else {
            seq![]
        }
    }
}

pub fn build_comment_lines(comment: &str) -> (r: Vec<String>)
    ensures
        r.deep_view() == comment_lines(lines(comment@)),
{
    let ls = split_lines(comment);
    let ghost lv = ls.deep_view();
    let mut out: Vec<String> = Vec::new();
    let mut i: usize = 0;
    assert(lv.take(0) =~= Seq::<Seq<char>>::empty());
    while i < ls.len()
        invariant
            i <= ls@.len() == lv.len(),
            lv == ls.deep_view(),
            out.deep_view() == comment_lines(lv.take(i as int)),
        decreases ls@.len() - i,
    {
        assert(lv[i as int] == ls@[i as int]@);
        assert(lv.take(i + 1).drop_last() =~= lv.take(i as int));
        let l = trim_end_str(ls[i].as_str());
        let ghost o0 = out.deep_view();
        if !is_blank(l.as_str()) {
            let mut c = owned("# ");
            push_str(&mut c, l.as_str());
            out.push(c);
            assert(out.deep_view() =~= o0 + seq!["# "@ + l@]);
        } else {
            assert(out.deep_view() =~= o0 + Seq::<Seq<char>>::empty());
        }
        i += 1;
    }
    assert(lv.take(lv.len() as int) =~= lv);
    out
}

// ───────────────────────── editing ─────────────────────────

/// Block `i` is the entry whose handle is `line`.
pub open spec fn entry_at(bs: Seq<Block>, i: int, line: usize) -> bool {
    bs[i] matches Block::Entry(e) && e.task_idx == line
}

/// `i` is the first position holding the entry whose handle is `line`.
pub open spec fn first_entry_at(bs: Seq<Block>, i: int, line: usize) -> bool {
    0 <= i < bs.len() && entry_at(bs, i, line) && forall|k: int|
        0 <= k < i ==> !#[trigger] entry_at(bs, k, line)
}

/// Position of the entry whose handle is `line`.
pub open spec fn entry_position(bs: Seq<Block>, line: usize) -> Option<int> {
    if exists|i: int| 0 <= i < bs.len() && #[trigger] entry_at(bs, i, line) {
        Some(choose|i: int| first_entry_at(bs, i, line))
    } else {
        None
    }
}

pub proof fn lemma_entry_position(bs: Seq<Block>, line: usize, i: int)
    requires
        first_entry_at(bs, i, line),
    ensures
        entry_position(bs, line) == Some(i),
{
    assert(entry_at(bs, i, line));
    let w = choose|w: int| first_entry_at(bs, w, line);
    assert(first_entry_at(bs, w, line));
    if w < i {
        assert(!entry_at(bs, w, line));
    } else if w > i {
        assert(!entry_at(bs, i, line));
    }
}

pub fn find_entry(blocks: &Vec<Block>, line: usize) -> (r: Option<usize>)
    ensures
        match r {
            Some(i) => first_entry_at(blocks@, i as int, line) && entry_position(blocks@, line)
                == Some(i as int),
            None => entry_position(blocks@, line) is None,
        },
{
    let mut i: usize = 0;
    while i < blocks.len()
        invariant
            i <= blocks@.len(),
            forall|k: int| 0 <= k < i ==> !#[trigger] entry_at(blocks@, k, line),
        decreases blocks@.len() - i,
    {
        match &blocks[i] {
            Block::Entry(e) => {
                if e.task_idx == line {
                    assert(first_entry_at(blocks@, i as int, line));
                    proof {
                        lemma_entry_position(blocks@, line, i as int);
                    }
                    return Some(i);
                }
            },
            Block::Inert(_) => {},
        }
        assert(!entry_at(blocks@, i as int, line));
        i += 1;
    }
    assert forall|k: int| !(0 <= k < blocks@.len() && #[trigger] entry_at(blocks@, k, line)) by {}
    None
}

/// The line written for an entry: the task line, commented out when
/// disabled.
pub open spec fn written_task_line(body: Seq<char>, disabled: bool) -> Seq<char> {
    if disabled {
        "# "@ + body
    } else {
        body
    }
}

fn new_entry(input: &EntryInput, is_system: bool, task_idx: usize) -> (r: ApiResult<EntryBlock>)
    ensures
        match r {
            Ok(e) => task_input_ok(*input, is_system) && classify_spec(
                task_line(*input, is_system),
                is_system,
            ) == Some(parsed_view(e.parsed)) && e.task_idx == task_idx && e.raw_task@
                == written_task_line(task_line(*input, is_system), input.disabled == Some(true))
                && e.disabled == (input.disabled == Some(true)) && e.comment_raw.deep_view()
                == comment_lines(lines(input.comment@)),
            Err(_) => !(task_input_ok(*input, is_system) && classify_spec(
                task_line(*input, is_system),
                is_system,
            ) is Some),
        },
{
    let (body, parsed) = build_task(input, is_system)?;
    let disabled = match input.disabled {
        Some(d) => d,
        None => false,
    };
    let raw_task = if disabled {
        let mut t = owned("# ");
        push_str(&mut t, body.as_str());
        t
    } else {
        body
    };
    let comment_raw = build_comment_lines(input.comment.as_str());
    Ok(EntryBlock { comment_raw, task_idx, raw_task, parsed, disabled })
}

/// Adds an entry at the end; its handle is the number of lines the file had.
pub fn add_entry(blocks: &mut Vec<Block>, input: &EntryInput, is_system: bool, n_lines: usize) -> (r:
    ApiResult<()>)
    ensures
        r is Ok ==> final(blocks)@.len() == old(blocks)@.len() + 1 && final(blocks)@.take(
            old(blocks)@.len() as int,
        ) == old(blocks)@ && (final(blocks)@.last() matches Block::Entry(e) && e.task_idx
            == n_lines && e.raw_task@ == written_task_line(
            task_line(*input, is_system),
            input.disabled == Some(true),
        )),
        r is Err ==> final(blocks)@ == old(blocks)@,
        r is Ok <==> (validate_ok(input, is_system)),
{
    let e = new_entry(input, is_system, n_lines)?;
    blocks.push(Block::Entry(e));
    assert(blocks@.take(blocks@.len() - 1) =~= old(blocks)@);
    Ok(())
}

/// An entry can be built from `input`.
pub open spec fn validate_ok(input: &EntryInput, is_system: bool) -> bool {
    task_input_ok(*input, is_system) && classify_spec(task_line(*input, is_system), is_system) is Some
}

/// Replaces the entry with handle `line`, keeping its handle.
pub fn update_entry(blocks: &mut Vec<Block>, line: usize, input: &EntryInput, is_system: bool) -> (r:
    ApiResult<()>)
    ensures
        r is Err ==> final(blocks)@ == old(blocks)@,
        entry_position(old(blocks)@, line) is None ==> (r matches Err(ApiError::NotFound(m)) && m@
            == "crontab line not found"@),
        r is Ok <==> (entry_position(old(blocks)@, line) is Some && validate_ok(input, is_system)),
        r is Ok ==> ({
            let i = entry_position(old(blocks)@, line)->Some_0;
            &&& final(blocks)@.len() == old(blocks)@.len()
            &&& forall|k: int|
                0 <= k < old(blocks)@.len() && k != i ==> final(blocks)@[k] == old(blocks)@[k]
            &&& final(blocks)@[i] matches Block::Entry(e) && e.task_idx == line
                && e.raw_task@ == written_task_line(
                task_line(*input, is_system),
                input.disabled == Some(true),
            )
        }),
{
    let idx = match find_entry(blocks, line) {
        Some(i) => i,
        None => {
            return Err(ApiError::NotFound(owned("crontab line not found")));
        },
    };
    let e = new_entry(input, is_system, line)?;
    blocks.set(idx, Block::Entry(e));
    Ok(())
}

/// Removes the entry with handle `line`.
pub fn delete_entry(blocks: &mut Vec<Block>, line: usize) -> (r: ApiResult<()>)
    ensures
        r is Ok <==> entry_position(old(blocks)@, line) is Some,
        r is Err ==> final(blocks)@ == old(blocks)@ && (r matches Err(ApiError::NotFound(m)) && m@
            == "crontab line not found"@),
        r is Ok ==> final(blocks)@ == old(blocks)@.remove(entry_position(old(blocks)@, line)->Some_0),
{
    let idx = match find_entry(blocks, line) {
        Some(i) => i,
        None => {
            return Err(ApiError::NotFound(owned("crontab line not found")));
        },
    };
    blocks.remove(idx);
    Ok(())
}

// ───────────────────────── writing back ─────────────────────────

/// What writing a source back does.
#[derive(Debug, Clone)]
pub enum WritePlan {
    /// Replace `/etc/crontab` with this text.
    ReplaceFile(String),
    /// Install this text as the user's tab with `crontab -u <user> -`.
    InstallTab(String),
    /// Remove the user's tab: no line is left in it.
    RemoveTab,
}

/// `/etc/crontab` is written whole, preamble first; a user's tab is handed
/// to `crontab`, which writes its own header, or removed when its body is
/// blank.
pub fn write_source(is_system: bool, preamble: &Vec<String>, blocks: &Vec<Block>) -> (p: WritePlan)
    ensures
        is_system ==> (p matches WritePlan::ReplaceFile(t) && t@ == text_of(preamble.deep_view())
            + text_of(flatten(blocks_view(blocks@)))),
        !is_system && trim(text_of(flatten(blocks_view(blocks@)))).len() == 0 ==> p is RemoveTab,
        !is_system && trim(text_of(flatten(blocks_view(blocks@)))).len() > 0 ==> (p matches WritePlan::InstallTab(t)
            && t@ == text_of(flatten(blocks_view(blocks@)))),
{
    let body = serialize_body(blocks);
    if is_system {
        let mut full = String::new();
        proof {
            crate::text::lemma_text_of_empty();
        }
        let ghost pv = preamble.deep_view();
        let mut i: usize = 0;
        assert(pv.take(0) =~= Seq::<Seq<char>>::empty());
        while i < preamble.len()
            invariant
                i <= preamble@.len() == pv.len(),
                pv == preamble.deep_view(),
                full@ == text_of(pv.take(i as int)),
            decreases preamble@.len() - i,
        {
            assert(pv[i as int] == preamble@[i as int]@);
            push_line(&mut full, &preamble[i], Ghost(pv.take(i as int)));
            assert(pv.take(i as int).push(pv[i as int]) =~= pv.take(i + 1));
            i += 1;
        }
        assert(pv.take(pv.len() as int) =~= pv);
        push_str(&mut full, body.as_str());
        WritePlan::ReplaceFile(full)
    } else if is_blank(body.as_str()) {
        WritePlan::RemoveTab
    } else {
        WritePlan::InstallTab(body)
    }
}

} // verus!
