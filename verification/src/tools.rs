//! Built-in tools and the tool router, as far as they decide: which path a
//! request may touch, what an edit does to a file's text, how a read file is
//! shown, and what a shell command's output becomes. Reading, writing and
//! running are done by whoever holds the tools, with what these functions
//! say.
use vstd::prelude::*;

use crate::error::SakamotoError;
use crate::json::{json_parse_default, json_parse_or_null, JsonField};
use crate::llm::ToolDef;
use crate::paths::{
    components_of, file_name_of, is_absolute_path, parent_of, path_components, path_file_name, path_is_absolute,
    path_parent, path_push, path_starts_with, path_strip_prefix, pushed, starts_with_path, stripped_of,
};
use crate::scan::{has_at, lit_at, slice_chars};
use crate::strmap::StrMap;
use crate::text::{
    chars_of, decimal, decimal_chars, extend_chars, extend_str, i64_to_chars, lines, signed_decimal,
    split_lines, string_of, to_owned_string,
};

verus! {

broadcast use vstd::utf8::encode_utf8_decode_utf8;

// ---------------------------------------------------------------------------
// Shared
// ---------------------------------------------------------------------------

/// Whether `e` is the failure of tool `tool` for reason `reason`.
pub open spec fn is_failure(e: SakamotoError, tool: Seq<char>, reason: Seq<char>) -> bool {
    e matches SakamotoError::ToolCallFailed { tool: t, reason: r } && t@ == tool && r@ == reason
}

fn failure(tool: &str, reason: Vec<char>) -> (e: SakamotoError)
    ensures
        is_failure(e, tool@, reason@),
{
    SakamotoError::ToolCallFailed { tool: to_owned_string(tool), reason: string_of(reason.as_slice()) }
}

/// Where a requested path points before any check: an absolute path as it
/// is, a relative one under the root.
pub open spec fn requested(root: Seq<char>, file_path: Seq<char>) -> Seq<char> {
    if is_absolute_path(file_path) {
        file_path
    } else {
        pushed(root, file_path)
    }
}

/// The path a request names, resolved against the root.
pub fn request_path(root: &str, file_path: &str) -> (r: String)
    ensures
        r@ == requested(root@, file_path@),
{
    if path_is_absolute(file_path) {
        to_owned_string(file_path)
    } else {
        path_push(root, file_path)
    }
}

/// The `path` field of a tool's input: an error when it is not a string.
pub fn path_field(tool: &str, field: &JsonField) -> (r: Result<String, SakamotoError>)
    ensures
        field.as_str_view() is Some <==> r is Ok,
        r matches Ok(p) ==> field.as_str_view() == Some(p@),
        r matches Err(e) ==> is_failure(e, tool@, "missing 'path' field"@),
{
    match field.text() {
        Some(p) => Ok(p.clone()),
        None => Err(failure(tool, chars_of("missing 'path' field"))),
    }
}

/// `{prefix}'{path}'{suffix}`, the shape of most path messages.
pub open spec fn quoted(prefix: Seq<char>, path: Seq<char>, suffix: Seq<char>) -> Seq<char> {
    prefix + "'"@ + path + "'"@ + suffix
}

fn quoted_chars(prefix: &str, path: &str, suffix: &[char]) -> (v: Vec<char>)
    ensures
        v@ == quoted(prefix@, path@, suffix@),
{
    let mut v = chars_of(prefix);
    extend_str(&mut v, "'");
    extend_str(&mut v, path);
    extend_str(&mut v, "'");
    extend_chars(&mut v, suffix);
    proof {
        reveal_strlit("'");
    }
    v
}

fn concat_chars(a: &str, b: &str) -> (v: Vec<char>)
    ensures
        v@ == a@ + b@,
{
    let mut v = chars_of(a);
    extend_str(&mut v, b);
    v
}

/// A failure whose reason is `quoted(prefix, path, suffix)`.
fn path_failure(tool: &str, prefix: &str, path: &str, suffix: &str) -> (e: SakamotoError)
    ensures
        is_failure(e, tool@, quoted(prefix@, path@, suffix@)),
{
    let s = chars_of(suffix);
    failure(tool, quoted_chars(prefix, path, s.as_slice()))
}

/// A failure whose reason is `quoted(prefix, path, ": " + detail)`.
fn path_failure_detail(tool: &str, prefix: &str, path: &str, detail: &str) -> (e: SakamotoError)
    ensures
        is_failure(e, tool@, quoted(prefix@, path@, ": "@ + detail@)),
{
    let mut s = chars_of(": ");
    extend_str(&mut s, detail);
    failure(tool, quoted_chars(prefix, path, s.as_slice()))
}

/// A failure whose reason is `prefix + detail`.
fn detail_failure(tool: &str, prefix: &str, detail: &str) -> (e: SakamotoError)
    ensures
        is_failure(e, tool@, prefix@ + detail@),
{
    let mut s = chars_of(prefix);
    extend_str(&mut s, detail);
    failure(tool, s)
}

// ---------------------------------------------------------------------------
// fs_read
// ---------------------------------------------------------------------------

/// A tool that reads file contents with optional line ranges.
#[derive(Debug, Clone)]
pub struct FsReadTool {
    /// Root directory: all paths are resolved relative to it.
    pub root: String,
}

/// The line number as `{:>6}` writes it: right-aligned in six columns.
pub open spec fn padded_number(n: nat) -> Seq<char> {
    let d = decimal(n);
    if d.len() < 6 {
        Seq::new((6 - d.len()) as nat, |i: int| ' ') + d
    } else {
        d
    }
}

/// A line as shown: lines of more than 2000 bytes are cut after their first
/// 2000 bytes and marked.
pub open spec fn shown_line(l: Seq<char>) -> Seq<char> {
    let b = vstd::utf8::encode_utf8(l);
    if b.len() > 2000 {
        vstd::utf8::decode_utf8(b.subrange(0, 2000)) + "... [truncated]"@
    } else {
        l
    }
}

/// Whether a line can be shown: a line of more than 2000 bytes has a
/// character boundary at byte 2000 (where it is cut).
pub open spec fn showable(l: Seq<char>) -> bool {
    let b = vstd::utf8::encode_utf8(l);
    &&& b.len() <= usize::MAX
    &&& b.len() > 2000 ==> vstd::utf8::is_char_boundary(b, 2000)
}

/// The numbered lines `start..end` (0-based) of `ls`.
pub open spec fn numbered(ls: Seq<Seq<char>>, start: int, end: int) -> Seq<char>
    decreases end - start,
{
    if end <= start {
        Seq::empty()
    } else {
        numbered(ls, start, end - 1) + padded_number((end - 1 + 1) as nat) + "\t"@ + shown_line(ls[end - 1])
            + "\n"@
    }
}

/// The first line to show (0-based) and the end of the window.
pub open spec fn read_window(total: int, offset: Option<u64>, limit: Option<u64>) -> (int, int) {
    let off = match offset {
        Some(o) => if o >= 1 { o } else { 1 },
        None => 1,
    } as usize;
    let lim = match limit {
        Some(l) => l,
        None => 2000,
    } as usize;
    let start = if off - 1 < total { off - 1 } else { total };
    let end = if start + lim < total { start + lim } else { total };
    (start, end)
}

/// What fs_read shows of a file: the numbered lines of the window, a note
/// on the lines after it, or a note that nothing was shown.
pub open spec fn read_output(content: Seq<char>, offset: Option<u64>, limit: Option<u64>) -> Seq<char> {
    let ls = lines(content);
    let (start, end) = read_window(ls.len() as int, offset, limit);
    let body = numbered(ls, start, end);
    let out = if end < ls.len() {
        body + "\n["@ + decimal((ls.len() - end) as nat)
            + " more lines not shown \u{2014} use offset/limit to read further]\n"@
    } else {
        body
    };
    if out.len() == 0 {
        "[file is empty: "@ + decimal(ls.len()) + " total lines]\n"@
    } else {
        out
    }
}

/// Whether fs_read can show a file with this window: the window's end does
/// not overflow, and every line in it can be shown.
pub open spec fn read_ok(content: Seq<char>, offset: Option<u64>, limit: Option<u64>) -> bool {
    let ls = lines(content);
    let off = match offset {
        Some(o) => if o >= 1 { o } else { 1 },
        None => 1,
    } as usize;
    let lim = match limit {
        Some(l) => l,
        None => 2000,
    } as usize;
    let start = if off - 1 < ls.len() { off - 1 } else { ls.len() as int };
    let end = if start + lim < ls.len() { start + lim } else { ls.len() as int };
    &&& off >= 1
    &&& start + lim <= usize::MAX
    &&& forall|k: int| start <= k < end ==> showable(#[trigger] ls[k])
}

fn padded_number_chars(n: usize) -> (v: Vec<char>)
    ensures
        v@ == padded_number(n as nat),
{
    let d = decimal_chars(n as u64);
    if d.len() < 6 {
        let mut v: Vec<char> = Vec::new();
        let pad = 6 - d.len();
        let mut i: usize = 0;
        while i < pad
            invariant
                i <= pad,
                v@ == Seq::new(i as nat, |j: int| ' '),
            decreases pad - i,
        {
            v.push(' ');
            proof {
                assert(v@ =~= Seq::new((i + 1) as nat, |j: int| ' '));
            }
            i = i + 1;
        }
        extend_chars(&mut v, d.as_slice());
        v
    } else {
        d
    }
}

fn shown_line_chars(l: &Vec<char>) -> (v: Vec<char>)
    requires
        showable(l@),
    ensures
        v@ == shown_line(l@),
{
    let s = string_of(l.as_slice());
    let n = s.as_str().len();
    if n > 2000 {
        let (head, _) = s.as_str().split_at(2000);
        let mut v = chars_of(head);
        extend_str(&mut v, "... [truncated]");
        proof {
            assert(head@ == vstd::utf8::decode_utf8(vstd::utf8::encode_utf8(head@)));
        }
        v
    } else {
        let mut v: Vec<char> = Vec::new();
        extend_chars(&mut v, l.as_slice());
        v
    }
}

/// The JSON schema of the input of `fs_read`.
pub const FS_READ_SCHEMA: &'static str = "{\"type\":\"object\",\"properties\":{\"path\":{\"type\":\"string\",\"description\":\"File path (relative to working directory or absolute)\"},\"offset\":{\"type\":\"integer\",\"description\":\"Line number to start reading from (1-based, default: 1)\"},\"limit\":{\"type\":\"integer\",\"description\":\"Maximum number of lines to return (default: 2000)\"}},\"required\":[\"path\"]}";

impl FsReadTool {
    /// The definition under which the tool is offered: its name, what it
    /// does, and the schema of its input.
    pub fn definition(&self) -> (d: ToolDef)
        ensures
            d.name@ == "fs_read"@,
            d.description@ == "Read a file's contents with optional line range. Returns numbered lines."@,
            d.input_schema == json_parse_default(FS_READ_SCHEMA@),
    {
        ToolDef {
            name: to_owned_string("fs_read"),
            description: to_owned_string("Read a file's contents with optional line range. Returns numbered lines."),
            input_schema: json_parse_or_null(FS_READ_SCHEMA),
        }
    }
}

impl FsReadTool {
    /// Create a new fs_read tool rooted at the given directory.
    pub fn new(root: &str) -> (t: FsReadTool)
        ensures
            t.root@ == root@,
    {
        FsReadTool { root: to_owned_string(root) }
    }

    /// Resolve and validate a path, preventing directory traversal: the
    /// canonical form of the requested path (what canonicalizing
    /// `request_path(root, file_path)` gave) must lie under the canonical
    /// root (what canonicalizing the root gave). Each canonicalization is
    /// given as its result or its error's text.
    pub fn resolve_path(
        &self,
        file_path: &str,
        canonical: Result<String, String>,
        canonical_root: Result<String, String>,
    ) -> (r: Result<String, SakamotoError>)
        ensures
            match canonical {
                Err(e) => r matches Err(x) && is_failure(
                    x,
                    "fs_read"@,
                    quoted("cannot resolve path "@, file_path@, ": "@ + e@),
                ),
                Ok(c) => match canonical_root {
                    Err(e) => r matches Err(x) && is_failure(x, "fs_read"@, "cannot resolve root: "@ + e@),
                    Ok(root) => if starts_with_path(c@, root@) {
                        r == Ok::<String, SakamotoError>(c)
                    } else {
                        r matches Err(x) && is_failure(
                            x,
                            "fs_read"@,
                            quoted("path "@, file_path@, " is outside the working directory"@),
                        )
                    },
                },
            },
    {
        let c = match canonical {
            Err(e) => {
                return Err(path_failure_detail("fs_read", "cannot resolve path ", file_path, e.as_str()));
            },
            Ok(c) => c,
        };
        let root = match canonical_root {
            Err(e) => {
                return Err(detail_failure("fs_read", "cannot resolve root: ", e.as_str()));
            },
            Ok(r) => r,
        };
        if !path_starts_with(c.as_str(), root.as_str()) {
            return Err(path_failure("fs_read", "path ", file_path, " is outside the working directory"));
        }
        Ok(c)
    }

    /// What fs_read shows of a file's content for an `offset` and `limit`
    /// (the input's fields): lines `offset..offset + limit` (1-based,
    /// default 1 and 2000), each numbered and cut at 2000 bytes.
    pub fn render(content: &str, offset: &JsonField, limit: &JsonField) -> (out: String)
        requires
            read_ok(content@, offset.as_u64_view(), limit.as_u64_view()),
        ensures
            out@ == read_output(content@, offset.as_u64_view(), limit.as_u64_view()),
    {
        let cs = chars_of(content);
        let ls = split_lines(cs.as_slice());
        let ghost lv = lines(content@);
        proof {
            assert(ls@.len() == lv.len());
        }
        let total = ls.len();
        let o: u64 = match offset.number() {
            Some(o) => if o >= 1 { o } else { 1 },
            None => 1,
        };
        let off: usize = o as usize;
        let lim: usize = match limit.number() {
            Some(l) => l as usize,
            None => 2000,
        };
        let start: usize = if off - 1 < total { off - 1 } else { total };
        let end: usize = if start + lim < total { start + lim } else { total };
        let mut out: Vec<char> = Vec::new();
        let mut k: usize = start;
        while k < end
            invariant
                start <= k <= end <= total,
                total == lv.len(),
                ls@.len() == lv.len(),
                forall|j: int| 0 <= j < ls@.len() ==> #[trigger] ls@[j]@ == lv[j],
                forall|j: int| start <= j < end ==> showable(#[trigger] lv[j]),
                out@ == numbered(lv, start as int, k as int),
            decreases end - k,
        {
            let num = padded_number_chars(k + 1);
            extend_chars(&mut out, num.as_slice());
            extend_str(&mut out, "\t");
            assert(ls@[k as int]@ == lv[k as int]);
            let shown = shown_line_chars(&ls[k]);
            extend_chars(&mut out, shown.as_slice());
            extend_str(&mut out, "\n");
            k = k + 1;
        }
        if end < total {
            extend_str(&mut out, "\n[");
            let d = decimal_chars((total - end) as u64);
            extend_chars(&mut out, d.as_slice());
            extend_str(&mut out, " more lines not shown \u{2014} use offset/limit to read further]\n");
        }
        if out.len() == 0 {
            let mut v = chars_of("[file is empty: ");
            let d = decimal_chars(total as u64);
            extend_chars(&mut v, d.as_slice());
            extend_str(&mut v, " total lines]\n");
            return string_of(v.as_slice());
        }
        string_of(out.as_slice())
    }

    /// The failure when the file cannot be read.
    pub fn read_error(file_path: &str, error: &str) -> (e: SakamotoError)
        ensures
            is_failure(e, "fs_read"@, quoted("cannot read "@, file_path@, ": "@ + error@)),
    {
        path_failure_detail("fs_read", "cannot read ", file_path, error)
    }
}

// ---------------------------------------------------------------------------
// fs_write
// ---------------------------------------------------------------------------

/// A tool that writes or edits file contents.
#[derive(Debug, Clone)]
pub struct FsWriteTool {
    /// Root directory: all paths are resolved relative to it.
    pub root: String,
}

/// What the filesystem said of the parent of a requested path.
#[derive(Debug)]
pub enum ParentProbe {
    /// The parent exists; what canonicalizing it gave (or its error's text).
    Exists(Result<String, String>),
    /// The parent does not exist; its nearest existing ancestor (as reached
    /// by taking parents of the requested path) and what canonicalizing it
    /// gave, or nothing when no ancestor exists.
    Missing(Option<(String, Result<String, String>)>),
}

/// The reason a path outside the working directory is refused.
pub open spec fn outside_reason(file_path: Seq<char>) -> Seq<char> {
    quoted("path "@, file_path, " is outside the working directory"@)
}

/// A path that, joined onto a directory, goes no higher than that
/// directory: it is not absolute and none of its components is `..`.
pub open spec fn stays_below(rest: Seq<char>) -> bool {
    !is_absolute_path(rest) && !components_of(rest).contains(".."@)
}

/// `p` lies under `root`: it is a directory under `root` joined with a path
/// that goes no higher.
pub open spec fn lies_under(p: Seq<char>, root: Seq<char>) -> bool {
    exists|base: Seq<char>, rest: Seq<char>|
        starts_with_path(base, root) && stays_below(rest) && p == #[trigger] pushed(base, rest)
}

/// A path fs_write accepts stays inside `root`: when the parent exists, `p`
/// lies under `root`; when it does not, `p` is the nearest existing ancestor,
/// whose canonical form lies under `root`, followed by a rest that goes no
/// higher.
pub open spec fn confined(p: Seq<char>, root: Seq<char>, probe: ParentProbe) -> bool {
    match probe {
        ParentProbe::Missing(Some((a, Ok(c)))) => starts_with_path(c@, root) && (stripped_of(p, a@) matches Some(
            rest,
        ) && stays_below(rest)),
        _ => lies_under(p, root),
    }
}

/// Whether a path goes no higher than the directory it is joined onto.
fn goes_no_higher(rest: &str) -> (b: bool)
    ensures
        b == stays_below(rest@),
{
    if path_is_absolute(rest) {
        return false;
    }
    let comps = path_components(rest);
    let ghost cs = crate::text::views(comps@);
    let mut i: usize = 0;
    while i < comps.len()
        invariant
            i <= comps@.len(),
            cs == crate::text::views(comps@),
            cs == components_of(rest@),
            forall|j: int| 0 <= j < i ==> cs[j] != ".."@,
        decreases comps@.len() - i,
    {
        if crate::text::str_eq(comps[i].as_str(), "..") {
            proof {
                assert(cs[i as int] == comps@[i as int]@);
                assert(cs.contains(".."@));
            }
            return false;
        }
        proof {
            assert(cs[i as int] == comps@[i as int]@);
        }
        i = i + 1;
    }
    proof {
        assert(!cs.contains(".."@));
    }
    true
}

/// What a write request asks for.
#[derive(Debug, Clone)]
pub enum WriteAction {
    /// Replace the single occurrence of `old` by `new`.
    Edit { old: String, new: String },
    /// Write the whole file.
    Write { content: String },
}

/// The number of non-overlapping occurrences of `n` in `h` at or after `i`,
/// searching from the left.
pub open spec fn count_from(h: Seq<char>, n: Seq<char>, i: int) -> nat
    decreases h.len() - i,
{
    if i < 0 || n.len() == 0 || i + n.len() > h.len() {
        0
    } else if h.subrange(i, i + n.len()) == n {
        1 + count_from(h, n, i + n.len())
    } else {
        count_from(h, n, i + 1)
    }
}

/// What `str::matches(n).count()` gives: an empty pattern matches at every
/// character boundary.
pub open spec fn match_count(h: Seq<char>, n: Seq<char>) -> nat {
    if n.len() == 0 {
        h.len() + 1
    } else {
        count_from(h, n, 0)
    }
}

/// The first position at or after `i` where `n` occurs in `h`, or -1.
pub open spec fn first_from(h: Seq<char>, n: Seq<char>, i: int) -> int
    decreases h.len() - i,
{
    if i < 0 || i + n.len() > h.len() {
        -1
    } else if n.len() == 0 || h.subrange(i, i + n.len()) == n {
        i
    } else {
        first_from(h, n, i + 1)
    }
}

/// What `str::replacen(n, r, 1)` gives: the first occurrence of `n` replaced.
pub open spec fn replace_first(h: Seq<char>, n: Seq<char>, r: Seq<char>) -> Seq<char> {
    let f = first_from(h, n, 0);
    if f < 0 {
        h
    } else {
        h.subrange(0, f) + r + h.subrange(f + n.len(), h.len() as int)
    }
}

proof fn lemma_count_first(h: Seq<char>, n: Seq<char>, i: int)
    requires
        n.len() > 0,
        0 <= i,
    ensures
        count_from(h, n, i) > 0 <==> first_from(h, n, i) >= 0,
        first_from(h, n, i) >= 0 ==> i <= first_from(h, n, i) && first_from(h, n, i) + n.len() <= h.len(),
    decreases h.len() - i,
{
    if i + n.len() <= h.len() && h.subrange(i, i + n.len()) != n {
        lemma_count_first(h, n, i + 1);
    }
}

/// The number of times `n` occurs in `h` (as `str::matches` counts).
pub fn count_matches(h: &[char], n: &[char]) -> (c: usize)
    requires
        h@.len() < usize::MAX,
    ensures
        c == match_count(h@, n@),
{
    if n.len() == 0 {
        return h.len() + 1;
    }
    let mut c: usize = 0;
    let mut i: usize = 0;
    while i < h.len()
        invariant
            n@.len() > 0,
            h@.len() < usize::MAX,
            i <= h@.len(),
            c <= i,
            c + count_from(h@, n@, i as int) == count_from(h@, n@, 0),
        decreases h@.len() - i,
    {
        if n.len() <= h.len() - i && lit_at(h, i, n) {
            c = c + 1;
            i = i + n.len();
        } else {
            i = i + 1;
        }
    }
    c
}

/// `h` with the first occurrence of `n` replaced by `r` (`str::replacen(n, r, 1)`).
pub fn replace_first_match(h: &[char], n: &[char], r: &[char]) -> (out: Vec<char>)
    ensures
        out@ == replace_first(h@, n@, r@),
{
    let mut i: usize = 0;
    while i < h.len() && !(n.len() <= h.len() - i && lit_at(h, i, n))
        invariant
            i <= h@.len(),
            first_from(h@, n@, 0) == first_from(h@, n@, i as int),
        decreases h@.len() - i,
    {
        proof {
            if n@.len() == 0 {
                assert(h@.subrange(i as int, i as int) =~= n@);
            }
            assert(first_from(h@, n@, i as int) == first_from(h@, n@, i + 1));
        }
        i = i + 1;
    }
    if n.len() <= h.len() - i && lit_at(h, i, n) {
        proof {
            assert(first_from(h@, n@, i as int) == i);
        }
        let mut out = slice_chars(h, 0, i);
        extend_chars(&mut out, r);
        let tail = slice_chars(h, i + n.len(), h.len());
        extend_chars(&mut out, tail.as_slice());
        proof {
            assert(out@ =~= h@.subrange(0, i as int) + r@ + h@.subrange(i + n@.len(), h@.len() as int));
        }
        out
    } else {
        proof {
            if n@.len() == 0 {
                assert(h@.subrange(i as int, i as int) =~= n@);
            }
            assert(first_from(h@, n@, i as int) == -1);
        }
        let mut out: Vec<char> = Vec::new();
        extend_chars(&mut out, h);
        proof {
            assert(out@ =~= h@);
        }
        out
    }
}

/// The JSON schema of the input of `fs_write`.
pub const FS_WRITE_SCHEMA: &'static str = "{\"type\":\"object\",\"properties\":{\"path\":{\"type\":\"string\",\"description\":\"File path (relative to working directory or absolute)\"},\"content\":{\"type\":\"string\",\"description\":\"Full file content to write (for complete file writes)\"},\"old_string\":{\"type\":\"string\",\"description\":\"String to find in the existing file (for edits)\"},\"new_string\":{\"type\":\"string\",\"description\":\"Replacement string (for edits)\"}},\"required\":[\"path\"]}";

impl FsWriteTool {
    /// The definition under which the tool is offered: its name, what it
    /// does, and the schema of its input.
    pub fn definition(&self) -> (d: ToolDef)
        ensures
            d.name@ == "fs_write"@,
            d.description@ == "Write content to a file, or edit a file by replacing a specific string. Creates parent directories if needed."@,
            d.input_schema == json_parse_default(FS_WRITE_SCHEMA@),
    {
        ToolDef {
            name: to_owned_string("fs_write"),
            description: to_owned_string("Write content to a file, or edit a file by replacing a specific string. Creates parent directories if needed."),
            input_schema: json_parse_or_null(FS_WRITE_SCHEMA),
        }
    }
}

impl FsWriteTool {
    /// Create a new fs_write tool rooted at the given directory.
    pub fn new(root: &str) -> (t: FsWriteTool)
        ensures
            t.root@ == root@,
    {
        FsWriteTool { root: to_owned_string(root) }
    }

    /// The parent of the requested path, which the filesystem is asked about.
    pub fn parent_to_probe(&self, file_path: &str) -> (r: Option<String>)
        ensures
            r is Some <==> parent_of(requested(self.root@, file_path@)) is Some,
            r matches Some(p) ==> parent_of(requested(self.root@, file_path@)) == Some(p@),
    {
        let resolved = request_path(self.root.as_str(), file_path);
        path_parent(resolved.as_str())
    }

    /// Resolve and validate a path, preventing directory traversal. The file
    /// may not exist yet. When its parent exists, the canonical parent must
    /// lie under the canonical root and the result is the canonical parent
    /// joined with the file name. Otherwise the nearest existing ancestor
    /// must lie under the root, the rest of the path below that ancestor
    /// may not climb (no `..`), and the result is the requested path as it
    /// was given (it cannot be canonicalized before it exists). Every path
    /// it accepts stays inside the root.
    pub fn resolve_path(&self, file_path: &str, probe: ParentProbe, canonical_root: Result<String, String>) -> (r:
        Result<String, SakamotoError>)
        ensures
            ({
                let req = requested(self.root@, file_path@);
                if parent_of(req) is None {
                    r matches Err(x) && is_failure(x, "fs_write"@, quoted("invalid path: "@, file_path@, ""@))
                } else {
                    match probe {
                        ParentProbe::Exists(Err(e)) => r matches Err(x) && is_failure(
                            x,
                            "fs_write"@,
                            quoted("cannot resolve parent of "@, file_path@, ": "@ + e@),
                        ),
                        ParentProbe::Missing(None) => r matches Err(x) && is_failure(
                            x,
                            "fs_write"@,
                            quoted("no valid ancestor for "@, file_path@, ""@),
                        ),
                        ParentProbe::Missing(Some((_, Err(e)))) => r matches Err(x) && is_failure(
                            x,
                            "fs_write"@,
                            "cannot resolve ancestor: "@ + e@,
                        ),
                        ParentProbe::Exists(Ok(c)) | ParentProbe::Missing(Some((_, Ok(c)))) => match canonical_root {
                            Err(e) => r matches Err(x) && is_failure(x, "fs_write"@, "cannot resolve root: "@ + e@),
                            Ok(root) => if !starts_with_path(c@, root@) {
                                r matches Err(x) && is_failure(x, "fs_write"@, outside_reason(file_path@))
                            } else {
                                match probe {
                                    ParentProbe::Missing(Some((a, _))) => match stripped_of(req, a@) {
                                        None => r matches Err(x) && is_failure(
                                            x,
                                            "fs_write"@,
                                            quoted("no valid ancestor for "@, file_path@, ""@),
                                        ),
                                        Some(rest) => if stays_below(rest) {
                                            r matches Ok(p) && p@ == req
                                        } else {
                                            r matches Err(x) && is_failure(x, "fs_write"@, outside_reason(file_path@))
                                        },
                                    },
                                    _ => match file_name_of(req) {
                                        None => r matches Err(x) && is_failure(
                                            x,
                                            "fs_write"@,
                                            quoted("path "@, file_path@, " has no filename"@),
                                        ),
                                        Some(f) => if stays_below(f) {
                                            r matches Ok(p) && p@ == pushed(c@, f)
                                        } else {
                                            r matches Err(x) && is_failure(x, "fs_write"@, outside_reason(file_path@))
                                        },
                                    },
                                }
                            },
                        },
                    }
                }
            }),
            r matches Ok(p) ==> (canonical_root matches Ok(root) && confined(p@, root@, probe)),
    {
        let resolved = request_path(self.root.as_str(), file_path);
        if path_parent(resolved.as_str()).is_none() {
            return Err(path_failure("fs_write", "invalid path: ", file_path, ""));
        }
        let (canonical, ancestor) = match probe {
            ParentProbe::Exists(Err(e)) => {
                return Err(path_failure_detail("fs_write", "cannot resolve parent of ", file_path, e.as_str()));
            },
            ParentProbe::Missing(None) => {
                return Err(path_failure("fs_write", "no valid ancestor for ", file_path, ""));
            },
            ParentProbe::Missing(Some((_, Err(e)))) => {
                return Err(detail_failure("fs_write", "cannot resolve ancestor: ", e.as_str()));
            },
            ParentProbe::Exists(Ok(c)) => (c, None),
            ParentProbe::Missing(Some((a, Ok(c)))) => (c, Some(a)),
        };
        let root = match canonical_root {
            Err(e) => {
                return Err(detail_failure("fs_write", "cannot resolve root: ", e.as_str()));
            },
            Ok(r) => r,
        };
        if !path_starts_with(canonical.as_str(), root.as_str()) {
            return Err(path_failure("fs_write", "path ", file_path, " is outside the working directory"));
        }
        let from_ancestor = ancestor.is_some();
        let rest = match ancestor {
            Some(a) => match path_strip_prefix(resolved.as_str(), a.as_str()) {
                None => {
                    return Err(path_failure("fs_write", "no valid ancestor for ", file_path, ""));
                },
                Some(rest) => rest,
            },
            None => match path_file_name(resolved.as_str()) {
                None => {
                    return Err(path_failure("fs_write", "path ", file_path, " has no filename"));
                },
                Some(f) => f,
            },
        };
        if !goes_no_higher(rest.as_str()) {
            return Err(path_failure("fs_write", "path ", file_path, " is outside the working directory"));
        }
        if from_ancestor {
            return Ok(resolved);
        }
        let p = path_push(canonical.as_str(), rest.as_str());
        proof {
            assert(starts_with_path(canonical@, root@) && stays_below(rest@) && p@ == pushed(canonical@, rest@));
        }
        Ok(p)
    }

    /// What a request asks for, from its `content`, `old_string` and
    /// `new_string` fields: an edit when `old_string` is given, a full
    /// write when `content` is, and an error when both or neither are, or
    /// when the given one is not a string.
    pub fn action(content: &JsonField, old_string: &JsonField, new_string: &JsonField) -> (r: Result<
        WriteAction,
        SakamotoError,
    >)
        ensures
            content.present() && old_string.present() ==> (r matches Err(x) && is_failure(
                x,
                "fs_write"@,
                "provide either 'content' for full write or 'old_string'/'new_string' for edit, not both"@,
            )),
            !content.present() && old_string.present() ==> match old_string.as_str_view() {
                None => r matches Err(x) && is_failure(x, "fs_write"@, "'old_string' must be a string"@),
                Some(o) => r matches Ok(WriteAction::Edit { old, new }) && old@ == o && new@ == (
                match new_string.as_str_view() {
                    Some(n) => n,
                    None => Seq::<char>::empty(),
                }),
            },
            content.present() && !old_string.present() ==> match content.as_str_view() {
                None => r matches Err(x) && is_failure(x, "fs_write"@, "'content' must be a string"@),
                Some(c) => r matches Ok(WriteAction::Write { content: w }) && w@ == c,
            },
            !content.present() && !old_string.present() ==> (r matches Err(x) && is_failure(
                x,
                "fs_write"@,
                "provide either 'content' for full write or 'old_string'/'new_string' for edit"@,
            )),
    {
        let has_content = content.is_present();
        let has_old = old_string.is_present();
        if has_content && has_old {
            return Err(
                failure(
                    "fs_write",
                    chars_of("provide either 'content' for full write or 'old_string'/'new_string' for edit, not both"),
                ),
            );
        }
        if has_old {
            let old = match old_string.text() {
                Some(o) => o.clone(),
                None => {
                    return Err(failure("fs_write", chars_of("'old_string' must be a string")));
                },
            };
            let new = match new_string.text() {
                Some(n) => n.clone(),
                None => String::new(),
            };
            Ok(WriteAction::Edit { old, new })
        } else if has_content {
            match content.text() {
                Some(c) => Ok(WriteAction::Write { content: c.clone() }),
                None => Err(failure("fs_write", chars_of("'content' must be a string"))),
            }
        } else {
            Err(failure("fs_write", chars_of("provide either 'content' for full write or 'old_string'/'new_string' for edit")))
        }
    }

    /// The edited text of a file: the single occurrence of `old` replaced by
    /// `new`; an error when `old` occurs never or more than once.
    pub fn apply_edit(file_path: &str, existing: &str, old: &str, new: &str) -> (r: Result<String, SakamotoError>)
        requires
            existing@.len() < usize::MAX,
        ensures
            match_count(existing@, old@) == 0 ==> (r matches Err(x) && is_failure(
                x,
                "fs_write"@,
                quoted("old_string not found in "@, file_path@,
                    " \u{2014} provide a unique string that exists in the file"@),
            )),
            match_count(existing@, old@) > 1 ==> (r matches Err(x) && is_failure(
                x,
                "fs_write"@,
                "old_string found "@ + decimal(match_count(existing@, old@)) + quoted(" times in "@, file_path@,
                    " \u{2014} provide a more specific string to match exactly once"@),
            )),
            match_count(existing@, old@) == 1 ==> (r matches Ok(s) && s@ == replace_first(existing@, old@, new@)),
    {
        let h = chars_of(existing);
        let n = chars_of(old);
        let count = count_matches(h.as_slice(), n.as_slice());
        if count == 0 {
            return Err(path_failure(
                "fs_write",
                "old_string not found in ",
                file_path,
                " \u{2014} provide a unique string that exists in the file",
            ));
        }
        if count > 1 {
            let mut v = chars_of("old_string found ");
            let d = decimal_chars(count as u64);
            extend_chars(&mut v, d.as_slice());
            let s = chars_of(" \u{2014} provide a more specific string to match exactly once");
            let q = quoted_chars(" times in ", file_path, s.as_slice());
            extend_chars(&mut v, q.as_slice());
            return Err(failure("fs_write", v));
        }
        let r = chars_of(new);
        let out = replace_first_match(h.as_slice(), n.as_slice(), r.as_slice());
        Ok(string_of(out.as_slice()))
    }

    /// The failure when the file to edit cannot be read.
    pub fn edit_read_error(file_path: &str, error: &str) -> (e: SakamotoError)
        ensures
            is_failure(e, "fs_write"@, quoted("cannot read "@, file_path@, " for editing: "@ + error@)),
    {
        let mut s = chars_of(" for editing: ");
        extend_str(&mut s, error);
        failure("fs_write", quoted_chars("cannot read ", file_path, s.as_slice()))
    }

    /// The failure when the file cannot be written.
    pub fn write_error(file_path: &str, error: &str) -> (e: SakamotoError)
        ensures
            is_failure(e, "fs_write"@, quoted("cannot write "@, file_path@, ": "@ + error@)),
    {
        path_failure_detail("fs_write", "cannot write ", file_path, error)
    }

    /// The failure when the parent directories cannot be created.
    pub fn create_dirs_error(file_path: &str, error: &str) -> (e: SakamotoError)
        ensures
            is_failure(e, "fs_write"@, quoted("cannot create directories for "@, file_path@, ": "@ + error@)),
    {
        path_failure_detail("fs_write", "cannot create directories for ", file_path, error)
    }

    /// The report of an edit: `edited {path}`.
    pub fn edited_message(file_path: &str) -> (s: String)
        ensures
            s@ == "edited "@ + file_path@,
    {
        string_of(concat_chars("edited ", file_path).as_slice())
    }

    /// The report of a full write: `wrote {path} ({bytes} bytes)`.
    pub fn wrote_message(file_path: &str, content: &str) -> (s: String)
        requires
            vstd::utf8::encode_utf8(content@).len() <= usize::MAX,
        ensures
            s@ == "wrote "@ + file_path@ + " ("@ + decimal(vstd::utf8::encode_utf8(content@).len()) + " bytes)"@,
    {
        let n = content.len();
        let mut v = concat_chars("wrote ", file_path);
        extend_str(&mut v, " (");
        let d = decimal_chars(n as u64);
        extend_chars(&mut v, d.as_slice());
        extend_str(&mut v, " bytes)");
        string_of(v.as_slice())
    }
}

// ---------------------------------------------------------------------------
// shell
// ---------------------------------------------------------------------------

/// A tool that runs a shell command in a working directory.
#[derive(Debug)]
pub struct ShellTool {
    pub working_dir: String,
    pub timeout: std::time::Duration,
}

/// The text a command's output gives: its stdout, then (when there is any)
/// `[stderr]` and its stderr, on a new line when stdout was not empty.
pub open spec fn shell_text(stdout: Seq<char>, stderr: Seq<char>) -> Seq<char> {
    if stderr.len() == 0 {
        stdout
    } else if stdout.len() == 0 {
        "[stderr]\n"@ + stderr
    } else {
        stdout + "\n"@ + "[stderr]\n"@ + stderr
    }
}

/// The JSON schema of the input of `shell`.
pub const SHELL_SCHEMA: &'static str = "{\"type\":\"object\",\"properties\":{\"command\":{\"type\":\"string\",\"description\":\"The shell command to execute\"}},\"required\":[\"command\"]}";

impl ShellTool {
    /// The definition under which the tool is offered: its name, what it
    /// does, and the schema of its input.
    pub fn definition(&self) -> (d: ToolDef)
        ensures
            d.name@ == "shell"@,
            d.description@ == "Execute a shell command and return its output"@,
            d.input_schema == json_parse_default(SHELL_SCHEMA@),
    {
        ToolDef {
            name: to_owned_string("shell"),
            description: to_owned_string("Execute a shell command and return its output"),
            input_schema: json_parse_or_null(SHELL_SCHEMA),
        }
    }
}

impl ShellTool {
    /// Create a shell tool for a working directory and a timeout.
    pub fn new(working_dir: &str, timeout: std::time::Duration) -> (t: ShellTool)
        ensures
            t.working_dir@ == working_dir@,
            t.timeout == timeout,
    {
        ShellTool { working_dir: to_owned_string(working_dir), timeout }
    }

    /// The `command` field of the input: an error when it is not a string.
    pub fn command_field(field: &JsonField) -> (r: Result<String, SakamotoError>)
        ensures
            field.as_str_view() is Some <==> r is Ok,
            r matches Ok(c) ==> field.as_str_view() == Some(c@),
            r matches Err(e) ==> is_failure(e, "shell"@, "missing 'command' field"@),
    {
        match field.text() {
            Some(c) => Ok(c.clone()),
            None => Err(failure("shell", chars_of("missing 'command' field"))),
        }
    }

    /// The error when the command runs past the timeout.
    pub fn timeout_error(&self) -> (e: SakamotoError)
        ensures
            e matches SakamotoError::Timeout { stage, elapsed } && stage@ == "shell"@ && elapsed == self.timeout,
    {
        SakamotoError::Timeout { stage: to_owned_string("shell"), elapsed: self.timeout }
    }

    /// The result of a finished command: its text on success, and otherwise
    /// a failure `exit code {code}` (-1 without a code) followed by the text.
    pub fn output(stdout: &str, stderr: &str, success: bool, code: Option<i32>) -> (r: Result<String, SakamotoError>)
        ensures
            success ==> (r matches Ok(s) && s@ == shell_text(stdout@, stderr@)),
            !success ==> (r matches Err(x) && is_failure(
                x,
                "shell"@,
                "exit code "@ + signed_decimal(match code {
                    Some(c) => c as int,
                    None => -1,
                }) + "\n"@ + shell_text(stdout@, stderr@),
            )),
    {
        let mut result: Vec<char> = Vec::new();
        if !stdout.is_empty() {
            extend_str(&mut result, stdout);
        }
        if !stderr.is_empty() {
            if result.len() > 0 {
                extend_str(&mut result, "\n");
            }
            extend_str(&mut result, "[stderr]\n");
            extend_str(&mut result, stderr);
        }
        proof {
            reveal_strlit("\n");
            if stdout@.len() == 0 {
                assert(stdout@ =~= Seq::<char>::empty());
            }
            assert(result@ =~= shell_text(stdout@, stderr@));
        }
        if success {
            return Ok(string_of(result.as_slice()));
        }
        let c: i64 = match code {
            Some(c) => c as i64,
            None => -1,
        };
        let mut v = chars_of("exit code ");
        let d = i64_to_chars(c);
        extend_chars(&mut v, d.as_slice());
        extend_str(&mut v, "\n");
        extend_chars(&mut v, result.as_slice());
        Err(failure("shell", v))
    }
}

// ---------------------------------------------------------------------------
// router
// ---------------------------------------------------------------------------

/// The registry of the tools offered, by name.
#[derive(Debug, Clone)]
pub struct ToolRouter {
    /// Names of the registered tools.
    pub names: StrMap<()>,
}

impl Default for ToolRouter {
    fn default() -> (r: ToolRouter)
        ensures
            r.names.as_map() == Map::<Seq<char>, ()>::empty(),
    {
        ToolRouter::new()
    }
}

impl ToolRouter {
    /// An empty router.
    pub fn new() -> (r: ToolRouter)
        ensures
            r.names.as_map() == Map::<Seq<char>, ()>::empty(),
    {
        ToolRouter { names: StrMap::new() }
    }

    /// Register a tool under its definition's name; a name can be taken
    /// only once.
    pub fn register(&mut self, name: String) -> (r: Result<(), SakamotoError>)
        ensures
            old(self).names.as_map().dom().contains(name@) ==> {
                &&& final(self).names.as_map() == old(self).names.as_map()
                &&& r matches Err(x) && is_failure(x, name@, "tool already registered"@)
            },
            !old(self).names.as_map().dom().contains(name@) ==> {
                &&& final(self).names.as_map() == old(self).names.as_map().insert(name@, ())
                &&& r is Ok
            },
    {
        if self.names.contains_key(name.as_str()) {
            return Err(
                SakamotoError::ToolCallFailed {
                    tool: name,
                    reason: string_of(chars_of("tool already registered").as_slice()),
                },
            );
        }
        let _ = self.names.insert(name, ());
        Ok(())
    }

    /// Whether a tool of that name is registered.
    pub fn contains(&self, name: &str) -> (b: bool)
        ensures
            b == self.names.as_map().dom().contains(name@),
    {
        self.names.contains_key(name)
    }

    /// The error for a call of an unregistered tool.
    pub fn not_found(name: &str) -> (e: SakamotoError)
        ensures
            e matches SakamotoError::ToolsetNotFound(n) && n@ == name@,
    {
        SakamotoError::ToolsetNotFound(to_owned_string(name))
    }

    /// Number of registered tools.
    pub fn len(&self) -> (n: usize)
        ensures
            n == self.names.keys().len(),
    {
        self.names.len()
    }

    /// Whether no tool is registered.
    pub fn is_empty(&self) -> (b: bool)
        ensures
            b == (self.names.keys().len() == 0),
    {
        self.names.is_empty()
    }
}

} // verus!
