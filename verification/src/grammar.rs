//! The grammar of references in task descriptions: where a file path, a
//! GitHub URL, a GitHub shorthand `owner/repo#n`, a URL, a qualified Rust
//! path or a PascalCase name starts and ends in a text, and how a text is
//! scanned from left to right for them, each match resuming the search at
//! its end.
use vstd::prelude::*;

use crate::chars::{
    ascii_digit, ascii_lower, ascii_upper, digit_flags, is_ascii_digit, is_ascii_lower, is_ascii_upper,
    is_ascii_word, is_unicode_digit, is_white_space, is_word_char, space_flags, word_flags,
};
use crate::scan::{chars_in_list, has_at, lemma_run_end, lit_at, run_end, slice_chars};

verus! {

/// The kinds of references the grammar finds.
#[derive(Clone, Copy, PartialEq, Eq, Structural)]
pub enum Pattern {
    FilePath,
    GitHubUrl,
    GitHubShort,
    Url,
    SymbolPath,
    PascalCase,
}

/// The character classes of the grammar.
#[derive(Clone, Copy, PartialEq, Eq, Structural)]
pub enum Class {
    /// `[\w./-]`
    Path,
    /// `\w`
    Word,
    /// `[A-Za-z0-9._-]`
    Name,
    /// `\d`
    Digit,
    /// `[^\s)\]}>`,]`
    UrlChar,
    /// `[a-z]`
    Lower,
    /// `[a-z0-9]`
    LowerDigit,
}

pub open spec fn in_class(k: Class, c: char) -> bool {
    match k {
        Class::Path => is_word_char(c) || c == '.' || c == '/' || c == '-',
        Class::Word => is_word_char(c),
        Class::Name => is_ascii_word(c) || c == '.' || c == '-',
        Class::Digit => is_unicode_digit(c),
        Class::UrlChar => !is_white_space(c) && c != ')' && c != ']' && c != '}' && c != '>'
            && c != '`' && c != ',',
        Class::Lower => is_ascii_lower(c),
        Class::LowerDigit => is_ascii_lower(c) || is_ascii_digit(c),
    }
}

pub open spec fn class_fn(k: Class) -> spec_fn(char) -> bool {
    |c: char| in_class(k, c)
}

/// The end of the maximal run of class `k` from `i`.
pub open spec fn run(t: Seq<char>, i: int, k: Class) -> int {
    run_end(t, i, class_fn(k))
}

/// Characters that may precede a file path: `\s , ; ( { [ ` " '`.
pub open spec fn file_delim(c: char) -> bool {
    is_white_space(c) || c == ',' || c == ';' || c == '(' || c == '{' || c == '[' || c == '`'
        || c == '"' || c == '\''
}

/// Characters that may precede a GitHub shorthand: `\s , ( { [ ``.
pub open spec fn short_delim(c: char) -> bool {
    is_white_space(c) || c == ',' || c == '(' || c == '{' || c == '[' || c == '`'
}

/// Characters that may precede a symbol: `\s , ; ( { [ ``.
pub open spec fn sym_delim(c: char) -> bool {
    is_white_space(c) || c == ',' || c == ';' || c == '(' || c == '{' || c == '[' || c == '`'
}

/// The file extensions a file path may end in.
pub open spec fn file_extensions() -> Seq<&'static str> {
    seq![
        "rs", "toml", "json", "yaml", "yml", "md", "txt", "lock", "ts", "js", "py", "go", "c",
        "h", "cpp", "hpp", "java", "kt", "rb", "sh", "bash", "zsh", "css", "html", "xml", "sql",
        "proto", "graphql", "wasm", "wat",
    ]
}

pub open spec fn is_known_ext(w: Seq<char>) -> bool {
    exists|i: int| 0 <= i < file_extensions().len() && file_extensions()[i]@ == w
}

/// A match of one of the patterns: where it ends, and its groups as spans.
pub struct Hit {
    pub end: int,
    pub g1: (int, int),
    pub g2: (int, int),
    pub g3: (int, int),
    pub g4: (int, int),
}

// ----- file paths -----------------------------------------------------------

/// The end of the extension after a dot at `d`: the maximal word run.
pub open spec fn ext_end(t: Seq<char>, d: int) -> int {
    run(t, d + 1, Class::Word)
}

/// A dot at `d` followed by a known extension that ends at a word boundary.
pub open spec fn valid_dot(t: Seq<char>, d: int) -> bool {
    0 <= d < t.len() && t[d] == '.' && is_known_ext(t.subrange(d + 1, ext_end(t, d)))
}

/// The last valid dot in `[lo, hi)`, or `-1`.
pub open spec fn last_valid_dot(t: Seq<char>, lo: int, hi: int) -> int
    decreases hi - lo,
{
    if hi <= lo {
        -1
    } else if valid_dot(t, hi - 1) {
        hi - 1
    } else {
        last_valid_dot(t, lo, hi - 1)
    }
}

/// Where the body of a path starting at `a` begins: after `~/` when present.
pub open spec fn body_start(t: Seq<char>, a: int) -> int {
    if 0 <= a && a + 1 < t.len() && t[a] == '~' && t[a + 1] == '/' {
        a + 2
    } else {
        a
    }
}

/// The end of the file path that starts at `a`, or `-1`: the longest run of
/// path characters (after an optional `~/`) that holds a nonempty body, a
/// dot and a known extension ending at a word boundary.
pub open spec fn path_end(t: Seq<char>, a: int) -> int {
    let s0 = body_start(t, a);
    let d = last_valid_dot(t, s0 + 1, run(t, s0, Class::Path));
    if d < 0 {
        -1
    } else {
        ext_end(t, d)
    }
}

pub open spec fn file_hit_at(t: Seq<char>, s: int) -> Option<Hit> {
    if s == 0 && path_end(t, 0) >= 0 {
        Some(Hit { end: path_end(t, 0), g1: (0, path_end(t, 0)), g2: (0, 0), g3: (0, 0), g4: (0, 0) })
    } else if 0 <= s < t.len() && file_delim(t[s]) && path_end(t, s + 1) >= 0 {
        Some(Hit { end: path_end(t, s + 1), g1: (s + 1, path_end(t, s + 1)), g2: (0, 0), g3: (0, 0), g4: (0, 0) })
    } else {
        None
    }
}

/// The last valid dot in `[lo, hi)` lies there and is valid.
proof fn lemma_last_valid_dot(t: Seq<char>, lo: int, hi: int)
    ensures
        last_valid_dot(t, lo, hi) == -1 || (lo <= last_valid_dot(t, lo, hi) < hi && valid_dot(
            t,
            last_valid_dot(t, lo, hi),
        )),
    decreases hi - lo,
{
    if hi > lo && !valid_dot(t, hi - 1) {
        lemma_last_valid_dot(t, lo, hi - 1);
    }
}

/// A file path that starts at `a` ends after `a` and within the text.
pub proof fn lemma_path_end_bounds(t: Seq<char>, a: int)
    requires
        0 <= a <= t.len(),
        path_end(t, a) >= 0,
    ensures
        a < path_end(t, a) <= t.len(),
{
    let s0 = body_start(t, a);
    lemma_run_end(t, s0, class_fn(Class::Path));
    let r = run(t, s0, Class::Path);
    lemma_last_valid_dot(t, s0 + 1, r);
    let d = last_valid_dot(t, s0 + 1, r);
    lemma_run_end(t, d + 1, class_fn(Class::Word));
}

/// A file path right after a backtick, a quote, or one of `, ; ( { [`
/// starts a file path match there, exactly as after a space: the match
/// holds the path that starts after the delimiter. At the very start of a
/// text some match starts in any case.
pub proof fn lemma_delimited_path_hit(t: Seq<char>, s: int)
    requires
        0 <= s < t.len(),
        t[s] == '`' || t[s] == '"' || t[s] == '\'' || t[s] == ',' || t[s] == ';' || t[s] == '(' || t[s] == '{'
            || t[s] == '[',
        path_end(t, s + 1) >= 0,
    ensures
        hit_at(Pattern::FilePath, t, s) is Some,
        s > 0 ==> hit_at(Pattern::FilePath, t, s) == Some(
            Hit { end: path_end(t, s + 1), g1: (s + 1, path_end(t, s + 1)), g2: (0, 0), g3: (0, 0), g4: (0, 0) },
        ),
{
}

/// The leftmost match from `from` is the one at `s` when none starts in
/// between.
pub proof fn lemma_first_hit_at(k: Pattern, t: Seq<char>, from: int, s: int)
    requires
        0 <= from <= s < t.len(),
        forall|p: int| from <= p < s ==> #[trigger] hit_at(k, t, p) is None,
        hit_at(k, t, s) is Some,
    ensures
        first_hit(k, t, from) == hit_at(k, t, s),
    decreases s - from,
{
    if from < s {
        lemma_first_hit_at(k, t, from + 1, s);
    }
}

// ----- GitHub URLs and shorthands ------------------------------------------

/// `owner/repo` followed by `sep` at `p`: the spans of owner and repo.
pub open spec fn owner_repo(t: Seq<char>, p: int, sep: char) -> Option<((int, int), (int, int))> {
    let eo = run(t, p, Class::Name);
    let er = run(t, eo + 1, Class::Name);
    if 0 <= p && eo > p && eo < t.len() && t[eo] == '/' && er > eo + 1 && er < t.len() && t[er] == sep {
        Some(((p, eo), (eo + 1, er)))
    } else {
        None
    }
}

/// `https://github.com/owner/repo/(issues|pull)/digits` at `s`.
pub open spec fn github_url_at(t: Seq<char>, s: int) -> Option<Hit> {
    let p = s + 19;
    if has_at(t, s, "https://github.com/"@) {
        match owner_repo(t, p, '/') {
            Some((o, r)) => {
                let k = r.1 + 1;
                let ke = if has_at(t, k, "issues/"@) {
                    k + 6
                } else if has_at(t, k, "pull/"@) {
                    k + 4
                } else {
                    -1
                };
                let ne = run(t, ke + 1, Class::Digit);
                if ke >= 0 && ne > ke + 1 {
                    Some(Hit { end: ne, g1: o, g2: r, g3: (k, ke), g4: (ke + 1, ne) })
                } else {
                    None
                }
            },
            None => None,
        }
    } else {
        None
    }
}

/// `owner/repo#digits` at `p`.
pub open spec fn short_body_at(t: Seq<char>, p: int) -> Option<Hit> {
    match owner_repo(t, p, '#') {
        Some((o, r)) => {
            let ne = run(t, r.1 + 1, Class::Digit);
            if ne > r.1 + 1 {
                Some(Hit { end: ne, g1: o, g2: r, g3: (0, 0), g4: (r.1 + 1, ne) })
            } else {
                None
            }
        },
        None => None,
    }
}

pub open spec fn short_hit_at(t: Seq<char>, s: int) -> Option<Hit> {
    if s == 0 && short_body_at(t, 0) is Some {
        short_body_at(t, 0)
    } else if 0 <= s < t.len() && short_delim(t[s]) {
        short_body_at(t, s + 1)
    } else {
        None
    }
}

// ----- URLs -----------------------------------------------------------------

pub open spec fn url_hit_at(t: Seq<char>, s: int) -> Option<Hit> {
    let p = if has_at(t, s, "https://"@) {
        s + 8
    } else if has_at(t, s, "http://"@) {
        s + 7
    } else {
        -1
    };
    let e = run(t, p, Class::UrlChar);
    if p >= 0 && e > p {
        Some(Hit { end: e, g1: (s, e), g2: (0, 0), g3: (0, 0), g4: (0, 0) })
    } else {
        None
    }
}

// ----- symbols --------------------------------------------------------------

pub open spec fn ident_start(c: char) -> bool {
    is_ascii_lower(c) || is_ascii_upper(c) || c == '_'
}

/// The end of the greedy repetition of `::ident` from `q`.
pub open spec fn segments_end(t: Seq<char>, q: int) -> int
    decreases t.len() - q,
{
    if 0 <= q && q + 2 < t.len() && t[q] == ':' && t[q + 1] == ':' && ident_start(t[q + 2]) {
        let r = run(t, q + 3, Class::Word);
        if r > q && r <= t.len() {
            segments_end(t, r)
        } else {
            q
        }
    } else {
        q
    }
}

/// `ident(::ident)+` at `p`.
pub open spec fn sym_body_at(t: Seq<char>, p: int) -> Option<Hit> {
    if 0 <= p < t.len() && ident_start(t[p]) {
        let e1 = run(t, p + 1, Class::Word);
        let e = segments_end(t, e1);
        if e > e1 {
            Some(Hit { end: e, g1: (p, e), g2: (0, 0), g3: (0, 0), g4: (0, 0) })
        } else {
            None
        }
    } else {
        None
    }
}

/// The end of the greedy repetition of `[A-Z][a-z0-9]*` from `q`.
pub open spec fn humps_end(t: Seq<char>, q: int) -> int
    decreases t.len() - q,
{
    if 0 <= q < t.len() && is_ascii_upper(t[q]) {
        let r = run(t, q + 1, Class::LowerDigit);
        if r > q && r <= t.len() {
            humps_end(t, r)
        } else {
            q
        }
    } else {
        q
    }
}

/// `[A-Z][a-z]+([A-Z][a-z0-9]*)+` at `p`.
pub open spec fn pascal_body_at(t: Seq<char>, p: int) -> Option<Hit> {
    if 0 <= p < t.len() && is_ascii_upper(t[p]) {
        let l = run(t, p + 1, Class::Lower);
        let e = humps_end(t, l);
        if l > p + 1 && e > l {
            Some(Hit { end: e, g1: (p, e), g2: (0, 0), g3: (0, 0), g4: (0, 0) })
        } else {
            None
        }
    } else {
        None
    }
}

pub open spec fn delimited_at(t: Seq<char>, s: int, body: spec_fn(Seq<char>, int) -> Option<Hit>) -> Option<Hit> {
    if s == 0 && body(t, 0) is Some {
        body(t, 0)
    } else if 0 <= s < t.len() && sym_delim(t[s]) {
        body(t, s + 1)
    } else {
        None
    }
}

// ----- scanning -------------------------------------------------------------

/// The match of pattern `k` that starts exactly at `s`.
pub open spec fn hit_at(k: Pattern, t: Seq<char>, s: int) -> Option<Hit> {
    match k {
        Pattern::FilePath => file_hit_at(t, s),
        Pattern::GitHubUrl => github_url_at(t, s),
        Pattern::GitHubShort => short_hit_at(t, s),
        Pattern::Url => url_hit_at(t, s),
        Pattern::SymbolPath => delimited_at(t, s, |t: Seq<char>, p: int| sym_body_at(t, p)),
        Pattern::PascalCase => delimited_at(t, s, |t: Seq<char>, p: int| pascal_body_at(t, p)),
    }
}

/// The leftmost match of `k` that starts at or after `s`.
pub open spec fn first_hit(k: Pattern, t: Seq<char>, s: int) -> Option<Hit>
    decreases t.len() - s,
{
    if s < 0 || s >= t.len() {
        None
    } else if hit_at(k, t, s) is Some {
        hit_at(k, t, s)
    } else {
        first_hit(k, t, s + 1)
    }
}

/// All matches of `k` from `s` on, left to right; each search resumes where
/// the previous match ended.
pub open spec fn hits(k: Pattern, t: Seq<char>, s: int) -> Seq<Hit>
    decreases t.len() - s,
{
    match first_hit(k, t, s) {
        Some(h) => if s < h.end <= t.len() {
            seq![h] + hits(k, t, h.end)
        } else {
            Seq::empty()
        },
        None => Seq::empty(),
    }
}

/// Whether `k` matches anywhere in the text.
pub open spec fn matches_anywhere(k: Pattern, t: Seq<char>) -> bool {
    first_hit(k, t, 0) is Some
}


// ---------------------------------------------------------------------------
// Matching, executable
// ---------------------------------------------------------------------------

/// A text with the Unicode classes of each of its characters.
pub struct Classes {
    pub t: Vec<char>,
    pub word: Vec<bool>,
    pub space: Vec<bool>,
    pub digit: Vec<bool>,
}

/// A match, with its groups as spans.
#[derive(Clone, Copy)]
pub struct ExecHit {
    pub end: usize,
    pub g1: (usize, usize),
    pub g2: (usize, usize),
    pub g3: (usize, usize),
    pub g4: (usize, usize),
}

impl ExecHit {
    /// Whether every group is a span `lo..hi` with `lo <= hi <= n`.
    pub open spec fn spans_within(self, n: nat) -> bool {
        &&& self.g1.0 <= self.g1.1 <= n
        &&& self.g2.0 <= self.g2.1 <= n
        &&& self.g3.0 <= self.g3.1 <= n
        &&& self.g4.0 <= self.g4.1 <= n
    }

    pub open spec fn view(self) -> Hit {
        Hit {
            end: self.end as int,
            g1: (self.g1.0 as int, self.g1.1 as int),
            g2: (self.g2.0 as int, self.g2.1 as int),
            g3: (self.g3.0 as int, self.g3.1 as int),
            g4: (self.g4.0 as int, self.g4.1 as int),
        }
    }
}

pub open spec fn opt_hit_view(r: Option<ExecHit>) -> Option<Hit> {
    match r {
        Some(h) => Some(h.view()),
        None => None,
    }
}

fn hit1(end: usize, a: usize, b: usize) -> (h: ExecHit)
    ensures
        h.view() == (Hit { end: end as int, g1: (a as int, b as int), g2: (0, 0), g3: (0, 0), g4: (0, 0) }),
{
    ExecHit { end, g1: (a, b), g2: (0, 0), g3: (0, 0), g4: (0, 0) }
}

impl Classes {
    pub open spec fn ok(&self) -> bool {
        &&& self.t@.len() <= usize::MAX
        &&& self.word@.len() == self.t@.len()
        &&& self.space@.len() == self.t@.len()
        &&& self.digit@.len() == self.t@.len()
        &&& forall|i: int| 0 <= i < self.t@.len() ==> #[trigger] self.word@[i] == is_word_char(self.t@[i])
        &&& forall|i: int| 0 <= i < self.t@.len() ==> #[trigger] self.space@[i] == is_white_space(self.t@[i])
        &&& forall|i: int| 0 <= i < self.t@.len() ==> #[trigger] self.digit@[i] == is_unicode_digit(self.t@[i])
    }

    /// Classifies every character of a text.
    pub fn new(t: Vec<char>) -> (c: Self)
        ensures
            c.ok(),
            c.t@ == t@,
    {
        let n = t.len();
        let word = word_flags(t.as_slice());
        let space = space_flags(t.as_slice());
        let digit = digit_flags(t.as_slice());
        Classes { t, word, space, digit }
    }

    fn is(&self, k: Class, i: usize) -> (b: bool)
        requires
            self.ok(),
            i < self.t@.len(),
        ensures
            b == in_class(k, self.t@[i as int]),
    {
        let c = self.t[i];
        match k {
            Class::Path => self.word[i] || c == '.' || c == '/' || c == '-',
            Class::Word => self.word[i],
            Class::Name => ascii_lower(c) || ascii_upper(c) || ascii_digit(c) || c == '_' || c == '.' || c == '-',
            Class::Digit => self.digit[i],
            Class::UrlChar => !self.space[i] && c != ')' && c != ']' && c != '}' && c != '>' && c != '`' && c != ',',
            Class::Lower => ascii_lower(c),
            Class::LowerDigit => ascii_lower(c) || ascii_digit(c),
        }
    }

    /// The end of the maximal run of class `k` from `i`.
    pub fn run(&self, i: usize, k: Class) -> (r: usize)
        requires
            self.ok(),
            i <= self.t@.len(),
        ensures
            r as int == run(self.t@, i as int, k),
            i <= r <= self.t@.len(),
    {
        proof {
            lemma_run_end(self.t@, i as int, class_fn(k));
        }
        let mut j = i;
        while j < self.t.len() && self.is(k, j)
            invariant
                self.ok(),
                i <= j <= self.t@.len(),
                run(self.t@, i as int, k) == run(self.t@, j as int, k),
            decreases self.t@.len() - j,
        {
            j = j + 1;
        }
        j
    }

    fn at(&self, i: usize, c: char) -> (b: bool)
        requires
            self.ok(),
        ensures
            b == (i < self.t@.len() && self.t@[i as int] == c),
    {
        i < self.t.len() && self.t[i] == c
    }

    /// Whether `t[d]` is a dot followed by a known extension at a word boundary.
    fn valid_dot(&self, d: usize) -> (b: bool)
        requires
            self.ok(),
        ensures
            b == valid_dot(self.t@, d as int),
    {
        if d >= self.t.len() || self.t[d] != '.' {
            return false;
        }
        let e = self.run(d + 1, Class::Word);
        let sub = slice_chars(self.t.as_slice(), d + 1, e);
        let exts: [&str; 30] = [
            "rs", "toml", "json", "yaml", "yml", "md", "txt", "lock", "ts", "js", "py", "go", "c",
            "h", "cpp", "hpp", "java", "kt", "rb", "sh", "bash", "zsh", "css", "html", "xml", "sql",
            "proto", "graphql", "wasm", "wat",
        ];
        assert(exts@ =~= file_extensions());
        chars_in_list(sub.as_slice(), &exts)
    }

    /// The end of the file path starting at `a`.
    fn path_end(&self, a: usize) -> (r: Option<usize>)
        requires
            self.ok(),
            a <= self.t@.len(),
        ensures
            r is Some <==> path_end(self.t@, a as int) >= 0,
            r matches Some(e) ==> e as int == path_end(self.t@, a as int) && a < e <= self.t@.len(),
    {
        let s0 = if a < self.t.len() && a + 1 < self.t.len() && self.t[a] == '~' && self.t[a + 1] == '/' {
            a + 2
        } else {
            a
        };
        let r = self.run(s0, Class::Path);
        let mut h = r;
        while h > s0 && h - 1 > s0
            invariant
                self.ok(),
                a <= s0 <= r <= self.t@.len(),
                s0 as int == body_start(self.t@, a as int),
                r as int == run(self.t@, s0 as int, Class::Path),
                h <= r,
                last_valid_dot(self.t@, s0 + 1, r as int) == last_valid_dot(self.t@, s0 + 1, h as int),
            decreases h,
        {
            if self.valid_dot(h - 1) {
                let e = self.run(h, Class::Word);
                proof {
                    lemma_run_end(self.t@, h as int, class_fn(Class::Word));
                }
                return Some(e);
            }
            h = h - 1;
        }
        None
    }

    /// The file path match that starts at `s`.
    pub fn file_hit(&self, s: usize) -> (r: Option<ExecHit>)
        requires
            self.ok(),
        ensures
            opt_hit_view(r) == file_hit_at(self.t@, s as int),
            r matches Some(h) ==> s < h.end <= self.t@.len() && h.spans_within(self.t@.len()),
    {
        if s == 0 {
            match self.path_end(0) {
                Some(e) => {
                    return Some(hit1(e, 0, e));
                },
                None => {},
            }
        }
        if s < self.t.len() {
            let c = self.t[s];
            let delim = self.space[s] || c == ',' || c == ';' || c == '(' || c == '{' || c == '['
                || c == '`' || c == '"' || c == '\'';
            if delim {
                match self.path_end(s + 1) {
                    Some(e) => {
                        return Some(hit1(e, s + 1, e));
                    },
                    None => {},
                }
            }
        }
        None
    }

    /// `owner/repo` followed by `sep` at `p`.
    fn owner_repo(&self, p: usize, sep: char) -> (r: Option<(usize, usize, usize)>)
        requires
            self.ok(),
            p <= self.t@.len(),
        ensures
            r is Some <==> owner_repo(self.t@, p as int, sep) is Some,
            r matches Some((eo, ro, er)) ==> owner_repo(self.t@, p as int, sep) == Some(((p as int, eo as int), (ro as int, er as int)))
                && er < self.t@.len(),
    {
        let eo = self.run(p, Class::Name);
        if !(eo > p && eo < self.t.len() && self.t[eo] == '/') {
            return None;
        }
        let er = self.run(eo + 1, Class::Name);
        if er > eo + 1 && er < self.t.len() && self.t[er] == sep {
            Some((eo, eo + 1, er))
        } else {
            None
        }
    }

    /// The GitHub issue or pull request URL that starts at `s`.
    pub fn github_url_hit(&self, s: usize) -> (r: Option<ExecHit>)
        requires
            self.ok(),
        ensures
            opt_hit_view(r) == github_url_at(self.t@, s as int),
            r matches Some(h) ==> s < h.end <= self.t@.len() && h.spans_within(self.t@.len()),
    {
        let prefix = crate::text::chars_of("https://github.com/");
        proof {
            reveal_strlit("https://github.com/");
        }
        if !lit_at(self.t.as_slice(), s, prefix.as_slice()) {
            return None;
        }
        let p = s + 19;
        match self.owner_repo(p, '/') {
            None => None,
            Some((eo, ro, er)) => {
                let k = er + 1;
                let issues = crate::text::chars_of("issues/");
                let pull = crate::text::chars_of("pull/");
                proof {
                    reveal_strlit("issues/");
                    reveal_strlit("pull/");
                }
                let ke: usize = if lit_at(self.t.as_slice(), k, issues.as_slice()) {
                    k + 6
                } else if lit_at(self.t.as_slice(), k, pull.as_slice()) {
                    k + 4
                } else {
                    return None;
                };
                let ne = self.run(ke + 1, Class::Digit);
                if ne > ke + 1 {
                    Some(ExecHit { end: ne, g1: (p, eo), g2: (ro, er), g3: (k, ke), g4: (ke + 1, ne) })
                } else {
                    None
                }
            },
        }
    }

    /// `owner/repo#digits` at `p`.
    fn short_body(&self, p: usize) -> (r: Option<ExecHit>)
        requires
            self.ok(),
            p <= self.t@.len(),
        ensures
            opt_hit_view(r) == short_body_at(self.t@, p as int),
            r matches Some(h) ==> p < h.end <= self.t@.len() && h.spans_within(self.t@.len()),
    {
        match self.owner_repo(p, '#') {
            None => None,
            Some((eo, ro, er)) => {
                let ne = self.run(er + 1, Class::Digit);
                if ne > er + 1 {
                    Some(ExecHit { end: ne, g1: (p, eo), g2: (ro, er), g3: (0, 0), g4: (er + 1, ne) })
                } else {
                    None
                }
            },
        }
    }

    /// The GitHub shorthand match that starts at `s`.
    pub fn short_hit(&self, s: usize) -> (r: Option<ExecHit>)
        requires
            self.ok(),
        ensures
            opt_hit_view(r) == short_hit_at(self.t@, s as int),
            r matches Some(h) ==> s < h.end <= self.t@.len() && h.spans_within(self.t@.len()),
    {
        if s == 0 {
            let h = self.short_body(0);
            if h.is_some() {
                return h;
            }
        }
        if s < self.t.len() {
            let c = self.t[s];
            if self.space[s] || c == ',' || c == '(' || c == '{' || c == '[' || c == '`' {
                return self.short_body(s + 1);
            }
        }
        None
    }

    /// The URL match that starts at `s`.
    pub fn url_hit(&self, s: usize) -> (r: Option<ExecHit>)
        requires
            self.ok(),
        ensures
            opt_hit_view(r) == url_hit_at(self.t@, s as int),
            r matches Some(h) ==> s < h.end <= self.t@.len() && h.spans_within(self.t@.len()),
    {
        let https = crate::text::chars_of("https://");
        let http = crate::text::chars_of("http://");
        proof {
            reveal_strlit("https://");
            reveal_strlit("http://");
        }
        let p = if lit_at(self.t.as_slice(), s, https.as_slice()) {
            s + 8
        } else if lit_at(self.t.as_slice(), s, http.as_slice()) {
            s + 7
        } else {
            return None;
        };
        let e = self.run(p, Class::UrlChar);
        if e > p {
            Some(hit1(e, s, e))
        } else {
            None
        }
    }

    fn ident_start(&self, i: usize) -> (b: bool)
        requires
            self.ok(),
            i < self.t@.len(),
        ensures
            b == ident_start(self.t@[i as int]),
    {
        let c = self.t[i];
        ascii_lower(c) || ascii_upper(c) || c == '_'
    }

    /// `ident(::ident)+` at `p`.
    fn sym_body(&self, p: usize) -> (r: Option<ExecHit>)
        requires
            self.ok(),
            p <= self.t@.len(),
        ensures
            opt_hit_view(r) == sym_body_at(self.t@, p as int),
            r matches Some(h) ==> p < h.end <= self.t@.len() && h.spans_within(self.t@.len()),
    {
        if p >= self.t.len() || !self.ident_start(p) {
            return None;
        }
        let e1 = self.run(p + 1, Class::Word);
        let mut q = e1;
        while q < self.t.len() && self.t.len() - q > 2 && self.t[q] == ':' && self.t[q + 1] == ':' && self.ident_start(q + 2)
            invariant
                self.ok(),
                e1 <= q <= self.t@.len(),
                segments_end(self.t@, e1 as int) == segments_end(self.t@, q as int),
            decreases self.t@.len() - q,
        {
            let r = self.run(q + 3, Class::Word);
            q = r;
        }
        if q > e1 {
            Some(hit1(q, p, q))
        } else {
            None
        }
    }

    /// `[A-Z][a-z]+([A-Z][a-z0-9]*)+` at `p`.
    fn pascal_body(&self, p: usize) -> (r: Option<ExecHit>)
        requires
            self.ok(),
            p <= self.t@.len(),
        ensures
            opt_hit_view(r) == pascal_body_at(self.t@, p as int),
            r matches Some(h) ==> p < h.end <= self.t@.len() && h.spans_within(self.t@.len()),
    {
        if p >= self.t.len() || !ascii_upper(self.t[p]) {
            return None;
        }
        let l = self.run(p + 1, Class::Lower);
        let mut q = l;
        while q < self.t.len() && ascii_upper(self.t[q])
            invariant
                self.ok(),
                l <= q <= self.t@.len(),
                humps_end(self.t@, l as int) == humps_end(self.t@, q as int),
            decreases self.t@.len() - q,
        {
            let r = self.run(q + 1, Class::LowerDigit);
            q = r;
        }
        if l > p + 1 && q > l {
            Some(hit1(q, p, q))
        } else {
            None
        }
    }

    fn sym_delim_at(&self, s: usize) -> (b: bool)
        requires
            self.ok(),
            s < self.t@.len(),
        ensures
            b == sym_delim(self.t@[s as int]),
    {
        let c = self.t[s];
        self.space[s] || c == ',' || c == ';' || c == '(' || c == '{' || c == '[' || c == '`'
    }

    /// The qualified-path symbol match that starts at `s`.
    pub fn sym_hit(&self, s: usize) -> (r: Option<ExecHit>)
        requires
            self.ok(),
        ensures
            opt_hit_view(r) == hit_at(Pattern::SymbolPath, self.t@, s as int),
            r matches Some(h) ==> s < h.end <= self.t@.len() && h.spans_within(self.t@.len()),
    {
        if s == 0 {
            let h = self.sym_body(0);
            if h.is_some() {
                return h;
            }
        }
        if s < self.t.len() && self.sym_delim_at(s) {
            return self.sym_body(s + 1);
        }
        None
    }

    /// The PascalCase symbol match that starts at `s`.
    pub fn pascal_hit(&self, s: usize) -> (r: Option<ExecHit>)
        requires
            self.ok(),
        ensures
            opt_hit_view(r) == hit_at(Pattern::PascalCase, self.t@, s as int),
            r matches Some(h) ==> s < h.end <= self.t@.len() && h.spans_within(self.t@.len()),
    {
        if s == 0 {
            let h = self.pascal_body(0);
            if h.is_some() {
                return h;
            }
        }
        if s < self.t.len() && self.sym_delim_at(s) {
            return self.pascal_body(s + 1);
        }
        None
    }

    /// The match of pattern `k` that starts at `s`.
    pub fn hit(&self, k: Pattern, s: usize) -> (r: Option<ExecHit>)
        requires
            self.ok(),
        ensures
            opt_hit_view(r) == hit_at(k, self.t@, s as int),
            r matches Some(h) ==> s < h.end <= self.t@.len() && h.spans_within(self.t@.len()),
    {
        match k {
            Pattern::FilePath => self.file_hit(s),
            Pattern::GitHubUrl => self.github_url_hit(s),
            Pattern::GitHubShort => self.short_hit(s),
            Pattern::Url => self.url_hit(s),
            Pattern::SymbolPath => self.sym_hit(s),
            Pattern::PascalCase => self.pascal_hit(s),
        }
    }

    /// Whether `k` matches anywhere in the text.
    pub fn matches_somewhere(&self, k: Pattern) -> (b: bool)
        requires
            self.ok(),
        ensures
            b == matches_anywhere(k, self.t@),
    {
        let mut s: usize = 0;
        while s < self.t.len()
            invariant
                self.ok(),
                s <= self.t@.len(),
                first_hit(k, self.t@, 0) == first_hit(k, self.t@, s as int),
            decreases self.t@.len() - s,
        {
            if self.hit(k, s).is_some() {
                return true;
            }
            s = s + 1;
        }
        false
    }

    /// All matches of `k`, left to right, each search resuming where the
    /// previous match ended.
    pub fn all_hits(&self, k: Pattern) -> (r: Vec<ExecHit>)
        requires
            self.ok(),
        ensures
            r@.map_values(|h: ExecHit| h.view()) == hits(k, self.t@, 0),
            forall|i: int| 0 <= i < r@.len() ==> #[trigger] r@[i].spans_within(self.t@.len()),
    {
        let mut out: Vec<ExecHit> = Vec::new();
        let mut pos: usize = 0;
        let mut s: usize = 0;
        while s < self.t.len()
            invariant
                self.ok(),
                pos <= s <= self.t@.len(),
                hits(k, self.t@, 0) == out@.map_values(|h: ExecHit| h.view()) + hits(k, self.t@, pos as int),
                first_hit(k, self.t@, pos as int) == first_hit(k, self.t@, s as int),
                forall|i: int| 0 <= i < out@.len() ==> #[trigger] out@[i].spans_within(self.t@.len()),
            decreases self.t@.len() - s,
        {
            match self.hit(k, s) {
                Some(h) => {
                    proof {
                        assert(first_hit(k, self.t@, s as int) == Some(h.view()));
                        assert(hits(k, self.t@, pos as int) == seq![h.view()] + hits(k, self.t@, h.end as int));
                        assert(out@.push(h).map_values(|h: ExecHit| h.view())
                            =~= out@.map_values(|h: ExecHit| h.view()).push(h.view()));
                    }
                    out.push(h);
                    pos = h.end;
                    s = h.end;
                },
                None => {
                    s = s + 1;
                },
            }
        }
        proof {
            assert(hits(k, self.t@, pos as int) == Seq::<Hit>::empty());
        }
        out
    }
}
} // verus!
