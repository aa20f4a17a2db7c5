//! Context bundle and reference types for pre-hydration.
//!
//! The context engine parses task descriptions for references (file paths,
//! GitHub issues, URLs, symbols) and resolves them into content that seeds
//! the LLM's initial context.
use vstd::prelude::*;

use crate::error::Diagnostic;
use crate::paths::{components_of, path_components};
use crate::strmap::StrMap;
use crate::text::{
    chars_of, decimal, decimal_chars, extend_chars, extend_str, str_eq, string_of, to_owned_string, views,
};

verus! {

/// A reference extracted from a task description, to be resolved by a fetcher.
#[derive(Debug, Clone, Eq)]
pub enum ContextRef {
    /// A filesystem path (absolute or relative).
    FilePath { path: String },
    /// A GitHub issue reference.
    GitHubIssue { owner: String, repo: String, number: u64 },
    /// A GitHub pull request reference.
    GitHubPr { owner: String, repo: String, number: u64 },
    /// A generic URL to fetch.
    Url { url: String },
    /// A crate name to look up documentation for.
    Crate { name: String },
    /// A symbol name (function, type, trait) to search for in the codebase.
    Symbol { name: String },
}

/// The mathematical value of a [`ContextRef`].
pub enum RefView {
    FilePath(Seq<char>),
    GitHubIssue(Seq<char>, Seq<char>, u64),
    GitHubPr(Seq<char>, Seq<char>, u64),
    Url(Seq<char>),
    Crate(Seq<char>),
    Symbol(Seq<char>),
}

impl View for ContextRef {
    type V = RefView;

    open spec fn view(&self) -> RefView {
        match self {
            ContextRef::FilePath { path } => RefView::FilePath(path@),
            ContextRef::GitHubIssue { owner, repo, number } => RefView::GitHubIssue(owner@, repo@, *number),
            ContextRef::GitHubPr { owner, repo, number } => RefView::GitHubPr(owner@, repo@, *number),
            ContextRef::Url { url } => RefView::Url(url@),
            ContextRef::Crate { name } => RefView::Crate(name@),
            ContextRef::Symbol { name } => RefView::Symbol(name@),
        }
    }
}

/// Two references name the same thing: file paths when they have the same
/// components (as paths compare, so `a//b.rs` and `a/./b.rs` name
/// `a/b.rs`), any other references when they are equal.
pub open spec fn same_ref(a: RefView, b: RefView) -> bool {
    match (a, b) {
        (RefView::FilePath(p), RefView::FilePath(q)) => components_of(p) == components_of(q),
        _ => a == b,
    }
}

/// Some reference of `s` names the same thing as `x`.
pub open spec fn has_same(s: Seq<RefView>, x: RefView) -> bool {
    exists|i: int| 0 <= i < s.len() && #[trigger] same_ref(s[i], x)
}

/// No two references of `s` name the same thing.
pub open spec fn distinct_refs(s: Seq<RefView>) -> bool {
    forall|i: int, j: int| 0 <= i < j < s.len() ==> !same_ref(#[trigger] s[i], #[trigger] s[j])
}

/// Whether two sequences of texts are equal.
fn texts_eq(a: &Vec<String>, b: &Vec<String>) -> (r: bool)
    ensures
        r == (views(a@) == views(b@)),
{
    if a.len() != b.len() {
        proof {
            assert(views(a@).len() != views(b@).len());
        }
        return false;
    }
    let mut i: usize = 0;
    while i < a.len()
        invariant
            i <= a@.len(),
            a@.len() == b@.len(),
            forall|j: int| 0 <= j < i ==> a@[j]@ == b@[j]@,
        decreases a@.len() - i,
    {
        if !str_eq(a[i].as_str(), b[i].as_str()) {
            proof {
                assert(views(a@)[i as int] != views(b@)[i as int]);
            }
            return false;
        }
        i = i + 1;
    }
    proof {
        assert(views(a@) =~= views(b@));
    }
    true
}

/// The views of a sequence of references.
pub open spec fn ref_views(s: Seq<ContextRef>) -> Seq<RefView> {
    s.map_values(|r: ContextRef| r@)
}

impl RefView {
    /// The text a reference displays as: `file:…`, `issue:owner/repo#n`,
    /// `pr:owner/repo#n`, `url:…`, `crate:…` or `symbol:…`.
    pub open spec fn display(self) -> Seq<char> {
        match self {
            RefView::FilePath(p) => "file:"@ + p,
            RefView::GitHubIssue(o, r, n) => "issue:"@ + o + "/"@ + r + "#"@ + decimal(n as nat),
            RefView::GitHubPr(o, r, n) => "pr:"@ + o + "/"@ + r + "#"@ + decimal(n as nat),
            RefView::Url(u) => "url:"@ + u,
            RefView::Crate(n) => "crate:"@ + n,
            RefView::Symbol(n) => "symbol:"@ + n,
        }
    }
}

impl ContextRef {
    /// A copy of the reference.
    pub fn duplicate(&self) -> (r: ContextRef)
        ensures
            r@ == self@,
    {
        match self {
            ContextRef::FilePath { path } => ContextRef::FilePath { path: path.clone() },
            ContextRef::GitHubIssue { owner, repo, number } => ContextRef::GitHubIssue {
                owner: owner.clone(),
                repo: repo.clone(),
                number: *number,
            },
            ContextRef::GitHubPr { owner, repo, number } => ContextRef::GitHubPr {
                owner: owner.clone(),
                repo: repo.clone(),
                number: *number,
            },
            ContextRef::Url { url } => ContextRef::Url { url: url.clone() },
            ContextRef::Crate { name } => ContextRef::Crate { name: name.clone() },
            ContextRef::Symbol { name } => ContextRef::Symbol { name: name.clone() },
        }
    }

    /// Whether two references name the same thing: file paths compare by
    /// their components, other references by their fields.
    pub fn same(&self, other: &ContextRef) -> (b: bool)
        ensures
            b == same_ref(self@, other@),
    {
        match (self, other) {
            (ContextRef::FilePath { path: a }, ContextRef::FilePath { path: b }) => {
                let ca = path_components(a.as_str());
                let cb = path_components(b.as_str());
                texts_eq(&ca, &cb)
            },
            _ => self.identical(other),
        }
    }

    /// Whether two references are equal, field by field.
    pub fn identical(&self, other: &ContextRef) -> (b: bool)
        ensures
            b == (self@ == other@),
    {
        match (self, other) {
            (ContextRef::FilePath { path: a }, ContextRef::FilePath { path: b }) => str_eq(a.as_str(), b.as_str()),
            (
                ContextRef::GitHubIssue { owner: o1, repo: r1, number: n1 },
                ContextRef::GitHubIssue { owner: o2, repo: r2, number: n2 },
            ) => *n1 == *n2 && str_eq(o1.as_str(), o2.as_str()) && str_eq(r1.as_str(), r2.as_str()),
            (
                ContextRef::GitHubPr { owner: o1, repo: r1, number: n1 },
                ContextRef::GitHubPr { owner: o2, repo: r2, number: n2 },
            ) => *n1 == *n2 && str_eq(o1.as_str(), o2.as_str()) && str_eq(r1.as_str(), r2.as_str()),
            (ContextRef::Url { url: a }, ContextRef::Url { url: b }) => str_eq(a.as_str(), b.as_str()),
            (ContextRef::Crate { name: a }, ContextRef::Crate { name: b }) => str_eq(a.as_str(), b.as_str()),
            (ContextRef::Symbol { name: a }, ContextRef::Symbol { name: b }) => str_eq(a.as_str(), b.as_str()),
            _ => false,
        }
    }

    /// The reference's display text (what `to_string` gives).
    pub fn display(&self) -> (s: String)
        ensures
            s@ == self@.display(),
    {
        let mut v: Vec<char> = Vec::new();
        match self {
            ContextRef::FilePath { path } => {
                extend_str(&mut v, "file:");
                extend_str(&mut v, path.as_str());
            },
            ContextRef::GitHubIssue { owner, repo, number } => {
                extend_str(&mut v, "issue:");
                extend_str(&mut v, owner.as_str());
                extend_str(&mut v, "/");
                extend_str(&mut v, repo.as_str());
                extend_str(&mut v, "#");
                let d = decimal_chars(*number);
                extend_chars(&mut v, d.as_slice());
            },
            ContextRef::GitHubPr { owner, repo, number } => {
                extend_str(&mut v, "pr:");
                extend_str(&mut v, owner.as_str());
                extend_str(&mut v, "/");
                extend_str(&mut v, repo.as_str());
                extend_str(&mut v, "#");
                let d = decimal_chars(*number);
                extend_chars(&mut v, d.as_slice());
            },
            ContextRef::Url { url } => {
                extend_str(&mut v, "url:");
                extend_str(&mut v, url.as_str());
            },
            ContextRef::Crate { name } => {
                extend_str(&mut v, "crate:");
                extend_str(&mut v, name.as_str());
            },
            ContextRef::Symbol { name } => {
                extend_str(&mut v, "symbol:");
                extend_str(&mut v, name.as_str());
            },
        }
        string_of(v.as_slice())
    }
}

impl PartialEq for ContextRef {
    fn eq(&self, other: &Self) -> (r: bool) {
        self.same(other)
    }
}

impl vstd::std_specs::cmp::PartialEqSpecImpl for ContextRef {
    open spec fn obeys_eq_spec() -> bool {
        true
    }

    open spec fn eq_spec(&self, other: &ContextRef) -> bool {
        same_ref(self@, other@)
    }
}

/// Whether a reference occurs among the given ones, field by field.
pub fn contains_ref(refs: &Vec<ContextRef>, r: &ContextRef) -> (b: bool)
    ensures
        b == ref_views(refs@).contains(r@),
{
    let mut i: usize = 0;
    while i < refs.len()
        invariant
            i <= refs@.len(),
            forall|j: int| 0 <= j < i ==> refs@[j]@ != r@,
        decreases refs@.len() - i,
    {
        if refs[i].identical(r) {
            assert(ref_views(refs@)[i as int] == r@);
            return true;
        }
        i = i + 1;
    }
    proof {
        if ref_views(refs@).contains(r@) {
            let j = choose|j: int| 0 <= j < ref_views(refs@).len() && ref_views(refs@)[j] == r@;
            assert(refs@[j]@ == r@);
        }
    }
    false
}

/// Whether some reference among the given ones names the same thing as `r`.
pub fn has_same_ref(refs: &Vec<ContextRef>, r: &ContextRef) -> (b: bool)
    ensures
        b == has_same(ref_views(refs@), r@),
{
    let mut i: usize = 0;
    while i < refs.len()
        invariant
            i <= refs@.len(),
            forall|j: int| 0 <= j < i ==> !same_ref(#[trigger] ref_views(refs@)[j], r@),
        decreases refs@.len() - i,
    {
        if refs[i].same(r) {
            assert(same_ref(ref_views(refs@)[i as int], r@));
            return true;
        }
        i = i + 1;
    }
    false
}

/// A piece of resolved context content, keyed by its source reference.
#[derive(Debug, Clone)]
pub struct ContextEntry {
    /// The reference that was resolved to produce this content.
    pub source: ContextRef,
    /// The resolved content (file contents, issue body, page text, etc.).
    pub content: String,
    /// Optional metadata (e.g., file language, issue labels, HTTP status).
    pub metadata: StrMap<String>,
}

/// Accumulated context passed between pipeline stages.
///
/// This is the primary data structure that flows through the pipeline DAG.
/// It accumulates context as stages execute and is the input to each stage.
///
/// As a monoidal type, two `ContextBundle`s can be merged (e.g., after
/// parallel stages fan back in).
#[derive(Debug, Clone)]
pub struct ContextBundle {
    /// The original task description from the user.
    pub task_description: String,
    /// References extracted from the task description.
    pub refs: Vec<ContextRef>,
    /// Resolved context entries (pre-hydrated content).
    pub entries: Vec<ContextEntry>,
    /// The execution plan produced by the planning stage.
    pub plan: Option<String>,
    /// Files that have been modified during execution.
    pub modified_files: Vec<String>,
    /// Diagnostic messages accumulated during execution.
    pub diagnostics: Vec<Diagnostic>,
    /// Arbitrary key-value metadata for extensibility.
    pub metadata: StrMap<serde_json::Value>,
}

/// The mathematical value of a [`ContextBundle`].
pub struct BundleView {
    pub task_description: Seq<char>,
    pub refs: Seq<RefView>,
    pub entries: Seq<ContextEntry>,
    pub plan: Option<Seq<char>>,
    pub modified_files: Seq<Seq<char>>,
    pub diagnostics: Seq<Diagnostic>,
    pub metadata: Map<Seq<char>, serde_json::Value>,
}

pub open spec fn opt_view(o: Option<String>) -> Option<Seq<char>> {
    match o {
        Some(s) => Some(s@),
        None => None,
    }
}

impl View for ContextBundle {
    type V = BundleView;

    open spec fn view(&self) -> BundleView {
        BundleView {
            task_description: self.task_description@,
            refs: ref_views(self.refs@),
            entries: self.entries@,
            plan: opt_view(self.plan),
            modified_files: views(self.modified_files@),
            diagnostics: self.diagnostics@,
            metadata: self.metadata.as_map(),
        }
    }
}

/// The bundle of a task with nothing gathered yet.
pub open spec fn task_bundle(task: Seq<char>) -> BundleView {
    BundleView {
        task_description: task,
        refs: Seq::empty(),
        entries: Seq::empty(),
        plan: None,
        modified_files: Seq::empty(),
        diagnostics: Seq::empty(),
        metadata: Map::empty(),
    }
}

/// `a` merged with `b`: the lists concatenated, `a`'s task kept, `a`'s plan
/// kept unless it has none, and `a`'s metadata winning over `b`'s.
pub open spec fn merged(a: BundleView, b: BundleView) -> BundleView {
    BundleView {
        task_description: a.task_description,
        refs: a.refs + b.refs,
        entries: a.entries + b.entries,
        plan: if a.plan is None { b.plan } else { a.plan },
        modified_files: a.modified_files + b.modified_files,
        diagnostics: a.diagnostics + b.diagnostics,
        metadata: b.metadata.union_prefer_right(a.metadata),
    }
}

impl Default for ContextBundle {
    fn default() -> (b: ContextBundle)
        ensures
            b@ == task_bundle(Seq::empty()),
    {
        let b = ContextBundle::from_task("");
        proof {
            reveal_strlit("");
            assert(""@ =~= Seq::<char>::empty());
        }
        b
    }
}

impl ContextBundle {
    /// Create a new bundle from a task description.
    pub fn from_task(description: &str) -> (b: ContextBundle)
        ensures
            b@ == task_bundle(description@),
    {
        let b = ContextBundle {
            task_description: to_owned_string(description),
            refs: Vec::new(),
            entries: Vec::new(),
            plan: None,
            modified_files: Vec::new(),
            diagnostics: Vec::new(),
            metadata: StrMap::new(),
        };
        proof {
            assert(b@.refs =~= Seq::<RefView>::empty());
            assert(b@.modified_files =~= Seq::<Seq<char>>::empty());
            assert(b@.metadata =~= Map::<Seq<char>, serde_json::Value>::empty());
        }
        b
    }

    /// Merge another bundle into this one (monoidal combine).
    ///
    /// - `refs`, `entries`, `modified_files`, `diagnostics` are concatenated.
    /// - `plan` takes `other`'s value only if `self` has none.
    /// - `metadata` entries from `other` are inserted (existing keys are not overwritten).
    pub fn merge(&mut self, other: ContextBundle)
        ensures
            final(self)@ == merged(old(self)@, other@),
    {
        let ghost om = other.metadata.as_map();
        other.metadata.keys_distinct();
        let ContextBundle {
            task_description: _,
            refs: mut refs,
            entries: mut entries,
            plan,
            modified_files: mut modified_files,
            diagnostics: mut diagnostics,
            metadata,
        } = other;
        let ghost ks = metadata.keys();
        let ghost vs = metadata.values();
        self.refs.append(&mut refs);
        self.entries.append(&mut entries);
        self.modified_files.append(&mut modified_files);
        self.diagnostics.append(&mut diagnostics);
        if self.plan.is_none() {
            self.plan = plan;
        }
        let ghost base = self.metadata.as_map();
        let ghost before = *self;
        proof {
            assert(before@.refs =~= old(self)@.refs + other@.refs);
            assert(before@.modified_files =~= old(self)@.modified_files + other@.modified_files);
        }
        let mut rest = metadata.into_entries();
        let ghost all = rest@;
        let n = rest.len();
        let mut i: usize = 0;
        while i < n
            invariant
                n == all.len(),
                i <= n,
                rest@ == all.skip(i as int),
                self.task_description == before.task_description,
                self.refs == before.refs,
                self.entries == before.entries,
                self.plan == before.plan,
                self.modified_files == before.modified_files,
                self.diagnostics == before.diagnostics,
                all.map_values(|e: (String, serde_json::Value)| e.0@) == ks,
                all.map_values(|e: (String, serde_json::Value)| e.1) == vs,
                ks.no_duplicates(),
                ks.len() == vs.len(),
                om == crate::strmap::map_of(ks, vs),
                forall|k: Seq<char>| #[trigger] self.metadata.as_map().dom().contains(k)
                    <==> (base.dom().contains(k) || ks.take(i as int).contains(k)),
                forall|k: Seq<char>| #[trigger] self.metadata.as_map().dom().contains(k) ==>
                    self.metadata.as_map()[k] == (if base.dom().contains(k) { base[k] } else { om[k] }),
            decreases n - i,
        {
            let (k, v) = rest.remove(0);
            proof {
                assert(all.skip(i as int)[0] == all[i as int]);
                assert(all.skip(i as int).remove(0) =~= all.skip(i + 1));
                assert(k@ == ks[i as int]);
                assert(v == vs[i as int]);
                crate::dag::lemma_index_in_unique(ks, i as int);
                assert(om[k@] == v);
                let t1 = ks.take(i + 1);
                let t0 = ks.take(i as int);
                assert forall|x: Seq<char>| #[trigger] t1.contains(x) <==> (t0.contains(x) || x == k@) by {
                    if t1.contains(x) {
                        let j = choose|j: int| 0 <= j < t1.len() && t1[j] == x;
                        if j < i {
                            assert(t0[j] == x);
                        }
                    }
                    if t0.contains(x) {
                        let j = choose|j: int| 0 <= j < t0.len() && t0[j] == x;
                        assert(t1[j] == x);
                    }
                    if x == k@ {
                        assert(t1[i as int] == x);
                    }
                }
                if t0.contains(k@) {
                    let j = choose|j: int| 0 <= j < t0.len() && t0[j] == k@;
                    assert(ks[j] == ks[i as int]);
                }
            }
            self.metadata.insert_if_absent(k, v);
            i = i + 1;
        }
        proof {
            assert(ks.take(n as int) =~= ks);
            assert forall|k: Seq<char>| #[trigger] ks.contains(k) <==> om.dom().contains(k) by {}
            assert(self.metadata.as_map() =~= om.union_prefer_right(base));
        }
    }

    /// Consume two bundles and produce a merged result.
    pub fn combine(self, other: ContextBundle) -> (r: ContextBundle)
        ensures
            r@ == merged(self@, other@),
    {
        let mut s = self;
        s.merge(other);
        s
    }
}

/// Combining bundles is associative: `(a · b) · c` and `a · (b · c)` hold the
/// same task, references, entries, plan, files, diagnostics and metadata.
pub proof fn lemma_combine_associative(a: BundleView, b: BundleView, c: BundleView)
    ensures
        merged(merged(a, b), c) == merged(a, merged(b, c)),
{
    assert(merged(merged(a, b), c).refs =~= merged(a, merged(b, c)).refs);
    assert(merged(merged(a, b), c).entries =~= merged(a, merged(b, c)).entries);
    assert(merged(merged(a, b), c).modified_files =~= merged(a, merged(b, c)).modified_files);
    assert(merged(merged(a, b), c).diagnostics =~= merged(a, merged(b, c)).diagnostics);
    assert(merged(merged(a, b), c).metadata =~= merged(a, merged(b, c)).metadata);
}

/// The empty bundle is a right identity of combining: `a · default == a`.
pub proof fn lemma_combine_right_identity(a: BundleView)
    ensures
        merged(a, task_bundle(Seq::empty())) == a,
{
    let e = task_bundle(Seq::empty());
    assert(merged(a, e).refs =~= a.refs);
    assert(merged(a, e).entries =~= a.entries);
    assert(merged(a, e).modified_files =~= a.modified_files);
    assert(merged(a, e).diagnostics =~= a.diagnostics);
    assert(merged(a, e).metadata =~= a.metadata);
}

/// The empty bundle is a left identity of combining for everything but the
/// task description: `default · a` equals `a` with an empty task.
pub proof fn lemma_combine_left_identity(a: BundleView)
    ensures
        merged(task_bundle(Seq::empty()), a) == (BundleView { task_description: Seq::empty(), ..a }),
{
    let e = task_bundle(Seq::empty());
    assert(merged(e, a).refs =~= a.refs);
    assert(merged(e, a).entries =~= a.entries);
    assert(merged(e, a).modified_files =~= a.modified_files);
    assert(merged(e, a).diagnostics =~= a.diagnostics);
    assert(merged(e, a).metadata =~= a.metadata);
}

} // verus!
