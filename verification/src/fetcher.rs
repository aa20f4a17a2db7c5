//! Context fetchers: which references a fetcher resolves, and how what it
//! read (a file, a directory listing, the output of `gh`) becomes a
//! [`ContextEntry`].
use vstd::prelude::*;

use crate::context::{ContextBundle, ContextEntry, ContextRef, RefView};
use crate::error::SakamotoError;
use crate::json::{json_field_str, json_top_level_str};
use crate::paths::{extension_of, is_absolute_path, path_extension, path_is_absolute, path_push, pushed};
use crate::strmap::StrMap;
use crate::text::{
    chars_of, decimal, extend_chars, extend_str, join, join_strings, lines, split_lines, string_of,
    to_owned_string, u64_to_string, views,
};

verus! {

/// Lexicographic order of texts by character (the order of `String`'s `Ord`,
/// which compares UTF-8 bytes, and so code points).
pub open spec fn lex_le(a: Seq<char>, b: Seq<char>) -> bool
    decreases a.len(),
{
    if a.len() == 0 {
        true
    } else if b.len() == 0 {
        false
    } else if a[0] != b[0] {
        (a[0] as u32) < (b[0] as u32)
    } else {
        lex_le(a.drop_first(), b.drop_first())
    }
}

/// `slice::sort` on strings: the same strings, in ascending order.
#[verifier::external_body]
fn sort_strings(v: &mut Vec<String>)
    ensures
        views(final(v)@).to_multiset() == views(old(v)@).to_multiset(),
        final(v)@.len() == old(v)@.len(),
        forall|i: int| 0 <= i < final(v)@.len() - 1 ==> lex_le(#[trigger] final(v)@[i]@, final(v)@[i + 1]@),
{
    v.sort();
}

/// A context error `{prefix}{path}': {error}`.
fn quoted_error(prefix: &str, path: &str, error: &str) -> (e: SakamotoError)
    ensures
        e matches SakamotoError::ContextError(m) && m@ == prefix@ + path@ + "': "@ + error@,
{
    let mut m = chars_of(prefix);
    extend_str(&mut m, path);
    extend_str(&mut m, "': ");
    extend_str(&mut m, error);
    SakamotoError::ContextError(string_of(m.as_slice()))
}

/// Resolves file path references from the filesystem.
#[derive(Debug, Clone)]
pub struct FilesystemFetcher {
    /// Root directory for resolving relative paths.
    pub root: String,
    /// Maximum file size to read (bytes).
    pub max_size: u64,
}

/// A directory entry as listed: its name and whether it is a directory.
#[derive(Debug, Clone)]
pub struct DirItem {
    pub name: String,
    pub is_dir: bool,
}

/// The name a directory entry is listed under: directories end in `/`.
pub open spec fn listed_name(d: DirItem) -> Seq<char> {
    if d.is_dir {
        d.name@ + "/"@
    } else {
        d.name@
    }
}

impl FilesystemFetcher {
    /// Create a fetcher rooted at the given directory, reading files of up
    /// to 1 MB.
    pub fn new(root: &str) -> (f: FilesystemFetcher)
        ensures
            f.root@ == root@,
            f.max_size == 1_000_000,
    {
        FilesystemFetcher { root: to_owned_string(root), max_size: 1_000_000 }
    }

    /// Set the maximum file size.
    pub fn with_max_size(self, max_size: u64) -> (f: FilesystemFetcher)
        ensures
            f.root == self.root,
            f.max_size == max_size,
    {
        FilesystemFetcher { root: self.root, max_size }
    }

    /// Where a path points: an absolute path as it is, a relative one under
    /// the root.
    pub open spec fn spec_resolve(&self, path: Seq<char>) -> Seq<char> {
        if is_absolute_path(path) {
            path
        } else {
            pushed(self.root@, path)
        }
    }

    /// Resolve a path relative to the root.
    pub fn resolve(&self, path: &str) -> (r: String)
        ensures
            r@ == self.spec_resolve(path@),
    {
        if path_is_absolute(path) {
            to_owned_string(path)
        } else {
            path_push(self.root.as_str(), path)
        }
    }

    /// Whether this fetcher resolves a reference: file paths only.
    pub fn can_fetch(&self, context_ref: &ContextRef) -> (b: bool)
        ensures
            b == (context_ref is FilePath),
    {
        match context_ref {
            ContextRef::FilePath { .. } => true,
            _ => false,
        }
    }

    /// The path a reference names and where it resolves to; an error for
    /// references that are no file paths.
    pub fn target(&self, context_ref: &ContextRef) -> (r: Result<(String, String), SakamotoError>)
        ensures
            context_ref is FilePath <==> r is Ok,
            r matches Ok((p, resolved)) ==> context_ref@ == RefView::FilePath(p@) && resolved@
                == self.spec_resolve(p@),
            r matches Err(e) ==> e matches SakamotoError::ContextError(m) && m@
                == "FilesystemFetcher can only fetch FilePath refs"@,
    {
        match context_ref {
            ContextRef::FilePath { path } => {
                let resolved = self.resolve(path.as_str());
                Ok((path.clone(), resolved))
            },
            _ => Err(SakamotoError::ContextError(to_owned_string("FilesystemFetcher can only fetch FilePath refs"))),
        }
    }

    /// The error when the filesystem cannot say what the path is:
    /// `cannot stat '{path}': {error}`.
    pub fn stat_error(path: &str, error: &str) -> (e: SakamotoError)
        ensures
            e matches SakamotoError::ContextError(m) && m@ == "cannot stat '"@ + path@ + "': "@ + error@,
    {
        quoted_error("cannot stat '", path, error)
    }

    /// The error when a directory cannot be listed:
    /// `cannot read directory '{path}': {error}`.
    pub fn read_dir_error(path: &str, error: &str) -> (e: SakamotoError)
        ensures
            e matches SakamotoError::ContextError(m) && m@ == "cannot read directory '"@ + path@ + "': "@ + error@,
    {
        quoted_error("cannot read directory '", path, error)
    }

    /// The error when an entry of a directory cannot be read:
    /// `error reading directory entry: {error}`.
    pub fn dir_entry_error(error: &str) -> (e: SakamotoError)
        ensures
            e matches SakamotoError::ContextError(m) && m@ == "error reading directory entry: "@ + error@,
    {
        let mut m = chars_of("error reading directory entry: ");
        extend_str(&mut m, error);
        SakamotoError::ContextError(string_of(m.as_slice()))
    }

    /// The error when a file cannot be read: `cannot read '{path}': {error}`.
    pub fn read_error(path: &str, error: &str) -> (e: SakamotoError)
        ensures
            e matches SakamotoError::ContextError(m) && m@ == "cannot read '"@ + path@ + "': "@ + error@,
    {
        quoted_error("cannot read '", path, error)
    }

    /// The size check before reading a file: an error when the file is
    /// larger than the maximum size.
    pub fn check_size(&self, path: &str, len: u64) -> (r: Result<(), SakamotoError>)
        ensures
            r is Ok <==> len <= self.max_size,
            r matches Err(e) ==> e matches SakamotoError::ContextError(m) && m@ == "file '"@ + path@
                + "' is "@ + decimal(len as nat) + " bytes, exceeds max size of "@ + decimal(
                self.max_size as nat,
            ) + " bytes"@,
    {
        if len > self.max_size {
            let mut v = chars_of("file '");
            extend_str(&mut v, path);
            extend_str(&mut v, "' is ");
            let a = crate::text::decimal_chars(len);
            extend_chars(&mut v, a.as_slice());
            extend_str(&mut v, " bytes, exceeds max size of ");
            let b = crate::text::decimal_chars(self.max_size);
            extend_chars(&mut v, b.as_slice());
            extend_str(&mut v, " bytes");
            return Err(SakamotoError::ContextError(string_of(v.as_slice())));
        }
        Ok(())
    }

    /// The entry of a directory: its entries' names (directories ending in
    /// `/`) sorted and one per line, with metadata `type: directory`.
    pub fn directory_entry(&self, context_ref: &ContextRef, items: Vec<DirItem>) -> (e: ContextEntry)
        ensures
            e.source@ == context_ref@,
            e.metadata.as_map() == Map::<Seq<char>, String>::empty().insert("type"@, e.metadata.as_map()["type"@]),
            e.metadata.as_map()["type"@]@ == "directory"@,
            exists|names: Seq<Seq<char>>| {
                &&& names.to_multiset() == items@.map_values(|d: DirItem| listed_name(d)).to_multiset()
                &&& forall|i: int| 0 <= i < names.len() - 1 ==> lex_le(#[trigger] names[i], names[i + 1])
                &&& e.content@ == join(names, "\n"@)
            },
    {
        let mut names: Vec<String> = Vec::new();
        let mut i: usize = 0;
        while i < items.len()
            invariant
                i <= items@.len(),
                views(names@) == items@.take(i as int).map_values(|d: DirItem| listed_name(d)),
            decreases items@.len() - i,
        {
            let d = &items[i];
            proof {
                reveal_strlit("/");
            }
            let n = if d.is_dir {
                let mut v = chars_of(d.name.as_str());
                extend_str(&mut v, "/");
                string_of(v.as_slice())
            } else {
                d.name.clone()
            };
            proof {
                assert(n@ == listed_name(items@[i as int]));
                assert(items@.take(i + 1) =~= items@.take(i as int).push(items@[i as int]));
                assert(items@.take(i + 1).map_values(|d: DirItem| listed_name(d)) =~= items@.take(
                    i as int,
                ).map_values(|d: DirItem| listed_name(d)).push(listed_name(items@[i as int])));
                assert(views(names@.push(n)) =~= views(names@).push(n@));
            }
            names.push(n);
            i = i + 1;
        }
        proof {
            assert(items@.take(items@.len() as int) =~= items@);
        }
        sort_strings(&mut names);
        let content = join_strings(&names, "\n");
        let mut meta: StrMap<String> = StrMap::new();
        meta.insert(to_owned_string("type"), to_owned_string("directory"));
        proof {
            assert(meta.as_map() =~= Map::<Seq<char>, String>::empty().insert("type"@, meta.as_map()["type"@]));
            assert(forall|i: int| 0 <= i < views(names@).len() - 1 ==> #[trigger] views(names@)[i] == names@[i]@);
        }
        ContextEntry { source: context_ref.duplicate(), content, metadata: meta }
    }

    /// The entry of a file: its content, with metadata `type: file`, the
    /// path's extension when it has one, and the number of lines.
    pub fn file_entry(&self, context_ref: &ContextRef, path: &str, content: String) -> (e: ContextEntry)
        ensures
            e.source@ == context_ref@,
            e.content == content,
            e.metadata.as_map().dom().contains("type"@),
            e.metadata.as_map()["type"@]@ == "file"@,
            e.metadata.as_map().dom().contains("lines"@),
            e.metadata.as_map()["lines"@]@ == decimal(lines(content@).len()),
            e.metadata.as_map().dom().contains("extension"@) <==> extension_of(path@) is Some,
            extension_of(path@) matches Some(x) ==> e.metadata.as_map()["extension"@]@ == x,
            e.metadata.as_map().dom() == (if extension_of(path@) is Some {
                set!["type"@, "lines"@, "extension"@]
            } else {
                set!["type"@, "lines"@]
            }),
    {
        let mut meta: StrMap<String> = StrMap::new();
        proof {
            reveal_strlit("type");
            reveal_strlit("extension");
            reveal_strlit("lines");
        }
        meta.insert(to_owned_string("type"), to_owned_string("file"));
        match path_extension(path) {
            Some(x) => {
                meta.insert(to_owned_string("extension"), x);
            },
            None => {},
        }
        let cs = chars_of(content.as_str());
        let ls = split_lines(cs.as_slice());
        let n = ls.len();
        meta.insert(to_owned_string("lines"), u64_to_string(n as u64));
        proof {
            reveal_strlit("type");
            reveal_strlit("extension");
            reveal_strlit("lines");
            assert("type"@.len() == 4);
            assert("lines"@.len() == 5);
            assert("extension"@.len() == 9);
            if extension_of(path@) is Some {
                assert(meta.as_map().dom() =~= set!["type"@, "lines"@, "extension"@]);
            } else {
                assert(meta.as_map().dom() =~= set!["type"@, "lines"@]);
            }
        }
        ContextEntry { source: context_ref.duplicate(), content, metadata: meta }
    }
}

/// Resolves GitHub issue and pull request references with the `gh` CLI.
#[derive(Debug, Clone, Copy)]
pub struct GitHubFetcher;

impl Default for GitHubFetcher {
    fn default() -> (f: GitHubFetcher) {
        GitHubFetcher::new()
    }
}

/// A `gh` invocation for a reference.
#[derive(Debug, Clone)]
pub struct GhRequest {
    /// `issue` or `pr`.
    pub kind: String,
    pub owner: String,
    pub repo: String,
    pub number: u64,
    /// The arguments of `gh`.
    pub args: Vec<String>,
}

/// What running `gh` gave.
#[derive(Debug, Clone)]
pub enum GhRun {
    /// `gh` could not be started; the error's text.
    NotStarted(String),
    /// `gh` ran: whether it succeeded, and its output as text.
    Finished { success: bool, stdout: String, stderr: String },
}

/// `{owner}/{repo}#{number}`.
pub open spec fn gh_ref_text(owner: Seq<char>, repo: Seq<char>, number: u64) -> Seq<char> {
    owner + "/"@ + repo + "#"@ + decimal(number as nat)
}

impl GitHubFetcher {
    pub fn new() -> (f: GitHubFetcher) {
        GitHubFetcher
    }

    /// Whether this fetcher resolves a reference: GitHub issues and PRs.
    pub fn can_fetch(&self, context_ref: &ContextRef) -> (b: bool)
        ensures
            b == (context_ref is GitHubIssue || context_ref is GitHubPr),
    {
        match context_ref {
            ContextRef::GitHubIssue { .. } => true,
            ContextRef::GitHubPr { .. } => true,
            _ => false,
        }
    }

    /// The `gh` invocation for a reference:
    /// `gh {issue|pr} view {number} --repo {owner}/{repo} --json title,body,state,labels,comments`;
    /// an error for references that are not GitHub references.
    pub fn request(&self, context_ref: &ContextRef) -> (r: Result<GhRequest, SakamotoError>)
        ensures
            r is Ok <==> (context_ref is GitHubIssue || context_ref is GitHubPr),
            r matches Err(e) ==> e matches SakamotoError::ContextError(m) && m@
                == "GitHubFetcher can only fetch GitHub refs"@,
            r matches Ok(q) ==> {
                &&& q.kind@ == (if context_ref is GitHubIssue { "issue"@ } else { "pr"@ })
                &&& context_ref@ == (if context_ref is GitHubIssue {
                    RefView::GitHubIssue(q.owner@, q.repo@, q.number)
                } else {
                    RefView::GitHubPr(q.owner@, q.repo@, q.number)
                })
                &&& views(q.args@) == seq![
                    q.kind@,
                    "view"@,
                    decimal(q.number as nat),
                    "--repo"@,
                    q.owner@ + "/"@ + q.repo@,
                    "--json"@,
                    "title,body,state,labels,comments"@,
                ]
            },
    {
        let (owner, repo, number, kind) = match context_ref {
            ContextRef::GitHubIssue { owner, repo, number } => (owner, repo, *number, "issue"),
            ContextRef::GitHubPr { owner, repo, number } => (owner, repo, *number, "pr"),
            _ => {
                return Err(SakamotoError::ContextError(to_owned_string("GitHubFetcher can only fetch GitHub refs")));
            },
        };
        let mut slug = chars_of(owner.as_str());
        extend_str(&mut slug, "/");
        extend_str(&mut slug, repo.as_str());
        let mut args: Vec<String> = Vec::new();
        args.push(to_owned_string(kind));
        args.push(to_owned_string("view"));
        args.push(u64_to_string(number));
        args.push(to_owned_string("--repo"));
        args.push(string_of(slug.as_slice()));
        args.push(to_owned_string("--json"));
        args.push(to_owned_string("title,body,state,labels,comments"));
        proof {
            assert(views(args@) =~= seq![
                kind@,
                "view"@,
                decimal(number as nat),
                "--repo"@,
                owner@ + "/"@ + repo@,
                "--json"@,
                "title,body,state,labels,comments"@,
            ]);
        }
        Ok(GhRequest { kind: to_owned_string(kind), owner: owner.clone(), repo: repo.clone(), number, args })
    }

    /// What a run of `gh` gives: an error when it could not start or did
    /// not succeed; otherwise an entry of its output, with metadata `type`,
    /// `owner`, `repo` and `number`, and `title` and `state` when the output
    /// is JSON that holds them as strings.
    pub fn outcome(&self, context_ref: &ContextRef, req: &GhRequest, run: GhRun) -> (r: Result<ContextEntry, SakamotoError>)
        ensures
            match run {
                GhRun::NotStarted(err) => r matches Err(e) && e matches SakamotoError::ContextError(m) && m@
                    == "failed to run `gh "@ + req.kind@ + " view` for "@ + gh_ref_text(req.owner@, req.repo@, req.number)
                    + ": "@ + err@,
                GhRun::Finished { success, stdout, stderr } => if !success {
                    r matches Err(e) && e matches SakamotoError::ContextError(m) && m@ == "`gh "@ + req.kind@
                        + " view` failed for "@ + gh_ref_text(req.owner@, req.repo@, req.number) + ": "@ + stderr@
                } else {
                    r matches Ok(entry) && entry.source@ == context_ref@ && entry.content == stdout && {
                        let m = entry.metadata.as_map();
                        &&& m["type"@]@ == req.kind@
                        &&& m["owner"@]@ == req.owner@
                        &&& m["repo"@]@ == req.repo@
                        &&& m["number"@]@ == decimal(req.number as nat)
                        &&& m.dom().contains("title"@) <==> json_field_str(stdout@, "title"@) is Some
                        &&& json_field_str(stdout@, "title"@) matches Some(t) ==> m["title"@]@ == t
                        &&& m.dom().contains("state"@) <==> json_field_str(stdout@, "state"@) is Some
                        &&& json_field_str(stdout@, "state"@) matches Some(s) ==> m["state"@]@ == s
                        &&& m.dom().contains("type"@) && m.dom().contains("owner"@)
                        &&& m.dom().contains("repo"@) && m.dom().contains("number"@)
                        &&& forall|k: Seq<char>| #[trigger] m.dom().contains(k) ==> (k == "type"@ || k == "owner"@
                            || k == "repo"@ || k == "number"@ || k == "title"@ || k == "state"@)
                    }
                },
            },
    {
        let mut refv = chars_of(req.owner.as_str());
        extend_str(&mut refv, "/");
        extend_str(&mut refv, req.repo.as_str());
        extend_str(&mut refv, "#");
        let nd = crate::text::decimal_chars(req.number);
        extend_chars(&mut refv, nd.as_slice());
        match run {
            GhRun::NotStarted(err) => {
                let mut m = chars_of("failed to run `gh ");
                extend_str(&mut m, req.kind.as_str());
                extend_str(&mut m, " view` for ");
                extend_chars(&mut m, refv.as_slice());
                extend_str(&mut m, ": ");
                extend_str(&mut m, err.as_str());
                proof {
                    assert(m@ =~= "failed to run `gh "@ + req.kind@ + " view` for "@ + gh_ref_text(
                        req.owner@,
                        req.repo@,
                        req.number,
                    ) + ": "@ + err@);
                }
                Err(SakamotoError::ContextError(string_of(m.as_slice())))
            },
            GhRun::Finished { success, stdout, stderr } => {
                if !success {
                    let mut m = chars_of("`gh ");
                    extend_str(&mut m, req.kind.as_str());
                    extend_str(&mut m, " view` failed for ");
                    extend_chars(&mut m, refv.as_slice());
                    extend_str(&mut m, ": ");
                    extend_str(&mut m, stderr.as_str());
                    proof {
                        assert(m@ =~= "`gh "@ + req.kind@ + " view` failed for "@ + gh_ref_text(
                            req.owner@,
                            req.repo@,
                            req.number,
                        ) + ": "@ + stderr@);
                    }
                    return Err(SakamotoError::ContextError(string_of(m.as_slice())));
                }
                proof {
                    reveal_strlit("type");
                    reveal_strlit("owner");
                    reveal_strlit("repo");
                    reveal_strlit("number");
                    reveal_strlit("title");
                    reveal_strlit("state");
                }
                let mut meta: StrMap<String> = StrMap::new();
                meta.insert(to_owned_string("type"), req.kind.clone());
                meta.insert(to_owned_string("owner"), req.owner.clone());
                meta.insert(to_owned_string("repo"), req.repo.clone());
                meta.insert(to_owned_string("number"), u64_to_string(req.number));
                match json_top_level_str(stdout.as_str(), "title") {
                    Some(t) => {
                        meta.insert(to_owned_string("title"), t);
                    },
                    None => {},
                }
                match json_top_level_str(stdout.as_str(), "state") {
                    Some(s) => {
                        meta.insert(to_owned_string("state"), s);
                    },
                    None => {},
                }
                proof {
                    assert("type"@.len() == 4 && "owner"@.len() == 5 && "repo"@.len() == 4);
                    assert("number"@.len() == 6 && "title"@.len() == 5 && "state"@.len() == 5);
                    assert("type"@[0] != "repo"@[0]);
                    assert("owner"@[0] != "title"@[0] && "owner"@[0] != "state"@[0]);
                    assert("title"@[0] != "state"@[0]);
                    assert("type"@ != "repo"@);
                    assert("owner"@ != "title"@ && "owner"@ != "state"@ && "title"@ != "state"@);
                }
                Ok(ContextEntry { source: context_ref.duplicate(), content: stdout, metadata: meta })
            },
        }
    }
}


// ---------------------------------------------------------------------------
// Hydration
// ---------------------------------------------------------------------------

/// The fetcher a reference goes to: the first of the registered fetchers
/// (`can_fetch[i]` says whether the `i`-th can fetch it), or none.
pub fn first_able(can_fetch: &Vec<bool>) -> (r: Option<usize>)
    ensures
        r is None <==> !can_fetch@.contains(true),
        r matches Some(i) ==> i < can_fetch@.len() && can_fetch@[i as int] && forall|j: int|
            0 <= j < i ==> !#[trigger] can_fetch@[j],
{
    let mut i: usize = 0;
    while i < can_fetch.len()
        invariant
            i <= can_fetch@.len(),
            forall|j: int| 0 <= j < i ==> !#[trigger] can_fetch@[j],
        decreases can_fetch@.len() - i,
    {
        if can_fetch[i] {
            return Some(i);
        }
        i = i + 1;
    }
    proof {
        if can_fetch@.contains(true) {
            let j = choose|j: int| 0 <= j < can_fetch@.len() && can_fetch@[j] == true;
            assert(!can_fetch@[j]);
        }
    }
    None
}

/// The entries that fetching gave, in order: a reference no fetcher takes
/// (`None`) or whose fetch failed adds nothing.
pub open spec fn fetched_entries(fetched: Seq<Option<Result<ContextEntry, SakamotoError>>>) -> Seq<ContextEntry>
    decreases fetched.len(),
{
    if fetched.len() == 0 {
        Seq::empty()
    } else {
        fetched_entries(fetched.drop_last()) + match fetched.last() {
            Some(Ok(e)) => seq![e],
            _ => Seq::empty(),
        }
    }
}

/// The second half of hydrating a bundle: the entries fetched for its
/// references, in the references' order, are appended to its entries.
/// Nothing else changes.
pub fn add_fetched(bundle: &mut ContextBundle, fetched: Vec<Option<Result<ContextEntry, SakamotoError>>>)
    ensures
        final(bundle).entries@ == old(bundle).entries@ + fetched_entries(fetched@),
        final(bundle).task_description == old(bundle).task_description,
        final(bundle).refs == old(bundle).refs,
        final(bundle).plan == old(bundle).plan,
        final(bundle).modified_files == old(bundle).modified_files,
        final(bundle).diagnostics == old(bundle).diagnostics,
        final(bundle).metadata == old(bundle).metadata,
{
    let ghost all = fetched@;
    let ghost n = all.len();
    let mut rest = fetched;
    assert(rest@ =~= all.subrange(0, n as int));
    assert(all.take(0) =~= Seq::<Option<Result<ContextEntry, SakamotoError>>>::empty());
    assert(bundle.entries@ =~= old(bundle).entries@ + fetched_entries(all.take(0)));
    while rest.len() > 0
        invariant
            rest@.len() <= n,
            n == all.len(),
            rest@ == all.subrange(n - rest@.len(), n as int),
            bundle.entries@ == old(bundle).entries@ + fetched_entries(all.take(n - rest@.len())),
            bundle.task_description == old(bundle).task_description,
            bundle.refs == old(bundle).refs,
            bundle.plan == old(bundle).plan,
            bundle.modified_files == old(bundle).modified_files,
            bundle.diagnostics == old(bundle).diagnostics,
            bundle.metadata == old(bundle).metadata,
        decreases rest@.len(),
    {
        let ghost k = n - rest@.len();
        let ghost before = rest@;
        let item = rest.remove(0);
        proof {
            assert(item == before[0]);
            assert(before[0] == all[k]);
            assert(rest@ =~= all.subrange(k + 1, n as int));
            assert(all.take(k + 1).drop_last() =~= all.take(k));
            assert(all.take(k + 1).last() == all[k]);
        }
        let ghost prev = bundle.entries@;
        match item {
            Some(Ok(e)) => {
                bundle.entries.push(e);
                proof {
                    assert(bundle.entries@ =~= old(bundle).entries@ + fetched_entries(all.take(k + 1)));
                }
            },
            _ => {
                proof {
                    assert(bundle.entries@ =~= old(bundle).entries@ + fetched_entries(all.take(k + 1)));
                }
            },
        }
    }
    proof {
        assert(all.take(n as int) =~= all);
    }
}

} // verus!
