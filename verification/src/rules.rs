//! Rule files and directory scoping.
//!
//! Rule files (Markdown) are merged into a system prompt. Rules are scoped
//! by directory: a rule file at `.sakamoto/rules/backend/rust.md` only
//! applies to stages working on files under `backend/`.
use vstd::prelude::*;

use crate::chars::{is_white_space, white_space};
use crate::paths::{
    components_of, parent_of, path_components, path_le, path_order_le, path_parent, path_push, path_starts_with,
    path_strip_prefix, pushed, starts_with_path, stripped_of,
};
use crate::scan::{run_end, lemma_run_end, slice_chars};
use crate::text::{chars_of, extend_chars, extend_str, join, lemma_join_push, string_of};

verus! {

/// A loaded rule file with its scope path.
#[derive(Debug, Clone)]
pub struct Rule {
    /// The path of the rule file relative to the rules directory, e.g.
    /// `general.md` or `backend/rust.md`.
    pub relative_path: String,
    /// The scope directory: none for rules in the root of the rules
    /// directory (they apply everywhere), `backend` for `backend/rust.md`.
    pub scope: Option<String>,
    /// The content of the rule file.
    pub content: String,
}

impl Rule {
    /// Whether the rule applies to a working path: unscoped rules always
    /// apply, scoped rules when the path starts with the scope.
    pub open spec fn spec_applies_to(&self, working_path: Seq<char>) -> bool {
        match self.scope {
            None => true,
            Some(scope) => starts_with_path(working_path, scope@),
        }
    }

    /// Returns `true` if this rule applies to the given working path.
    ///
    /// Rules with no scope (in the rules root) always apply.
    /// Scoped rules apply when the working path starts with the scope.
    pub fn applies_to(&self, working_path: &str) -> (b: bool)
        ensures
            b == self.spec_applies_to(working_path@),
    {
        match &self.scope {
            None => true,
            Some(scope) => path_starts_with(working_path, scope.as_str()),
        }
    }

    /// A rule read from the file at `relative_path` (relative to the rules
    /// directory): its scope is the path's parent, unless that is empty.
    pub fn from_file(relative_path: String, content: String) -> (r: Rule)
        ensures
            r.relative_path == relative_path,
            r.content == content,
            r.scope is None <==> (parent_of(relative_path@) is None || parent_of(relative_path@)
                == Some(Seq::<char>::empty())),
            r.scope matches Some(s) ==> parent_of(relative_path@) == Some(s@),
    {
        let scope = match path_parent(relative_path.as_str()) {
            Some(p) => if p.as_str().is_empty() {
                proof {
                    assert(p@ =~= Seq::<char>::empty());
                }
                None
            } else {
                Some(p)
            },
            None => None,
        };
        Rule { relative_path, scope, content }
    }
}

/// The length of the leading run of whitespace of `s`.
pub open spec fn leading_ws(s: Seq<char>) -> int {
    run_end(s, 0, |c: char| is_white_space(c))
}

/// `s` without its trailing whitespace.
pub open spec fn trim_end_ws(s: Seq<char>) -> Seq<char>
    decreases s.len(),
{
    if s.len() > 0 && is_white_space(s.last()) {
        trim_end_ws(s.drop_last())
    } else {
        s
    }
}

/// `s` without leading and trailing whitespace (`str::trim`).
pub open spec fn trimmed(s: Seq<char>) -> Seq<char> {
    trim_end_ws(s.skip(leading_ws(s)))
}

/// `str::trim`: the text without leading and trailing whitespace.
pub fn trim(s: &str) -> (r: String)
    ensures
        r@ == trimmed(s@),
{
    let v = chars_of(s);
    let ghost ws = |c: char| is_white_space(c);
    proof {
        lemma_run_end(v@, 0, ws);
    }
    let mut a: usize = 0;
    while a < v.len() && white_space(v[a])
        invariant
            a <= v@.len(),
            ws == (|c: char| is_white_space(c)),
            run_end(v@, 0, ws) == run_end(v@, a as int, ws),
        decreases v@.len() - a,
    {
        a = a + 1;
    }
    let mut e: usize = v.len();
    let ghost rest = v@.skip(a as int);
    proof {
        assert(rest.take(rest.len() as int) =~= rest);
    }
    while e > a && white_space(v[e - 1])
        invariant
            a <= e <= v@.len(),
            rest == v@.skip(a as int),
            trim_end_ws(rest) == trim_end_ws(rest.take(e - a)),
        decreases e,
    {
        proof {
            assert(rest.take(e - a).drop_last() =~= rest.take(e - a - 1));
            assert(rest.take(e - a).last() == v@[e - 1]);
        }
        e = e - 1;
    }
    let out = slice_chars(v.as_slice(), a, e);
    proof {
        assert(out@ =~= rest.take(e - a));
        if e == a {
            assert(rest.take(0) =~= Seq::<char>::empty());
        }
    }
    string_of(out.as_slice())
}

/// Whether a rule is merged for a working directory: with one, the rules
/// that apply to it; without one, only the unscoped rules.
pub open spec fn is_applicable(r: Rule, working_dir: Option<Seq<char>>) -> bool {
    match working_dir {
        Some(d) => r.spec_applies_to(d),
        None => r.scope is None,
    }
}

/// The section of the prompt a rule gives: a header naming the rule file,
/// then the rule's trimmed content.
pub open spec fn rule_section(r: Rule) -> Seq<char> {
    "# Rules: "@ + r.relative_path@ + "\n\n"@ + trimmed(r.content@)
}

/// The sections of the applicable rules, in order.
pub open spec fn sections(rules: Seq<Rule>, working_dir: Option<Seq<char>>) -> Seq<Seq<char>>
    decreases rules.len(),
{
    if rules.len() == 0 {
        Seq::empty()
    } else {
        let rest = sections(rules.drop_last(), working_dir);
        if is_applicable(rules.last(), working_dir) {
            rest.push(rule_section(rules.last()))
        } else {
            rest
        }
    }
}

pub open spec fn opt_str_view(o: Option<&str>) -> Option<Seq<char>> {
    match o {
        Some(s) => Some(s@),
        None => None,
    }
}

/// Merge loaded rules into a system prompt string.
///
/// Global rules (no scope) are always included. Scoped rules are included
/// only if their scope matches the working directory. Each rule is
/// separated by a header showing its source path.
pub fn merge_rules_to_prompt(rules: &[Rule], working_dir: Option<&str>) -> (r: Option<String>)
    ensures
        sections(rules@, opt_str_view(working_dir)).len() == 0 ==> r is None,
        sections(rules@, opt_str_view(working_dir)).len() > 0 ==> (r matches Some(p) && p@ == join(
            sections(rules@, opt_str_view(working_dir)),
            "\n\n"@,
        )),
{
    let ghost wd = opt_str_view(working_dir);
    let mut prompt: Vec<char> = Vec::new();
    let mut any = false;
    let mut i: usize = 0;
    proof {
        reveal_strlit("\n\n");
        reveal_strlit("# Rules: ");
    }
    while i < rules.len()
        invariant
            i <= rules@.len(),
            wd == opt_str_view(working_dir),
            any == (sections(rules@.take(i as int), wd).len() > 0),
            prompt@ == join(sections(rules@.take(i as int), wd), "\n\n"@),
        decreases rules@.len() - i,
    {
        let rule = &rules[i];
        let applies = match working_dir {
            Some(dir) => rule.applies_to(dir),
            None => rule.scope.is_none(),
        };
        proof {
            assert(rules@.take(i + 1).drop_last() =~= rules@.take(i as int));
            assert(rules@.take(i + 1).last() == rules@[i as int]);
        }
        if applies {
            let ghost before = sections(rules@.take(i as int), wd);
            if any {
                extend_str(&mut prompt, "\n\n");
            }
            extend_str(&mut prompt, "# Rules: ");
            extend_str(&mut prompt, rule.relative_path.as_str());
            extend_str(&mut prompt, "\n\n");
            let body = trim(rule.content.as_str());
            extend_str(&mut prompt, body.as_str());
            proof {
                lemma_join_push(before, "\n\n"@, rule_section(*rule));
            }
            any = true;
        }
        i = i + 1;
    }
    proof {
        assert(rules@.take(rules@.len() as int) =~= rules@);
    }
    if any {
        Some(string_of(prompt.as_slice()))
    } else {
        None
    }
}

/// Whether a path component holds a glob character (`*`, `?` or `[`).
pub open spec fn has_glob(c: Seq<char>) -> bool {
    c.contains('*') || c.contains('?') || c.contains('[')
}

/// `base` extended by the leading components that hold no glob character.
pub open spec fn base_dir_from(base: Seq<char>, comps: Seq<Seq<char>>) -> Seq<char>
    decreases comps.len(),
{
    if comps.len() == 0 || has_glob(comps[0]) {
        base
    } else {
        base_dir_from(pushed(base, comps[0]), comps.drop_first())
    }
}

fn has_glob_char(c: &str) -> (b: bool)
    ensures
        b == has_glob(c@),
{
    let v = chars_of(c);
    let mut i: usize = 0;
    while i < v.len()
        invariant
            i <= v@.len(),
            v@ == c@,
            forall|j: int| 0 <= j < i ==> v@[j] != '*' && v@[j] != '?' && v@[j] != '[',
        decreases v@.len() - i,
    {
        let ch = v[i];
        if ch == '*' || ch == '?' || ch == '[' {
            proof {
                assert(c@[i as int] == ch);
                if ch == '*' {
                    assert(c@.contains('*'));
                } else if ch == '?' {
                    assert(c@.contains('?'));
                } else {
                    assert(c@.contains('['));
                }
            }
            return true;
        }
        i = i + 1;
    }
    false
}

/// Find the base directory of the rules from a glob pattern: the project
/// root extended by the pattern's components up to the first one with a
/// glob character. For `.sakamoto/rules/*.md` it is `.sakamoto/rules`.
pub fn find_rules_base_dir(project_root: &str, pattern: &str) -> (r: String)
    ensures
        r@ == base_dir_from(project_root@, components_of(pattern@)),
{
    let comps = path_components(pattern);
    let ghost cs = crate::text::views(comps@);
    let mut base = crate::text::to_owned_string(project_root);
    let mut i: usize = 0;
    assert(cs.skip(0) =~= cs);
    while i < comps.len()
        invariant
            i <= comps@.len(),
            cs == crate::text::views(comps@),
            cs == components_of(pattern@),
            base_dir_from(project_root@, cs) == base_dir_from(base@, cs.skip(i as int)),
        decreases comps@.len() - i,
    {
        proof {
            assert(cs.skip(i as int)[0] == cs[i as int]);
            assert(cs.skip(i as int).drop_first() =~= cs.skip(i + 1));
        }
        if has_glob_char(comps[i].as_str()) {
            return base;
        }
        base = path_push(base.as_str(), comps[i].as_str());
        i = i + 1;
    }
    proof {
        assert(cs.skip(i as int) =~= Seq::<Seq<char>>::empty());
    }
    base
}


/// The path of a matched rule file relative to the rules directory: the
/// path without the directory's components, or the whole path when it does
/// not lie under the directory.
pub open spec fn relative_to(path: Seq<char>, rules_dir: Seq<char>) -> Seq<char> {
    match stripped_of(path, rules_dir) {
        Some(rest) => rest,
        None => path,
    }
}

/// The rule read from a file that a rules pattern matched: its path is
/// taken relative to the rules directory, and its scope is that path's
/// parent (see [`Rule::from_file`]).
pub fn rule_from_match(rules_dir: &str, path: &str, content: String) -> (r: Rule)
    ensures
        r.relative_path@ == relative_to(path@, rules_dir@),
        r.content == content,
        r.scope is None <==> (parent_of(r.relative_path@) is None || parent_of(r.relative_path@) == Some(
            Seq::<char>::empty(),
        )),
        r.scope matches Some(s) ==> parent_of(r.relative_path@) == Some(s@),
{
    let relative = match path_strip_prefix(path, rules_dir) {
        Some(rest) => rest,
        None => crate::text::to_owned_string(path),
    };
    Rule::from_file(relative, content)
}

/// A sequence's multiset is that of the sequence without one of its items,
/// and that item.
proof fn lemma_multiset_of_remove<A>(s: Seq<A>, i: int)
    requires
        0 <= i < s.len(),
    ensures
        s.to_multiset() == s.remove(i).to_multiset().insert(s[i]),
{
    broadcast use vstd::seq_lib::group_to_multiset_ensures;
    assert(s.remove(i).to_multiset() == s.to_multiset().remove(s[i]));
    assert(s.contains(s[i]));
    assert(s.to_multiset().count(s[i]) > 0);
    assert(s.to_multiset() =~= s.to_multiset().remove(s[i]).insert(s[i]));
}

/// Rules in the order of their relative paths (the order of `Path`).
pub open spec fn rules_sorted(rs: Seq<Rule>) -> bool {
    forall|i: int| 0 <= i < rs.len() - 1 ==> path_order_le(#[trigger] rs[i].relative_path@, rs[i + 1].relative_path@)
}

/// Two rules whose relative paths are equal in the order of `Path`.
pub open spec fn same_path(a: Rule, b: Rule) -> bool {
    path_order_le(a.relative_path@, b.relative_path@) && path_order_le(b.relative_path@, a.relative_path@)
}

/// `output` holds rules of `input` (the first `output.len()` of them, in
/// some order): its `i`-th rule is the `perm[i]`-th of `input`, none is
/// taken twice, and rules with equal paths keep their order.
pub open spec fn arranged(input: Seq<Rule>, output: Seq<Rule>, perm: Seq<int>) -> bool {
    &&& perm.len() == output.len()
    &&& output.len() <= input.len()
    &&& forall|i: int| 0 <= i < perm.len() ==> 0 <= #[trigger] perm[i] < output.len() && output[i] == input[perm[i]]
    &&& forall|i: int, j: int| 0 <= i < j < perm.len() ==> #[trigger] perm[i] != #[trigger] perm[j]
    &&& forall|i: int, j: int|
        0 <= i < j < perm.len() && same_path(#[trigger] output[i], #[trigger] output[j]) ==> perm[i] < perm[j]
}

/// `output` holds the rules of `input` rearranged, each once, with rules of
/// equal paths in the order they had in `input`.
pub open spec fn stable_arrangement(input: Seq<Rule>, output: Seq<Rule>, perm: Seq<int>) -> bool {
    output.len() == input.len() && arranged(input, output, perm)
}

/// Inserting a rule between its neighbours in path order keeps rules sorted.
proof fn lemma_insert_sorted(out: Seq<Rule>, x: Rule, j: int)
    requires
        rules_sorted(out),
        0 <= j <= out.len(),
        j > 0 ==> path_order_le(out[j - 1].relative_path@, x.relative_path@),
        j < out.len() ==> path_order_le(x.relative_path@, out[j].relative_path@),
    ensures
        rules_sorted(out.insert(j, x)),
{
    let o = out.insert(j, x);
    assert forall|i: int| 0 <= i < o.len() - 1 implies path_order_le(
        #[trigger] o[i].relative_path@,
        o[i + 1].relative_path@,
    ) by {
        if i < j - 1 {
            assert(o[i] == out[i] && o[i + 1] == out[i + 1]);
        } else if i == j - 1 {
            assert(o[i] == out[i]);
        } else if i == j {
            assert(o[i + 1] == out[i]);
        } else {
            assert(o[i] == out[i - 1] && o[i + 1] == out[i]);
        }
    }
}

/// Inserting the next rule of the input, with its position, keeps each rule
/// taken from its place in the input.
proof fn lemma_insert_taken(input: Seq<Rule>, out: Seq<Rule>, perm: Seq<int>, x: Rule, j: int)
    requires
        perm.len() == out.len(),
        out.len() < input.len(),
        x == input[out.len() as int],
        0 <= j <= out.len(),
        forall|i: int| 0 <= i < perm.len() ==> 0 <= #[trigger] perm[i] < out.len() && out[i] == input[perm[i]],
    ensures
        forall|i: int|
            0 <= i < perm.len() + 1 ==> 0 <= #[trigger] perm.insert(j, out.len() as int)[i] < out.len() + 1
                && out.insert(j, x)[i] == input[perm.insert(j, out.len() as int)[i]],
{
    let o = out.insert(j, x);
    let p = perm.insert(j, out.len() as int);
    assert forall|i: int| 0 <= i < p.len() implies 0 <= #[trigger] p[i] < o.len() && o[i] == input[p[i]] by {
        if i < j {
            assert(p[i] == perm[i] && o[i] == out[i]);
        } else if i > j {
            assert(p[i] == perm[i - 1] && o[i] == out[i - 1]);
        }
    }
}

/// Inserting a new position keeps positions distinct.
proof fn lemma_insert_distinct(perm: Seq<int>, t: int, j: int)
    requires
        0 <= j <= perm.len(),
        forall|i: int| 0 <= i < perm.len() ==> #[trigger] perm[i] < t,
        forall|i: int, k: int| 0 <= i < k < perm.len() ==> #[trigger] perm[i] != #[trigger] perm[k],
    ensures
        forall|i: int, k: int|
            0 <= i < k < perm.len() + 1 ==> #[trigger] perm.insert(j, t)[i] != #[trigger] perm.insert(j, t)[k],
{
    let p = perm.insert(j, t);
    assert forall|a: int, b: int| 0 <= a < b < p.len() implies #[trigger] p[a] != #[trigger] p[b] by {
        if a < j && b < j {
            assert(p[a] == perm[a] && p[b] == perm[b]);
        } else if a < j && b > j {
            assert(p[a] == perm[a] && p[b] == perm[b - 1]);
        } else if a > j && b > j {
            assert(p[a] == perm[a - 1] && p[b] == perm[b - 1]);
        } else if a == j {
            assert(p[b] == perm[b - 1]);
        } else {
            assert(p[a] == perm[a]);
        }
    }
}

/// Inserting the next rule of the input after every rule of equal path
/// keeps rules of equal paths in input order.
proof fn lemma_insert_stable(out: Seq<Rule>, perm: Seq<int>, x: Rule, j: int)
    requires
        perm.len() == out.len(),
        0 <= j <= out.len(),
        forall|i: int| 0 <= i < perm.len() ==> #[trigger] perm[i] < out.len(),
        forall|i: int, k: int|
            0 <= i < k < perm.len() && same_path(#[trigger] out[i], #[trigger] out[k]) ==> perm[i] < perm[k],
        forall|k: int| j <= k < out.len() ==> !path_order_le(#[trigger] out[k].relative_path@, x.relative_path@),
    ensures
        forall|a: int, b: int|
            0 <= a < b < perm.len() + 1 && same_path(#[trigger] out.insert(j, x)[a], #[trigger] out.insert(j, x)[b])
                ==> perm.insert(j, out.len() as int)[a] < perm.insert(j, out.len() as int)[b],
{
    let o = out.insert(j, x);
    let p = perm.insert(j, out.len() as int);
    assert forall|a: int, b: int|
        0 <= a < b < p.len() && same_path(#[trigger] o[a], #[trigger] o[b]) implies p[a] < p[b] by {
        if a < j && b < j {
            assert(p[a] == perm[a] && p[b] == perm[b] && o[a] == out[a] && o[b] == out[b]);
        } else if a < j && b > j {
            assert(p[a] == perm[a] && p[b] == perm[b - 1] && o[a] == out[a] && o[b] == out[b - 1]);
        } else if a > j && b > j {
            assert(p[a] == perm[a - 1] && p[b] == perm[b - 1] && o[a] == out[a - 1] && o[b] == out[b - 1]);
        } else if b == j {
            assert(p[a] == perm[a]);
        } else {
            assert(o[b] == out[b - 1]);
            assert(!path_order_le(out[b - 1].relative_path@, x.relative_path@));
        }
    }
}

/// Inserting the next rule of the input where the insertion sort puts it
/// keeps the output sorted and keeps the arrangement stable.
proof fn lemma_insert_rule(input: Seq<Rule>, out: Seq<Rule>, perm: Seq<int>, x: Rule, j: int)
    requires
        arranged(input, out, perm),
        out.len() < input.len(),
        x == input[out.len() as int],
        rules_sorted(out),
        0 <= j <= out.len(),
        j > 0 ==> path_order_le(out[j - 1].relative_path@, x.relative_path@),
        j < out.len() ==> path_order_le(x.relative_path@, out[j].relative_path@),
        forall|k: int| j <= k < out.len() ==> !path_order_le(#[trigger] out[k].relative_path@, x.relative_path@),
    ensures
        rules_sorted(out.insert(j, x)),
        arranged(input, out.insert(j, x), perm.insert(j, out.len() as int)),
{
    lemma_insert_sorted(out, x, j);
    lemma_insert_taken(input, out, perm, x, j);
    lemma_insert_distinct(perm, out.len() as int, j);
    lemma_insert_stable(out, perm, x, j);
}

/// The rules in the order of their relative paths; rules with equal paths
/// keep their order.
pub fn sort_rules(rules: Vec<Rule>) -> (r: Vec<Rule>)
    ensures
        r@.to_multiset() == rules@.to_multiset(),
        rules_sorted(r@),
        exists|perm: Seq<int>| stable_arrangement(rules@, r@, perm),
{
    broadcast use vstd::seq_lib::group_to_multiset_ensures;
    let ghost input = rules@;
    let mut src = rules;
    let mut out: Vec<Rule> = Vec::new();
    let ghost mut perm: Seq<int> = Seq::empty();
    while src.len() > 0
        invariant
            out@.to_multiset().add(src@.to_multiset()) == input.to_multiset(),
            rules_sorted(out@),
            out@.len() + src@.len() == input.len(),
            src@ == input.subrange(out@.len() as int, input.len() as int),
            arranged(input, out@, perm),
        decreases src@.len(),
    {
        let ghost before = src@;
        let ghost t = out@.len() as int;
        let x = src.remove(0);
        proof {
            lemma_multiset_of_remove(before, 0);
            assert(before.remove(0) == src@);
            assert(x == input[t]);
            assert(src@ =~= input.subrange(t + 1, input.len() as int));
        }
        let mut j = out.len();
        while j > 0 && !path_le(out[j - 1].relative_path.as_str(), x.relative_path.as_str())
            invariant
                j <= out@.len(),
                rules_sorted(out@),
                j < out@.len() ==> path_order_le(x.relative_path@, out@[j as int].relative_path@),
                forall|k: int| j <= k < out@.len() ==> !path_order_le(#[trigger] out@[k].relative_path@, x.relative_path@),
            decreases j,
        {
            j = j - 1;
        }
        let ghost old_out = out@;
        proof {
            lemma_insert_rule(input, old_out, perm, x, j as int);
            perm = perm.insert(j as int, t);
        }
        out.insert(j, x);
        proof {
            let o = out@;
            assert(o == old_out.insert(j as int, x));
            assert(o.remove(j as int) =~= old_out);
            lemma_multiset_of_remove(o, j as int);
        }
    }
    proof {
        assert(src@.to_multiset() =~= vstd::multiset::Multiset::empty());
        assert(stable_arrangement(input, out@, perm));
    }
    out
}

} // verus!
