use vstd::prelude::*;
use crate::dependency_graph::{contains_name, lemma_push_contains, names_view, DependentGraph};
use crate::dependency_graph::{bump_only_workspace, get_dependents_graph, workspace_dependents, DependentsGraphOption};
use crate::packages::Packages;
use crate::pkg_json::AccessType;
use crate::written::{PackageGroup, WrittenConfig};

verus! {

/// Whether `Pattern::new` accepts `pattern`.
pub uninterp spec fn glob_pattern_valid(pattern: Seq<char>) -> bool;

/// Whether the compiled `pattern` matches `name`.
pub uninterp spec fn glob_matches(pattern: Seq<char>, name: Seq<char>) -> bool;

/// Relies on glob's `Pattern::new` (whether `pattern` compiles) and
/// `Pattern::matches` (whether it matches `name`, with the default options).
/// Each depends on its arguments alone.
#[verifier::external_body]
fn match_glob(pattern: &str, name: &str) -> (r: Option<bool>)
    ensures
        r is Some <==> glob_pattern_valid(pattern@),
        r matches Some(b) ==> b == glob_matches(pattern@, name@),
{
    glob::Pattern::new(pattern).ok().map(|p| p.matches(name))
}

/// The names among `names` that `pattern` matches, in order; none if the
/// pattern is no valid glob.
pub open spec fn pattern_hits(names: Seq<Seq<char>>, pattern: Seq<char>) -> Seq<Seq<char>>
    decreases names.len(),
{
    if names.len() == 0 || !glob_pattern_valid(pattern) {
        Seq::empty()
    } else {
        let prev = pattern_hits(names.drop_last(), pattern);
        if glob_matches(pattern, names.last()) {
            prev.push(names.last())
        } else {
            prev
        }
    }
}

/// A group's patterns expanded against `names`, pattern after pattern.
pub open spec fn group_expansion(names: Seq<Seq<char>>, group: Seq<Seq<char>>) -> Seq<Seq<char>>
    decreases group.len(),
{
    if group.len() == 0 {
        Seq::empty()
    } else {
        group_expansion(names, group.drop_last()) + pattern_hits(names, group.last())
    }
}

pub open spec fn nested_view(v: Seq<Vec<String>>) -> Seq<Seq<Seq<char>>> {
    v.map_values(|g: Vec<String>| names_view(g@))
}

/// The groups one after another.
pub open spec fn flatten(gs: Seq<Seq<Seq<char>>>) -> Seq<Seq<char>>
    decreases gs.len(),
{
    if gs.len() == 0 {
        Seq::empty()
    } else {
        flatten(gs.drop_last()) + gs.last()
    }
}

/// `n` occurs at least twice in `s`.
pub open spec fn occurs_twice(s: Seq<Seq<char>>, n: Seq<char>) -> bool {
    exists|a: int, b: int| 0 <= a < b < s.len() && s[a] == n && s[b] == n
}

/// The two kinds of release group.
#[derive(Debug, PartialEq, Eq, Clone, Copy)]
pub enum ParsePackageGroupType {
    /// Versions change together and stay equal.
    Fixed,
    /// Versions change together.
    Linked,
}

/// The groups of one kind, expanded, and the packages that more than one
/// pattern of that kind picked.
#[derive(Debug, PartialEq, Eq)]
pub struct ExpandedGroups {
    pub kind: ParsePackageGroupType,
    pub groups: Vec<PackageGroup>,
    pub duplicated: Vec<String>,
}

proof fn lemma_occurs_twice_push(s: Seq<Seq<char>>, x: Seq<char>, n: Seq<char>)
    ensures
        occurs_twice(s.push(x), n) <==> (occurs_twice(s, n) || (n == x && s.contains(x))),
{
    let t = s.push(x);
    if occurs_twice(t, n) {
        let (a, b) = choose|a: int, b: int| 0 <= a < b < t.len() && t[a] == n && t[b] == n;
        if b < s.len() {
            assert(s[a] == n && s[b] == n);
        } else {
            assert(s[a] == n);
        }
    }
    if occurs_twice(s, n) {
        let (a, b) = choose|a: int, b: int| 0 <= a < b < s.len() && s[a] == n && s[b] == n;
        assert(t[a] == n && t[b] == n);
    }
    if n == x && s.contains(x) {
        let a = choose|a: int| 0 <= a < s.len() && s[a] == x;
        assert(t[a] == n && t[s.len() as int] == n);
    }
}

/// Appends to `out` the names that `pattern` matches.
fn expand_pattern(names: &Vec<String>, pattern: &String, out: &mut Vec<String>)
    ensures
        names_view(final(out)@) == names_view(old(out)@) + pattern_hits(names_view(names@), pattern@),
{
    let ghost nv = names_view(names@);
    let ghost start = names_view(out@);
    let mut j: usize = 0;
    while j < names.len()
        invariant
            nv == names_view(names@),
            j <= names.len(),
            names_view(out@) == start + pattern_hits(nv.take(j as int), pattern@),
            start == names_view(old(out)@),
        decreases names.len() - j,
    {
        assert(nv.take(j as int + 1).drop_last() =~= nv.take(j as int));
        assert(nv.take(j as int + 1).last() == names@[j as int]@);
        let ghost before = names_view(out@);
        match match_glob(pattern.as_str(), names[j].as_str()) {
            Some(hit) => {
                if hit {
                    out.push(names[j].clone());
                    assert(names_view(out@) =~= before.push(names@[j as int]@));
                }
            },
            None => {},
        }
        j = j + 1;
    }
    assert(nv.take(names.len() as int) =~= nv);
}

/// A group's patterns expanded against `names`.
fn expand_group(names: &Vec<String>, group: &PackageGroup) -> (r: Vec<String>)
    ensures
        names_view(r@) == group_expansion(names_view(names@), names_view(group@)),
{
    let ghost gv = names_view(group@);
    let mut r: Vec<String> = Vec::new();
    let mut k: usize = 0;
    while k < group.len()
        invariant
            gv == names_view(group@),
            k <= group.len(),
            names_view(r@) == group_expansion(names_view(names@), gv.take(k as int)),
        decreases group.len() - k,
    {
        assert(gv.take(k as int + 1).drop_last() =~= gv.take(k as int));
        assert(gv.take(k as int + 1).last() == group@[k as int]@);
        expand_pattern(names, &group[k], &mut r);
        k = k + 1;
    }
    assert(gv.take(group.len() as int) =~= gv);
    r
}

/// All groups one after another.
fn flatten_groups(groups: &Vec<PackageGroup>) -> (r: Vec<String>)
    ensures
        names_view(r@) == flatten(nested_view(groups@)),
{
    let ghost gs = nested_view(groups@);
    let mut r: Vec<String> = Vec::new();
    let mut i: usize = 0;
    while i < groups.len()
        invariant
            gs == nested_view(groups@),
            i <= groups.len(),
            names_view(r@) == flatten(gs.take(i as int)),
        decreases groups.len() - i,
    {
        assert(gs.take(i as int + 1).drop_last() =~= gs.take(i as int));
        let g = &groups[i];
        let ghost base = names_view(r@);
        let mut j: usize = 0;
        while j < g.len()
            invariant
                j <= g.len(),
                names_view(r@) == base + names_view(g@).take(j as int),
            decreases g.len() - j,
        {
            let ghost before = names_view(r@);
            r.push(g[j].clone());
            assert(names_view(r@) =~= before.push(g@[j as int]@));
            assert(names_view(g@).take(j as int + 1) =~= names_view(g@).take(j as int).push(g@[j as int]@));
            j = j + 1;
            assert(names_view(r@) =~= base + names_view(g@).take(j as int));
        }
        assert(names_view(g@).take(g.len() as int) =~= gs[i as int]);
        i = i + 1;
    }
    assert(gs.take(groups.len() as int) =~= gs);
    r
}

/// The names that occur more than once in `flat`, each once.
pub fn duplicated_names(flat: &Vec<String>) -> (r: Vec<String>)
    ensures
        names_view(r@).no_duplicates(),
        forall|n: Seq<char>| #[trigger] names_view(r@).contains(n) <==> occurs_twice(names_view(flat@), n),
{
    let ghost fv = names_view(flat@);
    let mut seen: Vec<String> = Vec::new();
    let mut dup: Vec<String> = Vec::new();
    let mut j: usize = 0;
    while j < flat.len()
        invariant
            fv == names_view(flat@),
            j <= flat.len(),
            forall|n: Seq<char>| #[trigger] names_view(seen@).contains(n) <==> fv.take(j as int).contains(n),
            forall|n: Seq<char>| #[trigger] names_view(dup@).contains(n) <==> occurs_twice(fv.take(j as int), n),
            names_view(dup@).no_duplicates(),
        decreases flat.len() - j,
    {
        let x = &flat[j];
        let ghost pre = fv.take(j as int);
        assert(fv.take(j as int + 1) =~= pre.push(x@));
        let ghost sv = names_view(seen@);
        let ghost dv = names_view(dup@);
        proof {
            assert forall|n: Seq<char>| #[trigger] fv.take(j as int + 1).contains(n) <==> pre.contains(n) || n == x@ by {
                lemma_push_contains(pre, x@, n);
            }
            assert forall|n: Seq<char>| #[trigger] occurs_twice(fv.take(j as int + 1), n) <==> occurs_twice(pre, n) || (n == x@ && pre.contains(x@)) by {
                lemma_occurs_twice_push(pre, x@, n);
            }
        }
        if contains_name(&seen, x) {
            if !contains_name(&dup, x) {
                dup.push(x.clone());
                assert(names_view(dup@) =~= dv.push(x@));
                assert forall|n: Seq<char>| #[trigger] names_view(dup@).contains(n) <==> dv.contains(n) || n == x@ by {
                    lemma_push_contains(dv, x@, n);
                }
                assert forall|a: int, b: int| 0 <= a < b < names_view(dup@).len() implies names_view(dup@)[a] != names_view(dup@)[b] by {
                    if b == dv.len() {
                        assert(names_view(dup@)[a] == dv[a]);
                        assert(dv.contains(dv[a]));
                    } else {
                        assert(names_view(dup@)[a] == dv[a] && names_view(dup@)[b] == dv[b]);
                    }
                }
            }
        } else {
            seen.push(x.clone());
            assert(names_view(seen@) =~= sv.push(x@));
            assert forall|n: Seq<char>| #[trigger] names_view(seen@).contains(n) <==> sv.contains(n) || n == x@ by {
                lemma_push_contains(sv, x@, n);
            }
        }
        j = j + 1;
    }
    assert(fv.take(flat.len() as int) =~= fv);
    dup
}

/// Expands the groups of one kind against the workspace's package names and
/// finds the packages that more than one of their patterns picks.
pub fn parse_package_group(
    group: &Vec<PackageGroup>,
    pkg_names: &mut Vec<String>,
    kind: ParsePackageGroupType,
) -> (r: ExpandedGroups)
    ensures
        final(pkg_names)@ == old(pkg_names)@,
        r.kind == kind,
        r.groups.len() == group.len(),
        forall|g: int| 0 <= g < group.len() ==> #[trigger] names_view(r.groups@[g]@) == group_expansion(names_view(old(pkg_names)@), names_view(group@[g]@)),
        names_view(r.duplicated@).no_duplicates(),
        forall|n: Seq<char>| #[trigger] names_view(r.duplicated@).contains(n) <==> occurs_twice(flatten(nested_view(r.groups@)), n),
{
    let mut groups: Vec<PackageGroup> = Vec::new();
    let mut i: usize = 0;
    while i < group.len()
        invariant
            i <= group.len(),
            groups.len() == i,
            forall|g: int| 0 <= g < i ==> #[trigger] names_view(groups@[g]@) == group_expansion(names_view(pkg_names@), names_view(group@[g]@)),
        decreases group.len() - i,
    {
        let expanded = expand_group(pkg_names, &group[i]);
        groups.push(expanded);
        i = i + 1;
    }
    let flat = flatten_groups(&groups);
    let duplicated = duplicated_names(&flat);
    ExpandedGroups { kind, groups, duplicated }
}

/// The names in both `fixed` and `linked`, each once, in the order of `fixed`.
pub fn fixed_and_linked(fixed: &Vec<String>, linked: &Vec<String>) -> (r: Vec<String>)
    ensures
        names_view(r@).no_duplicates(),
        forall|n: Seq<char>| #[trigger] names_view(r@).contains(n) <==> names_view(fixed@).contains(n) && names_view(linked@).contains(n),
{
    let ghost fv = names_view(fixed@);
    let mut r: Vec<String> = Vec::new();
    let mut j: usize = 0;
    while j < fixed.len()
        invariant
            fv == names_view(fixed@),
            j <= fixed.len(),
            forall|n: Seq<char>| #[trigger] names_view(r@).contains(n) <==> fv.take(j as int).contains(n) && names_view(linked@).contains(n),
            names_view(r@).no_duplicates(),
        decreases fixed.len() - j,
    {
        let x = &fixed[j];
        let ghost pre = fv.take(j as int);
        assert(fv.take(j as int + 1) =~= pre.push(x@));
        proof {
            assert forall|n: Seq<char>| #[trigger] fv.take(j as int + 1).contains(n) <==> pre.contains(n) || n == x@ by {
                lemma_push_contains(pre, x@, n);
            }
        }
        let ghost rv = names_view(r@);
        if contains_name(linked, x) && !contains_name(&r, x) {
            r.push(x.clone());
            assert(names_view(r@) =~= rv.push(x@));
            assert forall|n: Seq<char>| #[trigger] names_view(r@).contains(n) <==> rv.contains(n) || n == x@ by {
                lemma_push_contains(rv, x@, n);
            }
            assert forall|a: int, b: int| 0 <= a < b < names_view(r@).len() implies names_view(r@)[a] != names_view(r@)[b] by {
                if b == rv.len() {
                    assert(names_view(r@)[a] == rv[a]);
                    assert(rv.contains(rv[a]));
                } else {
                    assert(names_view(r@)[a] == rv[a] && names_view(r@)[b] == rv[b]);
                }
            }
        }
        j = j + 1;
    }
    assert(fv.take(fixed.len() as int) =~= fv);
    r
}

/// Each entry of a dependents graph as its package's name and its dependents.
pub open spec fn dependents_view(v: Seq<DependentGraph>) -> Seq<(Seq<char>, Seq<Seq<char>>)> {
    v.map_values(|e: DependentGraph| (e.pkg.package_json.name@, names_view(e.dependents@)))
}

/// The dependents listed for `name`: those of the last entry with that name,
/// none if there is no such entry.
pub open spec fn lookup_dependents(v: Seq<(Seq<char>, Seq<Seq<char>>)>, name: Seq<char>) -> Seq<Seq<char>>
    decreases v.len(),
{
    if v.len() == 0 {
        Seq::empty()
    } else if v.last().0 == name {
        v.last().1
    } else {
        lookup_dependents(v.drop_last(), name)
    }
}

/// `(d, ignored)` for each name `d` of `list`, in order, that `ignore` lacks.
pub open spec fn gap_pairs(list: Seq<Seq<char>>, ignore: Seq<Seq<char>>, ignored: Seq<char>) -> Seq<(Seq<char>, Seq<char>)>
    decreases list.len(),
{
    if list.len() == 0 {
        Seq::empty()
    } else {
        let prev = gap_pairs(list.drop_last(), ignore, ignored);
        if ignore.contains(list.last()) {
            prev
        } else {
            prev.push((list.last(), ignored))
        }
    }
}

/// For each of `entries` of the ignore list `ignore`, in order, its dependents
/// as listed in `dependents` that are not ignored, paired with it.
pub open spec fn ignore_gap_list(
    entries: Seq<Seq<char>>,
    ignore: Seq<Seq<char>>,
    dependents: Seq<(Seq<char>, Seq<Seq<char>>)>,
) -> Seq<(Seq<char>, Seq<char>)>
    decreases entries.len(),
{
    if entries.len() == 0 {
        Seq::empty()
    } else {
        ignore_gap_list(entries.drop_last(), ignore, dependents) + gap_pairs(lookup_dependents(dependents, entries.last()), ignore, entries.last())
    }
}

pub open spec fn string_pairs_view(v: Seq<(String, String)>) -> Seq<(Seq<char>, Seq<char>)> {
    v.map_values(|e: (String, String)| (e.0@, e.1@))
}

/// Position of the entry whose dependents `lookup_dependents` gives.
fn find_dependents(dependents: &Vec<DependentGraph>, name: &String) -> (r: Option<usize>)
    ensures
        r matches Some(k) ==> k < dependents.len() && lookup_dependents(dependents_view(dependents@), name@) == names_view(dependents@[k as int].dependents@),
        r is None ==> lookup_dependents(dependents_view(dependents@), name@) == Seq::<Seq<char>>::empty(),
{
    let ghost dv = dependents_view(dependents@);
    let mut n: usize = dependents.len();
    assert(dv.take(n as int) =~= dv);
    while n > 0
        invariant
            dv == dependents_view(dependents@),
            n <= dependents.len(),
            lookup_dependents(dv, name@) == lookup_dependents(dv.take(n as int), name@),
        decreases n,
    {
        assert(dv.take(n as int).drop_last() =~= dv.take(n as int - 1));
        assert(dv.take(n as int).last() == dv[n as int - 1]);
        if dependents[n - 1].pkg.package_json.name == *name {
            return Some(n - 1);
        }
        n = n - 1;
    }
    None
}

/// For each ignored package, in the order of the ignore list, each of its
/// dependents that is not ignored too, as (dependent, ignored package).
pub fn ignore_gaps(ignore: &Vec<String>, dependents: &Vec<DependentGraph>) -> (r: Vec<(String, String)>)
    ensures
        string_pairs_view(r@) == ignore_gap_list(names_view(ignore@), names_view(ignore@), dependents_view(dependents@)),
{
    let ghost iv = names_view(ignore@);
    let ghost dv = dependents_view(dependents@);
    let mut r: Vec<(String, String)> = Vec::new();
    let mut i: usize = 0;
    while i < ignore.len()
        invariant
            iv == names_view(ignore@),
            dv == dependents_view(dependents@),
            i <= ignore.len(),
            string_pairs_view(r@) == ignore_gap_list(iv.take(i as int), iv, dv),
        decreases ignore.len() - i,
    {
        let ignored = &ignore[i];
        assert(iv.take(i as int + 1).drop_last() =~= iv.take(i as int));
        assert(iv.take(i as int + 1).last() == ignored@);
        let ghost base = string_pairs_view(r@);
        match find_dependents(dependents, ignored) {
            Some(k) => {
                let list = &dependents[k].dependents;
                let ghost lv = names_view(list@);
                let mut j: usize = 0;
                while j < list.len()
                    invariant
                        iv == names_view(ignore@),
                        lv == names_view(list@),
                        j <= list.len(),
                        string_pairs_view(r@) == base + gap_pairs(lv.take(j as int), iv, ignored@),
                    decreases list.len() - j,
                {
                    let dependent = &list[j];
                    assert(lv.take(j as int + 1).drop_last() =~= lv.take(j as int));
                    assert(lv.take(j as int + 1).last() == dependent@);
                    let ghost rv = string_pairs_view(r@);
                    if !contains_name(ignore, dependent) {
                        r.push((dependent.clone(), ignored.clone()));
                        assert(string_pairs_view(r@) =~= rv.push((dependent@, ignored@)));
                    }
                    assert(string_pairs_view(r@) =~= base + gap_pairs(lv.take(j as int + 1), iv, ignored@));
                    j = j + 1;
                }
                assert(lv.take(list.len() as int) =~= lv);
            },
            None => {
                assert(base + gap_pairs(Seq::empty(), iv, ignored@) =~= base);
            },
        }
        i = i + 1;
    }
    assert(iv.take(ignore.len() as int) =~= iv);
    r
}

/// The names of all packages of a workspace, the root first.
pub open spec fn workspace_names(w: Packages) -> Seq<Seq<char>> {
    Seq::new(w.count() as nat, |i: int| w.name_at(i))
}

/// `ignore_gap_list` with the dependents of the workspace.
pub open spec fn workspace_gap_list(entries: Seq<Seq<char>>, ignore: Seq<Seq<char>>, w: Packages) -> Seq<(Seq<char>, Seq<char>)>
    decreases entries.len(),
{
    if entries.len() == 0 {
        Seq::empty()
    } else {
        workspace_gap_list(entries.drop_last(), ignore, w) + gap_pairs(workspace_dependents(w, false, entries.last(), w.count()), ignore, entries.last())
    }
}

/// The access level that a configured one stands for.
pub open spec fn normalized_access(a: Option<AccessType>) -> AccessType {
    match a {
        Some(AccessType::Public) => AccessType::Public,
        _ => AccessType::Restricted,
    }
}

pub open spec fn groups_or_none(g: Option<Vec<PackageGroup>>) -> Seq<PackageGroup> {
    match g {
        Some(v) => v@,
        None => Seq::empty(),
    }
}

proof fn lemma_no_dependents_of_stranger(w: Packages, g: Seq<char>, n: int)
    requires
        n <= w.count(),
        forall|j: int| 0 <= j < w.count() ==> #[trigger] w.name_at(j) != g,
    ensures
        workspace_dependents(w, false, g, n) == Seq::<Seq<char>>::empty(),
    decreases n,
{
    if n > 0 {
        lemma_no_dependents_of_stranger(w, g, n - 1);
        w.lemma_last_named_within(g, w.count());
        if w.named(g) is Some {
            assert(w.name_at(w.named(g).unwrap()) == g);
        }
    }
}

proof fn lemma_lookup_workspace_dependents(w: Packages, dv: Seq<(Seq<char>, Seq<Seq<char>>)>, g: Seq<char>, n: int)
    requires
        dv.len() == w.count(),
        0 <= n <= dv.len(),
        forall|i: int| 0 <= i < dv.len() ==> #[trigger] dv[i].0 == w.name_at(i),
        forall|i: int| 0 <= i < dv.len() ==> #[trigger] dv[i].1 == workspace_dependents(w, false, w.name_at(i), w.count()),
    ensures
        (exists|i: int| 0 <= i < n && #[trigger] w.name_at(i) == g) ==> lookup_dependents(dv.take(n), g) == workspace_dependents(w, false, g, w.count()),
        !(exists|i: int| 0 <= i < n && #[trigger] w.name_at(i) == g) ==> lookup_dependents(dv.take(n), g) == Seq::<Seq<char>>::empty(),
    decreases n,
{
    if n > 0 {
        lemma_lookup_workspace_dependents(w, dv, g, n - 1);
        assert(dv.take(n).drop_last() =~= dv.take(n - 1));
        assert(dv.take(n).last() == dv[n - 1]);
        if dv[n - 1].0 == g {
            assert(w.name_at(n - 1) == g);
        } else {
            if exists|i: int| 0 <= i < n && #[trigger] w.name_at(i) == g {
                let i = choose|i: int| 0 <= i < n && #[trigger] w.name_at(i) == g;
                assert(i != n - 1);
            }
        }
    }
}

proof fn lemma_gap_lists_agree(entries: Seq<Seq<char>>, ignore: Seq<Seq<char>>, dv: Seq<(Seq<char>, Seq<Seq<char>>)>, w: Packages)
    requires
        forall|g: Seq<char>| #[trigger] lookup_dependents(dv, g) == workspace_dependents(w, false, g, w.count()),
    ensures
        ignore_gap_list(entries, ignore, dv) == workspace_gap_list(entries, ignore, w),
    decreases entries.len(),
{
    if entries.len() > 0 {
        lemma_gap_lists_agree(entries.drop_last(), ignore, dv, w);
        assert(lookup_dependents(dv, entries.last()) == workspace_dependents(w, false, entries.last(), w.count()));
    }
}

/// Checks the release groups and the ignore list of a configuration against a
/// workspace: expands the fixed and the linked groups, finds the packages that
/// one kind of group names twice or that both kinds name, and each dependent of
/// an ignored package that is not ignored itself.
pub fn parse(json: WrittenConfig, packages: Packages) -> (r: ConfigReport)
    requires
        packages.count() <= usize::MAX,
    ensures
        r.access == normalized_access(json.access),
        r.fixed.kind == ParsePackageGroupType::Fixed,
        r.fixed.groups.len() == groups_or_none(json.fixed).len(),
        forall|g: int| 0 <= g < r.fixed.groups.len() ==> #[trigger] names_view(r.fixed.groups@[g]@) == group_expansion(workspace_names(packages), names_view(groups_or_none(json.fixed)[g]@)),
        names_view(r.fixed.duplicated@).no_duplicates(),
        forall|n: Seq<char>| #[trigger] names_view(r.fixed.duplicated@).contains(n) <==> occurs_twice(flatten(nested_view(r.fixed.groups@)), n),
        r.linked.kind == ParsePackageGroupType::Linked,
        r.linked.groups.len() == groups_or_none(json.linked).len(),
        forall|g: int| 0 <= g < r.linked.groups.len() ==> #[trigger] names_view(r.linked.groups@[g]@) == group_expansion(workspace_names(packages), names_view(groups_or_none(json.linked)[g]@)),
        names_view(r.linked.duplicated@).no_duplicates(),
        forall|n: Seq<char>| #[trigger] names_view(r.linked.duplicated@).contains(n) <==> occurs_twice(flatten(nested_view(r.linked.groups@)), n),
        names_view(r.fixed_and_linked@).no_duplicates(),
        forall|n: Seq<char>| #[trigger] names_view(r.fixed_and_linked@).contains(n) <==> flatten(nested_view(r.fixed.groups@)).contains(n) && flatten(nested_view(r.linked.groups@)).contains(n),
        json.ignore is None ==> r.ignore_gaps.len() == 0,
        json.ignore matches Some(ig) ==> string_pairs_view(r.ignore_gaps@) == workspace_gap_list(names_view(ig@), names_view(ig@), packages),
{
    let mut pkg_names: Vec<String> = Vec::new();
    let n = packages.len();
    let mut i: usize = 0;
    while i < n
        invariant
            n == packages.count() <= usize::MAX,
            i <= n,
            names_view(pkg_names@) == workspace_names(packages).take(i as int),
        decreases n - i,
    {
        let ghost before = names_view(pkg_names@);
        pkg_names.push(packages.package_at(i).package_json.name.clone());
        assert(names_view(pkg_names@) =~= before.push(packages.name_at(i as int)));
        assert(workspace_names(packages).take(i as int + 1) =~= workspace_names(packages).take(i as int).push(packages.name_at(i as int)));
        i = i + 1;
    }
    assert(workspace_names(packages).take(n as int) =~= workspace_names(packages));
    let access = match json.access {
        Some(AccessType::Public) => AccessType::Public,
        _ => AccessType::Restricted,
    };
    let no_groups: Vec<PackageGroup> = Vec::new();
    let fixed = match &json.fixed {
        Some(f) => parse_package_group(f, &mut pkg_names, ParsePackageGroupType::Fixed),
        None => parse_package_group(&no_groups, &mut pkg_names, ParsePackageGroupType::Fixed),
    };
    let linked = match &json.linked {
        Some(l) => parse_package_group(l, &mut pkg_names, ParsePackageGroupType::Linked),
        None => parse_package_group(&no_groups, &mut pkg_names, ParsePackageGroupType::Linked),
    };
    let all_fixed = flatten_groups(&fixed.groups);
    let all_linked = flatten_groups(&linked.groups);
    let both = fixed_and_linked(&all_fixed, &all_linked);
    let ghost w = packages;
    let gaps = match &json.ignore {
        Some(ig) => {
            let dependents = get_dependents_graph(packages, None);
            let gaps = ignore_gaps(ig, &dependents);
            proof {
                let dv = dependents_view(dependents@);
                assert(bump_only_workspace(None::<DependentsGraphOption>) == false);
                assert forall|i: int| 0 <= i < dv.len() implies #[trigger] dv[i].0 == w.name_at(i) by {
                    assert(dependents@[i].pkg@ == w.at(i)@);
                }
                assert forall|i: int| 0 <= i < dv.len() implies #[trigger] dv[i].1 == workspace_dependents(w, false, w.name_at(i), w.count()) by {
                    assert(names_view(dependents@[i].dependents@) == workspace_dependents(w, false, w.name_at(i), w.count()));
                }
                assert(dv.take(dv.len() as int) =~= dv);
                assert forall|g: Seq<char>| #[trigger] lookup_dependents(dv, g) == workspace_dependents(w, false, g, w.count()) by {
                    lemma_lookup_workspace_dependents(w, dv, g, dv.len() as int);
                    if !(exists|i: int| 0 <= i < dv.len() && #[trigger] w.name_at(i) == g) {
                        lemma_no_dependents_of_stranger(w, g, w.count());
                    }
                }
                lemma_gap_lists_agree(names_view(ig@), names_view(ig@), dv, w);
            }
            gaps
        },
        None => Vec::new(),
    };
    ConfigReport { access, fixed, linked, fixed_and_linked: both, ignore_gaps: gaps }
}

/// What checking a configuration against a workspace found.
#[derive(Debug, PartialEq, Eq)]
pub struct ConfigReport {
    pub access: AccessType,
    pub fixed: ExpandedGroups,
    pub linked: ExpandedGroups,
    /// Packages named by both a fixed and a linked group.
    pub fixed_and_linked: Vec<String>,
    /// (dependent, ignored package) for each dependent of an ignored package
    /// that is not ignored itself.
    pub ignore_gaps: Vec<(String, String)>,
}

} // verus!
