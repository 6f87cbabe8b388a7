use vstd::prelude::*;
use crate::packages::{Package, Packages};
use crate::pkg_json::{entries_of, DependencyMap, ManifestModel, PkgJson};
use crate::ranges::{
    classify, classify_range, has_prefix, is_local_link, is_local_link_range, is_protocol, is_workspace_wildcard,
    lemma_bump_only_workspace_skips_others, lemma_dist_tag_is_skipped, lemma_pinned_workspace_is_invalid,
    semver_range_parses, workspace_prefix, Verdict,
};

verus! {

/// `m` after the entries of one dependency map were written into it in order;
/// with `drop_links`, local links are left out.
pub open spec fn absorb(
    m: Map<Seq<char>, Seq<char>>,
    entries: Seq<(Seq<char>, Seq<char>)>,
    drop_links: bool,
) -> Map<Seq<char>, Seq<char>>
    decreases entries.len(),
{
    if entries.len() == 0 {
        m
    } else {
        let e = entries.last();
        let prev = absorb(m, entries.drop_last(), drop_links);
        if drop_links && is_local_link(e.1) {
            prev
        } else {
            prev.insert(e.0, e.1)
        }
    }
}

/// All dependencies of a manifest, from dependency name to declared range:
/// `dependencies`, then `devDependencies` without local links, then
/// `peerDependencies`, then `optionalDependencies`, a later entry replacing an
/// earlier one of the same name.
pub open spec fn unified_dependencies(p: ManifestModel) -> Map<Seq<char>, Seq<char>> {
    let deps = absorb(Map::empty(), p.dependencies, false);
    let dev = absorb(deps, p.dev_dependencies, true);
    let peer = absorb(dev, p.peer_dependencies, false);
    absorb(peer, p.optional_dependencies, false)
}

/// The entries of `s` that are no local links.
pub open spec fn without_links(s: Seq<(Seq<char>, Seq<char>)>) -> Seq<(Seq<char>, Seq<char>)>
    decreases s.len(),
{
    if s.len() == 0 {
        s
    } else if is_local_link(s.last().1) {
        without_links(s.drop_last())
    } else {
        without_links(s.drop_last()).push(s.last())
    }
}

proof fn lemma_absorb_without_links(m: Map<Seq<char>, Seq<char>>, s: Seq<(Seq<char>, Seq<char>)>)
    ensures
        absorb(m, s, true) == absorb(m, without_links(s), true),
    decreases s.len(),
{
    if s.len() > 0 {
        lemma_absorb_without_links(m, s.drop_last());
        let t = without_links(s.drop_last());
        if !is_local_link(s.last().1) {
            assert(t.push(s.last()).drop_last() =~= t);
        }
    }
}

/// `link:` and `file:` ranges among the dev dependencies count for nothing:
/// without them a manifest has the same dependencies, so they make no edge, no
/// warning, and leave the graph valid.
pub proof fn lemma_dev_local_links_ignored(p: ManifestModel)
    ensures
        unified_dependencies(p) == unified_dependencies(ManifestModel { dev_dependencies: without_links(p.dev_dependencies), ..p }),
{
    let deps = absorb(Map::empty(), p.dependencies, false);
    lemma_absorb_without_links(deps, p.dev_dependencies);
}

/// `s` lists the entries of `m`, each name once.
pub open spec fn lists_map(s: Seq<(Seq<char>, Seq<char>)>, m: Map<Seq<char>, Seq<char>>) -> bool {
    &&& forall|i: int, j: int| 0 <= i < j < s.len() ==> s[i].0 != s[j].0
    &&& forall|i: int| 0 <= i < s.len() ==> m.contains_key(#[trigger] s[i].0)
    &&& forall|i: int| 0 <= i < s.len() ==> m[#[trigger] s[i].0] == s[i].1
    &&& forall|k: Seq<char>| #[trigger] m.contains_key(k) ==> exists|i: int| 0 <= i < s.len() && s[i].0 == k
}

pub open spec fn pairs_view(v: Seq<(String, String)>) -> Seq<(Seq<char>, Seq<char>)> {
    v.map_values(|e: (String, String)| (e.0@, e.1@))
}

/// Position of the entry named `name`, if there is one.
fn position_of(acc: &Vec<(String, String)>, name: &String) -> (r: Option<usize>)
    ensures
        r matches Some(j) ==> j < acc.len() && acc@[j as int].0@ == name@,
        r is None ==> forall|k: int| 0 <= k < acc.len() ==> acc@[k].0@ != name@,
{
    let mut j: usize = 0;
    while j < acc.len()
        invariant
            j <= acc.len(),
            forall|k: int| 0 <= k < j ==> acc@[k].0@ != name@,
        decreases acc.len() - j,
    {
        if acc[j].0 == *name {
            return Some(j);
        }
        j = j + 1;
    }
    None
}

/// Writes one entry into `acc`, replacing the range of `name` if it is there.
fn put(acc: &mut Vec<(String, String)>, name: &String, range: &String)
    ensures
        forall|m: Map<Seq<char>, Seq<char>>| #[trigger] lists_map(pairs_view(old(acc)@), m)
            ==> lists_map(pairs_view(final(acc)@), m.insert(name@, range@)),
{
    let ghost pv0 = pairs_view(acc@);
    let pos = position_of(acc, name);
    match pos {
        Some(j) => {
            acc.set(j, (name.clone(), range.clone()));
            let ghost pv = pairs_view(acc@);
            assert forall|k: int| 0 <= k < acc.len() && k != j implies #[trigger] pv[k] == pv0[k] by {}
            assert(pv[j as int] == (name@, range@));
            assert(pv0[j as int].0 == name@);
            assert forall|k: int| 0 <= k < pv.len() implies #[trigger] pv[k].0 == pv0[k].0 by {}
            assert forall|m: Map<Seq<char>, Seq<char>>| #[trigger] lists_map(pv0, m) implies lists_map(pv, m.insert(name@, range@)) by {
                let after = m.insert(name@, range@);
                assert forall|k: Seq<char>| #[trigger] after.contains_key(k) implies exists|x: int| 0 <= x < pv.len() && pv[x].0 == k by {
                    if k == name@ {
                        assert(pv[j as int].0 == k);
                    } else {
                        assert(m.contains_key(k));
                        let x = choose|x: int| 0 <= x < pv0.len() && pv0[x].0 == k;
                        assert(pv[x].0 == k);
                    }
                }
                assert forall|x: int| 0 <= x < pv.len() implies #[trigger] after.contains_key(pv[x].0) && after[pv[x].0] == pv[x].1 by {
                    if x != j {
                        assert(pv0[x].0 != pv0[j as int].0);
                        assert(pv[x] == pv0[x]);
                        assert(m.contains_key(pv0[x].0) && m[pv0[x].0] == pv0[x].1);
                        assert(after[pv[x].0] == m[pv[x].0]);
                    }
                }
            }
        },
        None => {
            acc.push((name.clone(), range.clone()));
            let ghost pv = pairs_view(acc@);
            assert forall|k: int| 0 <= k < pv0.len() implies #[trigger] pv[k] == pv0[k] by {}
            assert(pv[pv0.len() as int] == (name@, range@));
            assert forall|k: int| 0 <= k < pv0.len() implies #[trigger] pv0[k].0 != name@ by {
                assert(acc@[k].0@ != name@);
            }
            assert forall|m: Map<Seq<char>, Seq<char>>| #[trigger] lists_map(pv0, m) implies lists_map(pv, m.insert(name@, range@)) by {
                let after = m.insert(name@, range@);
                assert forall|k: Seq<char>| #[trigger] after.contains_key(k) implies exists|x: int| 0 <= x < pv.len() && pv[x].0 == k by {
                    if k == name@ {
                        assert(pv[pv0.len() as int].0 == k);
                    } else {
                        assert(m.contains_key(k));
                        let x = choose|x: int| 0 <= x < pv0.len() && pv0[x].0 == k;
                        assert(pv[x].0 == k);
                    }
                }
                assert forall|x: int| 0 <= x < pv.len() implies #[trigger] after.contains_key(pv[x].0) && after[pv[x].0] == pv[x].1 by {}
            }
        },
    }
}

proof fn lemma_lists_map_at(s: Seq<(Seq<char>, Seq<char>)>, m: Map<Seq<char>, Seq<char>>, x: int)
    requires
        lists_map(s, m),
        0 <= x < s.len(),
    ensures
        m.contains_key(s[x].0),
        m[s[x].0] == s[x].1,
{
}

/// Writes the entries of `source` into `acc` in order; with `drop_links`,
/// local links are left out.
fn absorb_into(acc: &mut Vec<(String, String)>, source: &Option<DependencyMap>, drop_links: bool)
    ensures
        forall|m: Map<Seq<char>, Seq<char>>| #[trigger] lists_map(pairs_view(old(acc)@), m)
            ==> lists_map(pairs_view(final(acc)@), absorb(m, entries_of(*source), drop_links)),
{
    let ghost pv0 = pairs_view(acc@);
    match source {
        None => {
            assert(entries_of(*source) =~= Seq::empty());
        },
        Some(v) => {
            let ghost es = entries_of(*source);
            let mut i: usize = 0;
            while i < v.len()
                invariant
                    i <= v.len(),
                    es == entries_of(Some(*v)),
                    pv0 == pairs_view(old(acc)@),
                    forall|m: Map<Seq<char>, Seq<char>>| #[trigger] lists_map(pv0, m)
                        ==> lists_map(pairs_view(acc@), absorb(m, es.take(i as int), drop_links)),
                decreases v.len() - i,
            {
                assert(es.take(i as int + 1).drop_last() =~= es.take(i as int));
                assert(es.take(i as int + 1).last() == (v@[i as int].0@, v@[i as int].1@));
                let name = &v[i].0;
                let range = &v[i].1;
                if !(drop_links && is_local_link_range(range.as_str())) {
                    put(acc, name, range);
                }
                i = i + 1;
            }
            assert(es.take(v.len() as int) =~= es);
        },
    }
}

/// All dependencies of a manifest, each name once with the range that counts.
pub fn get_all_dependencies(config: &PkgJson) -> (r: Vec<(String, String)>)
    ensures
        lists_map(pairs_view(r@), unified_dependencies(config@)),
{
    let mut acc: Vec<(String, String)> = Vec::new();
    let ghost m0 = Map::<Seq<char>, Seq<char>>::empty();
    assert(lists_map(pairs_view(acc@), m0));
    absorb_into(&mut acc, &config.dependencies, false);
    let ghost m1 = absorb(m0, entries_of(config.dependencies), false);
    absorb_into(&mut acc, &config.dev_dependencies, true);
    let ghost m2 = absorb(m1, entries_of(config.dev_dependencies), true);
    absorb_into(&mut acc, &config.peer_dependencies, false);
    let ghost m3 = absorb(m2, entries_of(config.peer_dependencies), false);
    absorb_into(&mut acc, &config.optional_dependencies, false);
    acc
}

/// Options of a graph build.
#[derive(Debug, PartialEq, Eq, Clone, Copy)]
pub struct DependentsGraphOption {
    pub bump_versions_with_workspace_protocol_only: Option<bool>,
}

/// Whether only `workspace:` ranges are considered.
pub open spec fn bump_only_workspace(opts: Option<DependentsGraphOption>) -> bool {
    match opts {
        Some(o) => o.bump_versions_with_workspace_protocol_only == Some(true),
        None => false,
    }
}

/// A package and the workspace packages it validly depends on.
#[derive(Debug, PartialEq, Eq)]
pub struct DependencyGraphItem {
    pub pkg: Package,
    pub dependencies: Vec<String>,
}

impl DependencyGraphItem {
    pub fn new(pkg: Package, dependencies: Vec<String>) -> (r: Self)
        ensures
            r.pkg == pkg,
            r.dependencies == dependencies,
    {
        DependencyGraphItem { pkg, dependencies }
    }
}

/// A declaration of `consumer` on `dependency` with range `declared` that the
/// current version `expected` of `dependency` does not satisfy.
#[derive(Debug, PartialEq, Eq)]
pub struct DependencyWarning {
    pub consumer: String,
    pub dependency: String,
    pub expected: String,
    pub declared: String,
}

impl View for DependencyWarning {
    type V = (Seq<char>, Seq<char>, Seq<char>, Seq<char>);

    open spec fn view(&self) -> (Seq<char>, Seq<char>, Seq<char>, Seq<char>) {
        (self.consumer@, self.dependency@, self.expected@, self.declared@)
    }
}

/// The internal dependency graph of a workspace: one item per package, the root
/// first, then the members in order.
#[derive(Debug, PartialEq, Eq)]
pub struct DependencyGraph {
    pub graph: Vec<DependencyGraphItem>,
    pub valid: bool,
    pub warnings: Vec<DependencyWarning>,
}

pub open spec fn names_view(v: Seq<String>) -> Seq<Seq<char>> {
    v.map_values(|s: String| s@)
}

/// The verdict on a dependency entry (name, declared range) of the package
/// named `c`, if the entry names another workspace package.
pub open spec fn entry_verdict(w: Packages, c: Seq<char>, e: (Seq<char>, Seq<char>), bump: bool) -> Option<Verdict> {
    if e.0 == c {
        None
    } else {
        match w.version_of(e.0) {
            Some(v) => Some(classify(e.1, v, bump)),
            None => None,
        }
    }
}

/// The verdict on the dependency of package `i` on `d`, if `i` declares one
/// and `d` is another workspace package.
pub open spec fn verdict_at(w: Packages, i: int, d: Seq<char>, bump: bool) -> Option<Verdict> {
    let u = unified_dependencies(w.at(i)@);
    if u.contains_key(d) {
        entry_verdict(w, w.name_at(i), (d, u[d]), bump)
    } else {
        None
    }
}

/// The warning owed for the dependency of package `i` on `d`.
pub open spec fn expected_warning(w: Packages, i: int, d: Seq<char>) -> (Seq<char>, Seq<char>, Seq<char>, Seq<char>) {
    (w.name_at(i), d, w.version_of(d).unwrap(), unified_dependencies(w.at(i)@)[d])
}

/// `wv` is the warning owed for an invalid dependency of package `i`.
pub open spec fn warning_of(w: Packages, i: int, bump: bool, wv: (Seq<char>, Seq<char>, Seq<char>, Seq<char>)) -> bool {
    verdict_at(w, i, wv.1, bump) == Some(Verdict::Invalid) && wv == expected_warning(w, i, wv.1)
}

pub open spec fn warnings_view(v: Seq<DependencyWarning>) -> Seq<(Seq<char>, Seq<char>, Seq<char>, Seq<char>)> {
    v.map_values(|x: DependencyWarning| x@)
}

/// Names of the entries of `s` that become edges, in order.
pub open spec fn edge_names(w: Packages, c: Seq<char>, s: Seq<(Seq<char>, Seq<char>)>, bump: bool) -> Seq<Seq<char>>
    decreases s.len(),
{
    if s.len() == 0 {
        Seq::empty()
    } else {
        let prev = edge_names(w, c, s.drop_last(), bump);
        if entry_verdict(w, c, s.last(), bump) == Some(Verdict::Edge) {
            prev.push(s.last().0)
        } else {
            prev
        }
    }
}

/// The warning for an entry `e` of consumer `c`.
pub open spec fn entry_warning(w: Packages, c: Seq<char>, e: (Seq<char>, Seq<char>)) -> (Seq<char>, Seq<char>, Seq<char>, Seq<char>) {
    (c, e.0, w.version_of(e.0).unwrap(), e.1)
}

/// Warnings for the invalid entries of `s` of consumer `c`, in order.
pub open spec fn invalid_warnings(w: Packages, c: Seq<char>, s: Seq<(Seq<char>, Seq<char>)>, bump: bool) -> Seq<(Seq<char>, Seq<char>, Seq<char>, Seq<char>)>
    decreases s.len(),
{
    if s.len() == 0 {
        Seq::empty()
    } else {
        let prev = invalid_warnings(w, c, s.drop_last(), bump);
        if entry_verdict(w, c, s.last(), bump) == Some(Verdict::Invalid) {
            prev.push(entry_warning(w, c, s.last()))
        } else {
            prev
        }
    }
}

pub proof fn lemma_push_contains<A>(s: Seq<A>, x: A, d: A)
    ensures
        s.push(x).contains(d) <==> (s.contains(d) || x == d),
{
    if s.push(x).contains(d) {
        let k = choose|k: int| 0 <= k < s.push(x).len() && s.push(x)[k] == d;
        if k < s.len() {
            assert(s[k] == d);
        }
    }
    if s.contains(d) {
        let k = choose|k: int| 0 <= k < s.len() && s[k] == d;
        assert(s.push(x)[k] == d);
    }
    if x == d {
        assert(s.push(x)[s.len() as int] == d);
    }
}

proof fn lemma_edge_names(w: Packages, c: Seq<char>, s: Seq<(Seq<char>, Seq<char>)>, bump: bool)
    ensures
        forall|d: Seq<char>| #[trigger] edge_names(w, c, s, bump).contains(d) <==> exists|x: int| 0 <= x < s.len() && s[x].0 == d && entry_verdict(w, c, s[x], bump) == Some(Verdict::Edge),
        (forall|a: int, b: int| 0 <= a < b < s.len() ==> s[a].0 != s[b].0) ==> edge_names(w, c, s, bump).no_duplicates(),
    decreases s.len(),
{
    if s.len() > 0 {
        let p = s.drop_last();
        lemma_edge_names(w, c, p, bump);
        assert forall|x: int| 0 <= x < p.len() implies #[trigger] p[x] == s[x] by {}
        assert forall|d: Seq<char>| #[trigger] edge_names(w, c, s, bump).contains(d) <==> exists|x: int| 0 <= x < s.len() && s[x].0 == d && entry_verdict(w, c, s[x], bump) == Some(Verdict::Edge) by {
            lemma_push_contains(edge_names(w, c, p, bump), s.last().0, d);
            if edge_names(w, c, s, bump).contains(d) {
                if edge_names(w, c, p, bump).contains(d) {
                    let x = choose|x: int| 0 <= x < p.len() && p[x].0 == d && entry_verdict(w, c, p[x], bump) == Some(Verdict::Edge);
                    assert(s[x] == p[x]);
                } else {
                    assert(s[s.len() - 1].0 == d);
                }
            }
            if exists|x: int| 0 <= x < s.len() && s[x].0 == d && entry_verdict(w, c, s[x], bump) == Some(Verdict::Edge) {
                let x = choose|x: int| 0 <= x < s.len() && s[x].0 == d && entry_verdict(w, c, s[x], bump) == Some(Verdict::Edge);
                if x < s.len() - 1 {
                    assert(p[x] == s[x]);
                } else {
                    assert(edge_names(w, c, s, bump).last() == d);
                }
            }
        }
        if forall|a: int, b: int| 0 <= a < b < s.len() ==> s[a].0 != s[b].0 {
            assert forall|a: int, b: int| 0 <= a < b < p.len() implies p[a].0 != p[b].0 by {
                assert(p[a] == s[a] && p[b] == s[b]);
            }
            if entry_verdict(w, c, s.last(), bump) == Some(Verdict::Edge) {
                if edge_names(w, c, p, bump).contains(s.last().0) {
                    let x = choose|x: int| 0 <= x < p.len() && p[x].0 == s.last().0 && entry_verdict(w, c, p[x], bump) == Some(Verdict::Edge);
                    assert(p[x] == s[x]);
                }
            }
        }
    }
}

proof fn lemma_invalid_warnings(w: Packages, c: Seq<char>, s: Seq<(Seq<char>, Seq<char>)>, bump: bool)
    ensures
        (forall|a: int, b: int| 0 <= a < b < s.len() ==> s[a].0 != s[b].0) ==> invalid_warnings(w, c, s, bump).no_duplicates(),
        forall|wv| #[trigger] invalid_warnings(w, c, s, bump).contains(wv) <==> exists|x: int| 0 <= x < s.len() && entry_verdict(w, c, s[x], bump) == Some(Verdict::Invalid) && wv == entry_warning(w, c, s[x]),
    decreases s.len(),
{
    if s.len() > 0 {
        let p = s.drop_last();
        lemma_invalid_warnings(w, c, p, bump);
        assert forall|x: int| 0 <= x < p.len() implies #[trigger] p[x] == s[x] by {}
        assert forall|wv| #[trigger] invalid_warnings(w, c, s, bump).contains(wv) <==> exists|x: int| 0 <= x < s.len() && entry_verdict(w, c, s[x], bump) == Some(Verdict::Invalid) && wv == entry_warning(w, c, s[x]) by {
            lemma_push_contains(invalid_warnings(w, c, p, bump), entry_warning(w, c, s.last()), wv);
            if invalid_warnings(w, c, s, bump).contains(wv) {
                if invalid_warnings(w, c, p, bump).contains(wv) {
                    let x = choose|x: int| 0 <= x < p.len() && entry_verdict(w, c, p[x], bump) == Some(Verdict::Invalid) && wv == entry_warning(w, c, p[x]);
                    assert(s[x] == p[x]);
                } else {
                    assert(wv == entry_warning(w, c, s[s.len() - 1]));
                }
            }
            if exists|x: int| 0 <= x < s.len() && entry_verdict(w, c, s[x], bump) == Some(Verdict::Invalid) && wv == entry_warning(w, c, s[x]) {
                let x = choose|x: int| 0 <= x < s.len() && entry_verdict(w, c, s[x], bump) == Some(Verdict::Invalid) && wv == entry_warning(w, c, s[x]);
                if x < s.len() - 1 {
                    assert(p[x] == s[x]);
                } else {
                    assert(invalid_warnings(w, c, s, bump).last() == wv);
                }
            }
        }
        if forall|a: int, b: int| 0 <= a < b < s.len() ==> s[a].0 != s[b].0 {
            assert forall|a: int, b: int| 0 <= a < b < p.len() implies p[a].0 != p[b].0 by {
                assert(p[a] == s[a] && p[b] == s[b]);
            }
            if entry_verdict(w, c, s.last(), bump) == Some(Verdict::Invalid) {
                if invalid_warnings(w, c, p, bump).contains(entry_warning(w, c, s.last())) {
                    let x = choose|x: int| 0 <= x < p.len() && entry_verdict(w, c, p[x], bump) == Some(Verdict::Invalid) && entry_warning(w, c, s.last()) == entry_warning(w, c, p[x]);
                    assert(p[x] == s[x]);
                }
            }
        }
    }
}

/// The validated dependencies of package `i`, and the warnings for it.
fn collect_internal(
    w: &Packages,
    i: usize,
    bump: bool,
    warnings: &mut Vec<DependencyWarning>,
) -> (r: (Vec<String>, bool))
    requires
        i < w.count() <= usize::MAX,
    ensures
        names_view(r.0@).no_duplicates(),
        forall|d: Seq<char>| #[trigger] names_view(r.0@).contains(d) <==> verdict_at(*w, i as int, d, bump) == Some(Verdict::Edge),
        r.1 <==> forall|d: Seq<char>| #[trigger] verdict_at(*w, i as int, d, bump) != Some(Verdict::Invalid),
        exists|fresh: Seq<(Seq<char>, Seq<char>, Seq<char>, Seq<char>)>| {
            &&& warnings_view(final(warnings)@) == warnings_view(old(warnings)@) + fresh
            &&& fresh.no_duplicates()
            &&& forall|k: int| 0 <= k < fresh.len() ==> warning_of(*w, i as int, bump, #[trigger] fresh[k])
            &&& forall|d: Seq<char>| #[trigger] verdict_at(*w, i as int, d, bump) == Some(Verdict::Invalid) ==> fresh.contains(expected_warning(*w, i as int, d))
        },
{
    let pkg = w.package_at(i);
    let all = get_all_dependencies(&pkg.package_json);
    let ghost u = unified_dependencies(w.at(i as int)@);
    let ghost pv = pairs_view(all@);
    let ghost c = pkg.package_json.name@;
    let ghost w0 = warnings_view(warnings@);
    let mut deps: Vec<String> = Vec::new();
    let mut clean = true;
    let mut j: usize = 0;
    while j < all.len()
        invariant
            i < w.count() <= usize::MAX,
            pkg == w.at(i as int),
            c == w.name_at(i as int),
            u == unified_dependencies(w.at(i as int)@),
            pv == pairs_view(all@),
            lists_map(pv, u),
            j <= all.len(),
            w0 == warnings_view(old(warnings)@),
            warnings_view(warnings@) == w0 + invalid_warnings(*w, c, pv.take(j as int), bump),
            names_view(deps@) == edge_names(*w, c, pv.take(j as int), bump),
            clean <==> forall|x: int| 0 <= x < j ==> #[trigger] entry_verdict(*w, c, pv[x], bump) != Some(Verdict::Invalid),
        decreases all.len() - j,
    {
        let name = &all[j].0;
        let range = &all[j].1;
        let ghost pre = pv.take(j as int);
        let ghost post = pv.take(j as int + 1);
        assert(post.drop_last() =~= pre);
        assert(post.last() == (name@, range@));
        let ghost vw0 = warnings_view(warnings@);
        let ghost nd0 = names_view(deps@);
        let found = if *name == pkg.package_json.name {
            None
        } else {
            w.find_named(name)
        };
        match found {
            Some(t) => {
                let version = &w.package_at(t).package_json.version;
                assert(w.version_of(name@) == Some(version@));
                let verdict = classify_range(range.as_str(), version.as_str(), bump);
                assert(entry_verdict(*w, c, pv[j as int], bump) == Some(verdict));
                match verdict {
                    Verdict::Edge => {
                        deps.push(name.clone());
                        assert(names_view(deps@) =~= nd0.push(name@));
                    },
                    Verdict::Invalid => {
                        clean = false;
                        warnings.push(DependencyWarning {
                            consumer: pkg.package_json.name.clone(),
                            dependency: name.clone(),
                            expected: version.clone(),
                            declared: range.clone(),
                        });
                        assert(warnings_view(warnings@) =~= vw0.push(entry_warning(*w, c, (name@, range@))));
                    },
                    Verdict::Skip => {},
                }
            },
            None => {
                assert(entry_verdict(*w, c, pv[j as int], bump) is None);
            },
        }
        j = j + 1;
    }
    proof {
        assert(pv.take(pv.len() as int) =~= pv);
        let fresh = invalid_warnings(*w, c, pv, bump);
        lemma_edge_names(*w, c, pv, bump);
        lemma_invalid_warnings(*w, c, pv, bump);
        assert forall|d: Seq<char>| #[trigger] verdict_at(*w, i as int, d, bump) is Some implies exists|x: int| 0 <= x < pv.len() && pv[x].0 == d && verdict_at(*w, i as int, d, bump) == entry_verdict(*w, c, pv[x], bump) by {
            let x = choose|x: int| 0 <= x < pv.len() && pv[x].0 == d;
        }
        assert forall|k: int| 0 <= k < fresh.len() implies warning_of(*w, i as int, bump, #[trigger] fresh[k]) by {
            assert(fresh.contains(fresh[k]));
        }
        assert forall|d: Seq<char>| #[trigger] verdict_at(*w, i as int, d, bump) == Some(Verdict::Invalid) implies fresh.contains(expected_warning(*w, i as int, d)) by {
            let x = choose|x: int| 0 <= x < pv.len() && pv[x].0 == d && verdict_at(*w, i as int, d, bump) == entry_verdict(*w, c, pv[x], bump);
            assert(entry_warning(*w, c, pv[x]) == expected_warning(*w, i as int, d));
        }
        assert forall|d: Seq<char>| #[trigger] names_view(deps@).contains(d) <==> verdict_at(*w, i as int, d, bump) == Some(Verdict::Edge) by {
            if verdict_at(*w, i as int, d, bump) == Some(Verdict::Edge) {
                let x = choose|x: int| 0 <= x < pv.len() && pv[x].0 == d && verdict_at(*w, i as int, d, bump) == entry_verdict(*w, c, pv[x], bump);
            }
        }
        if !clean {
            let x = choose|x: int| 0 <= x < j && #[trigger] entry_verdict(*w, c, pv[x], bump) == Some(Verdict::Invalid);
            assert(verdict_at(*w, i as int, pv[x].0, bump) == Some(Verdict::Invalid));
        }
    }
    (deps, clean)
}

proof fn lemma_concat_contains<A>(a: Seq<A>, b: Seq<A>, x: A)
    ensures
        (a + b).contains(x) <==> (a.contains(x) || b.contains(x)),
{
    if (a + b).contains(x) {
        let k = choose|k: int| 0 <= k < (a + b).len() && (a + b)[k] == x;
        if k < a.len() {
            assert(a[k] == x);
        } else {
            assert(b[k - a.len()] == x);
        }
    }
    if a.contains(x) {
        let k = choose|k: int| 0 <= k < a.len() && a[k] == x;
        assert((a + b)[k] == x);
    }
    if b.contains(x) {
        let k = choose|k: int| 0 <= k < b.len() && b[k] == x;
        assert((a + b)[k + a.len()] == x);
    }
}

/// No two packages of the workspace share a name.
pub open spec fn names_distinct(w: Packages) -> bool {
    forall|i: int, j: int| 0 <= i < j < w.count() ==> w.name_at(i) != w.name_at(j)
}

proof fn lemma_concat_no_duplicates<A>(a: Seq<A>, b: Seq<A>)
    requires
        a.no_duplicates(),
        b.no_duplicates(),
        forall|x: A| a.contains(x) ==> !b.contains(x),
    ensures
        (a + b).no_duplicates(),
{
    assert forall|i: int, j: int| 0 <= i < j < (a + b).len() implies (a + b)[i] != (a + b)[j] by {
        if i < a.len() && j >= a.len() {
            assert(a.contains(a[i]));
            assert(b[j - a.len()] == (a + b)[j]);
        } else if i >= a.len() {
            assert(b[i - a.len()] == (a + b)[i] && b[j - a.len()] == (a + b)[j]);
        }
    }
}

/// No declaration in the workspace is invalid.
pub open spec fn graph_valid(w: Packages, bump: bool) -> bool {
    forall|i: int, d: Seq<char>| 0 <= i < w.count() ==> #[trigger] verdict_at(w, i, d, bump) != Some(Verdict::Invalid)
}

/// `wv` is owed for an invalid declaration of some package of the workspace.
pub open spec fn warning_due(w: Packages, bump: bool, wv: (Seq<char>, Seq<char>, Seq<char>, Seq<char>)) -> bool {
    exists|i: int| 0 <= i < w.count() && #[trigger] warning_of(w, i, bump, wv)
}

/// Builds the internal dependency graph of a workspace: for each package, the
/// root first, the workspace packages it validly depends on; whether every
/// internal declaration is consistent; and a warning for each one that is not.
pub fn get_dependency_graph(packages: &Packages, opts: Option<DependentsGraphOption>) -> (r: DependencyGraph)
    requires
        packages.count() <= usize::MAX,
    ensures
        r.graph.len() == packages.count(),
        forall|i: int| 0 <= i < packages.count() ==> #[trigger] r.graph@[i].pkg@ == packages.at(i)@ && r.graph@[i].pkg.same_as(packages.at(i)),
        forall|i: int| 0 <= i < packages.count() ==> names_view(#[trigger] r.graph@[i].dependencies@).no_duplicates(),
        forall|i: int, d: Seq<char>| 0 <= i < packages.count() ==> (#[trigger] names_view(r.graph@[i].dependencies@).contains(d) <==> verdict_at(*packages, i, d, bump_only_workspace(opts)) == Some(Verdict::Edge)),
        r.valid == graph_valid(*packages, bump_only_workspace(opts)),
        forall|k: int| 0 <= k < r.warnings.len() ==> warning_due(*packages, bump_only_workspace(opts), #[trigger] r.warnings@[k]@),
        names_distinct(*packages) ==> warnings_view(r.warnings@).no_duplicates(),
        forall|i: int, d: Seq<char>| 0 <= i < packages.count() && #[trigger] verdict_at(*packages, i, d, bump_only_workspace(opts)) == Some(Verdict::Invalid)
            ==> warnings_view(r.warnings@).contains(expected_warning(*packages, i, d)),
{
    let bump = match opts {
        Some(o) => match o.bump_versions_with_workspace_protocol_only {
            Some(b) => b,
            None => false,
        },
        None => false,
    };
    let ghost w = *packages;
    let n = packages.len();
    let mut graph: Vec<DependencyGraphItem> = Vec::new();
    let mut warnings: Vec<DependencyWarning> = Vec::new();
    let mut valid = true;
    let mut i: usize = 0;
    while i < n
        invariant
            n == w.count() <= usize::MAX,
            w == *packages,
            bump == bump_only_workspace(opts),
            i <= n,
            graph.len() == i,
            forall|k: int| 0 <= k < i ==> #[trigger] graph@[k].pkg@ == w.at(k)@ && graph@[k].pkg.same_as(w.at(k)),
            forall|k: int| 0 <= k < i ==> names_view(#[trigger] graph@[k].dependencies@).no_duplicates(),
            forall|k: int, d: Seq<char>| 0 <= k < i ==> (#[trigger] names_view(graph@[k].dependencies@).contains(d) <==> verdict_at(w, k, d, bump) == Some(Verdict::Edge)),
            valid <==> forall|k: int, d: Seq<char>| 0 <= k < i ==> #[trigger] verdict_at(w, k, d, bump) != Some(Verdict::Invalid),
            forall|k: int| 0 <= k < warnings.len() ==> warning_due(w, bump, #[trigger] warnings@[k]@),
            forall|k: int| 0 <= k < warnings.len() ==> exists|x: int| 0 <= x < i && #[trigger] warnings@[k]@.0 == w.name_at(x),
            names_distinct(w) ==> warnings_view(warnings@).no_duplicates(),
            forall|k: int, d: Seq<char>| 0 <= k < i && #[trigger] verdict_at(w, k, d, bump) == Some(Verdict::Invalid)
                ==> warnings_view(warnings@).contains(expected_warning(w, k, d)),
        decreases n - i,
    {
        let ghost before = warnings_view(warnings@);
        let ghost old_warnings = warnings;
        let (deps, clean) = collect_internal(packages, i, bump, &mut warnings);
        let ghost fresh = choose|fresh: Seq<(Seq<char>, Seq<char>, Seq<char>, Seq<char>)>| {
            &&& warnings_view(warnings@) == before + fresh
            &&& fresh.no_duplicates()
            &&& forall|k: int| 0 <= k < fresh.len() ==> warning_of(w, i as int, bump, #[trigger] fresh[k])
            &&& forall|d: Seq<char>| #[trigger] verdict_at(w, i as int, d, bump) == Some(Verdict::Invalid) ==> fresh.contains(expected_warning(w, i as int, d))
        };
        proof {
            assert(warnings_view(warnings@) == before + fresh);
            assert(warnings_view(warnings@).len() == warnings@.len());
            assert forall|k: int| 0 <= k < warnings.len() implies warning_due(w, bump, #[trigger] warnings@[k]@) by {
                assert(warnings_view(warnings@)[k] == warnings@[k]@);
                if k < before.len() {
                    assert(before[k] == warnings@[k]@);
                } else {
                    assert(fresh[k - before.len()] == warnings@[k]@);
                    assert(warning_of(w, i as int, bump, warnings@[k]@));
                }
            }
            assert forall|k: int| 0 <= k < warnings.len() implies exists|x: int| 0 <= x < i + 1 && #[trigger] warnings@[k]@.0 == w.name_at(x) by {
                assert(warnings_view(warnings@)[k] == warnings@[k]@);
                if k < before.len() {
                    assert(before[k] == warnings@[k]@);
                } else {
                    assert(fresh[k - before.len()] == warnings@[k]@);
                    assert(warning_of(w, i as int, bump, fresh[k - before.len()]));
                }
            }
            if names_distinct(w) {
                assert forall|x| before.contains(x) implies !fresh.contains(x) by {
                    let k = choose|k: int| 0 <= k < before.len() && before[k] == x;
                    assert(warnings_view(old_warnings@)[k] == old_warnings@[k]@);
                    let y = choose|y: int| 0 <= y < i && #[trigger] old_warnings@[k]@.0 == w.name_at(y);
                    if fresh.contains(x) {
                        let m = choose|m: int| 0 <= m < fresh.len() && fresh[m] == x;
                        assert(warning_of(w, i as int, bump, fresh[m]));
                    }
                }
                lemma_concat_no_duplicates(before, fresh);
            }
            assert forall|k: int, d: Seq<char>| 0 <= k <= i && #[trigger] verdict_at(w, k, d, bump) == Some(Verdict::Invalid)
                implies warnings_view(warnings@).contains(expected_warning(w, k, d)) by {
                lemma_concat_contains(before, fresh, expected_warning(w, k, d));
            }
        }
        let pkg = packages.package_at(i).clone();
        graph.push(DependencyGraphItem::new(pkg, deps));
        if !clean {
            valid = false;
        }
        i = i + 1;
    }
    DependencyGraph { graph, valid, warnings }
}

/// A package and the workspace packages that validly depend on it.
#[derive(Debug, PartialEq, Eq)]
pub struct DependentGraph {
    pub pkg: Package,
    pub dependents: Vec<String>,
}

/// Each item of a graph as its package's name and its dependency names.
pub open spec fn graph_view(g: Seq<DependencyGraphItem>) -> Seq<(Seq<char>, Seq<Seq<char>>)> {
    g.map_values(|it: DependencyGraphItem| (it.pkg.package_json.name@, names_view(it.dependencies@)))
}

/// Names of the items of `gv` that depend on `target`, in order.
pub open spec fn dependents_in(gv: Seq<(Seq<char>, Seq<Seq<char>>)>, target: Seq<char>) -> Seq<Seq<char>>
    decreases gv.len(),
{
    if gv.len() == 0 {
        Seq::empty()
    } else {
        let prev = dependents_in(gv.drop_last(), target);
        if gv.last().1.contains(target) {
            prev.push(gv.last().0)
        } else {
            prev
        }
    }
}

/// Inversion loses and adds nothing: a package is a dependent of `d` in the
/// inverted graph exactly when `d` is among that package's validated
/// dependencies.
pub proof fn lemma_inversion_round_trip(g: DependencyGraph, p: Seq<char>, d: Seq<char>)
    ensures
        dependents_in(graph_view(g.graph@), d).contains(p) <==> exists|j: int| 0 <= j < g.graph.len() && #[trigger] g.graph@[j].pkg.package_json.name@ == p && names_view(g.graph@[j].dependencies@).contains(d),
{
    lemma_dependents_in(graph_view(g.graph@), p, d);
    let gv = graph_view(g.graph@);
    if exists|j: int| 0 <= j < g.graph.len() && #[trigger] g.graph@[j].pkg.package_json.name@ == p && names_view(g.graph@[j].dependencies@).contains(d) {
        let j = choose|j: int| 0 <= j < g.graph.len() && #[trigger] g.graph@[j].pkg.package_json.name@ == p && names_view(g.graph@[j].dependencies@).contains(d);
        assert(gv[j].0 == p && gv[j].1.contains(d));
    }
}

proof fn lemma_dependents_in(gv: Seq<(Seq<char>, Seq<Seq<char>>)>, p: Seq<char>, d: Seq<char>)
    ensures
        dependents_in(gv, d).contains(p) <==> exists|j: int| 0 <= j < gv.len() && #[trigger] gv[j].0 == p && gv[j].1.contains(d),
    decreases gv.len(),
{
    if gv.len() > 0 {
        let prev = gv.drop_last();
        lemma_dependents_in(prev, p, d);
        assert forall|x: int| 0 <= x < prev.len() implies #[trigger] prev[x] == gv[x] by {}
        lemma_push_contains(dependents_in(prev, d), gv.last().0, p);
        if dependents_in(prev, d).contains(p) {
            let j = choose|j: int| 0 <= j < prev.len() && #[trigger] prev[j].0 == p && prev[j].1.contains(d);
            assert(gv[j] == prev[j]);
        }
        if exists|j: int| 0 <= j < gv.len() && #[trigger] gv[j].0 == p && gv[j].1.contains(d) {
            let j = choose|j: int| 0 <= j < gv.len() && #[trigger] gv[j].0 == p && gv[j].1.contains(d);
            if j < prev.len() {
                assert(prev[j] == gv[j]);
            }
        }
    }
}

/// Whether `v` holds `s`.
pub(crate) fn contains_name(v: &Vec<String>, s: &String) -> (r: bool)
    ensures
        r == names_view(v@).contains(s@),
{
    let mut i: usize = 0;
    while i < v.len()
        invariant
            i <= v.len(),
            forall|k: int| 0 <= k < i ==> v@[k]@ != s@,
        decreases v.len() - i,
    {
        if v[i] == *s {
            assert(names_view(v@)[i as int] == s@);
            return true;
        }
        i = i + 1;
    }
    proof {
        if names_view(v@).contains(s@) {
            let k = choose|k: int| 0 <= k < v.len() && names_view(v@)[k] == s@;
            assert(v@[k]@ == s@);
        }
    }
    false
}

/// Inverts a dependency graph: for each of its items, in order, the names of
/// the items that depend on it.
pub fn invert_dependency_graph(graph: &DependencyGraph) -> (r: Vec<DependentGraph>)
    ensures
        r.len() == graph.graph.len(),
        forall|i: int| 0 <= i < r.len() ==> #[trigger] r@[i].pkg@ == graph.graph@[i].pkg@ && r@[i].pkg.same_as(graph.graph@[i].pkg),
        forall|i: int| 0 <= i < r.len() ==> names_view(#[trigger] r@[i].dependents@) == dependents_in(graph_view(graph.graph@), graph.graph@[i].pkg.package_json.name@),
{
    let items = &graph.graph;
    let ghost gv = graph_view(items@);
    let mut r: Vec<DependentGraph> = Vec::new();
    let mut i: usize = 0;
    while i < items.len()
        invariant
            gv == graph_view(items@),
            i <= items.len(),
            r.len() == i,
            forall|k: int| 0 <= k < i ==> #[trigger] r@[k].pkg@ == items@[k].pkg@ && r@[k].pkg.same_as(items@[k].pkg),
            forall|k: int| 0 <= k < i ==> names_view(#[trigger] r@[k].dependents@) == dependents_in(gv, items@[k].pkg.package_json.name@),
        decreases items.len() - i,
    {
        let target = &items[i].pkg.package_json.name;
        let mut dependents: Vec<String> = Vec::new();
        let mut j: usize = 0;
        while j < items.len()
            invariant
                gv == graph_view(items@),
                j <= items.len(),
                names_view(dependents@) == dependents_in(gv.take(j as int), target@),
            decreases items.len() - j,
        {
            assert(gv.take(j as int + 1).drop_last() =~= gv.take(j as int));
            assert(gv.take(j as int + 1).last() == (items@[j as int].pkg.package_json.name@, names_view(items@[j as int].dependencies@)));
            let ghost before = names_view(dependents@);
            if contains_name(&items[j].dependencies, target) {
                dependents.push(items[j].pkg.package_json.name.clone());
                assert(names_view(dependents@) =~= before.push(items@[j as int].pkg.package_json.name@));
            }
            j = j + 1;
        }
        assert(gv.take(items.len() as int) =~= gv);
        r.push(DependentGraph { pkg: items[i].pkg.clone(), dependents });
        i = i + 1;
    }
    r
}

/// Names of the first `n` packages of the workspace, in order, that validly
/// depend on `target`.
pub open spec fn workspace_dependents(w: Packages, bump: bool, target: Seq<char>, n: int) -> Seq<Seq<char>>
    decreases n,
{
    if n <= 0 {
        Seq::empty()
    } else {
        let prev = workspace_dependents(w, bump, target, n - 1);
        if verdict_at(w, n - 1, target, bump) == Some(Verdict::Edge) {
            prev.push(w.name_at(n - 1))
        } else {
            prev
        }
    }
}

proof fn lemma_workspace_dependents(w: Packages, bump: bool, target: Seq<char>, n: int)
    requires
        n <= w.count(),
    ensures
        forall|x: Seq<char>| #[trigger] workspace_dependents(w, bump, target, n).contains(x) ==> exists|j: int| 0 <= j < n && w.name_at(j) == x,
        names_distinct(w) ==> workspace_dependents(w, bump, target, n).no_duplicates(),
    decreases n,
{
    if n > 0 {
        lemma_workspace_dependents(w, bump, target, n - 1);
        let prev = workspace_dependents(w, bump, target, n - 1);
        assert forall|x: Seq<char>| #[trigger] workspace_dependents(w, bump, target, n).contains(x) implies exists|j: int| 0 <= j < n && w.name_at(j) == x by {
            lemma_push_contains(prev, w.name_at(n - 1), x);
            if prev.contains(x) {
                let j = choose|j: int| 0 <= j < n - 1 && w.name_at(j) == x;
            } else {
                assert(w.name_at(n - 1) == x);
            }
        }
        if names_distinct(w) && verdict_at(w, n - 1, target, bump) == Some(Verdict::Edge) {
            if prev.contains(w.name_at(n - 1)) {
                let j = choose|j: int| 0 <= j < n - 1 && #[trigger] w.name_at(j) == w.name_at(n - 1);
                assert(w.name_at(j) != w.name_at(n - 1));
            }
            let cur = prev.push(w.name_at(n - 1));
            assert forall|a: int, b: int| 0 <= a < b < cur.len() implies #[trigger] cur[a] != #[trigger] cur[b] by {
                if b == prev.len() {
                    assert(prev.contains(prev[a]));
                }
            }
        }
    }
}

proof fn lemma_dependents_of_built_graph(w: Packages, bump: bool, g: Seq<DependencyGraphItem>, target: Seq<char>, n: int)
    requires
        g.len() == w.count(),
        0 <= n <= g.len(),
        forall|i: int| 0 <= i < w.count() ==> #[trigger] g[i].pkg@ == w.at(i)@,
        forall|i: int, d: Seq<char>| 0 <= i < w.count() ==> (#[trigger] names_view(g[i].dependencies@).contains(d) <==> verdict_at(w, i, d, bump) == Some(Verdict::Edge)),
    ensures
        dependents_in(graph_view(g).take(n), target) == workspace_dependents(w, bump, target, n),
    decreases n,
{
    if n > 0 {
        lemma_dependents_of_built_graph(w, bump, g, target, n - 1);
        let gv = graph_view(g);
        assert(gv.take(n).drop_last() =~= gv.take(n - 1));
        assert(gv.take(n).last() == gv[n - 1]);
        assert(g[n - 1].pkg@ == w.at(n - 1)@);
        assert(names_view(g[n - 1].dependencies@).contains(target) <==> verdict_at(w, n - 1, target, bump) == Some(Verdict::Edge));
    }
}

/// The dependents graph of a workspace: for each package, the root first, the
/// workspace packages that validly depend on it.
pub fn get_dependents_graph(packages: Packages, opts: Option<DependentsGraphOption>) -> (r: Vec<DependentGraph>)
    requires
        packages.count() <= usize::MAX,
    ensures
        r.len() == packages.count(),
        forall|i: int| 0 <= i < r.len() ==> #[trigger] r@[i].pkg@ == packages.at(i)@ && r@[i].pkg.same_as(packages.at(i)),
        forall|i: int, p: Seq<char>| 0 <= i < r.len() ==> (#[trigger] names_view(r@[i].dependents@).contains(p) <==> exists|j: int| 0 <= j < packages.count() && #[trigger] packages.name_at(j) == p
            && verdict_at(packages, j, packages.name_at(i), bump_only_workspace(opts)) == Some(Verdict::Edge)),
        forall|i: int| 0 <= i < r.len() ==> #[trigger] names_view(r@[i].dependents@) == workspace_dependents(packages, bump_only_workspace(opts), packages.name_at(i), packages.count()),
        names_distinct(packages) ==> forall|i: int| 0 <= i < r.len() ==> #[trigger] names_view(r@[i].dependents@).no_duplicates(),
{
    let graph = get_dependency_graph(&packages, opts);
    let r = invert_dependency_graph(&graph);
    proof {
        let bump = bump_only_workspace(opts);
        assert forall|i: int| 0 <= i < r.len() implies #[trigger] names_view(r@[i].dependents@) == workspace_dependents(packages, bump, packages.name_at(i), packages.count()) by {
            assert(graph.graph@[i].pkg@ == packages.at(i)@);
            lemma_dependents_of_built_graph(packages, bump, graph.graph@, packages.name_at(i), packages.count());
            assert(graph_view(graph.graph@).take(packages.count()) =~= graph_view(graph.graph@));
        }
        if names_distinct(packages) {
            assert forall|i: int| 0 <= i < r.len() implies #[trigger] names_view(r@[i].dependents@).no_duplicates() by {
                lemma_workspace_dependents(packages, bump, packages.name_at(i), packages.count());
            }
        }
        assert forall|i: int, p: Seq<char>| 0 <= i < r.len() implies (#[trigger] names_view(r@[i].dependents@).contains(p) <==> exists|j: int| 0 <= j < packages.count() && #[trigger] packages.name_at(j) == p
            && verdict_at(packages, j, packages.name_at(i), bump) == Some(Verdict::Edge)) by {
            let d = packages.name_at(i);
            assert(graph.graph@[i].pkg@ == packages.at(i)@);
            assert(graph.graph@[i].pkg.package_json.name@ == d);
            lemma_inversion_round_trip(graph, p, d);
            if names_view(r@[i].dependents@).contains(p) {
                let j = choose|j: int| 0 <= j < graph.graph.len() && #[trigger] graph.graph@[j].pkg.package_json.name@ == p && names_view(graph.graph@[j].dependencies@).contains(d);
                assert(graph.graph@[j].pkg@ == packages.at(j)@);
                assert(packages.name_at(j) == p);
            }
            if exists|j: int| 0 <= j < packages.count() && #[trigger] packages.name_at(j) == p && verdict_at(packages, j, d, bump) == Some(Verdict::Edge) {
                let j = choose|j: int| 0 <= j < packages.count() && #[trigger] packages.name_at(j) == p && verdict_at(packages, j, d, bump) == Some(Verdict::Edge);
                assert(graph.graph@[j].pkg@ == packages.at(j)@);
                assert(graph.graph@[j].pkg.package_json.name@ == p);
                assert(names_view(graph.graph@[j].dependencies@).contains(d));
            }
        }
    }
    r
}

/// A declaration `workspace:*`, `workspace:^` or `workspace:~` of a workspace
/// package is an edge of the graph, whatever that package's version.
pub proof fn lemma_wildcard_declaration_is_edge(w: Packages, i: int, d: Seq<char>, bump: bool)
    requires
        0 <= i < w.count(),
        d != w.name_at(i),
        unified_dependencies(w.at(i)@).contains_key(d),
        w.version_of(d) is Some,
        is_workspace_wildcard(unified_dependencies(w.at(i)@)[d]),
    ensures
        verdict_at(w, i, d, bump) == Some(Verdict::Edge),
{
}

/// A pinned `workspace:` declaration of a workspace package (such as
/// `workspace:1.2.3`, even where that is the package's version) is no edge and
/// makes the graph invalid.
pub proof fn lemma_pinned_declaration_invalidates(w: Packages, i: int, d: Seq<char>, bump: bool)
    requires
        0 <= i < w.count(),
        d != w.name_at(i),
        unified_dependencies(w.at(i)@).contains_key(d),
        w.version_of(d) is Some,
        has_prefix(unified_dependencies(w.at(i)@)[d], workspace_prefix()),
        !is_workspace_wildcard(unified_dependencies(w.at(i)@)[d]),
    ensures
        verdict_at(w, i, d, bump) == Some(Verdict::Invalid),
        !graph_valid(w, bump),
{
    lemma_pinned_workspace_is_invalid(unified_dependencies(w.at(i)@)[d], w.version_of(d).unwrap(), bump);
}

/// A declaration without protocol that semver cannot read (a dist-tag such as
/// `latest`) makes no edge and leaves the graph's validity alone.
pub proof fn lemma_dist_tag_declaration_skipped(w: Packages, i: int, d: Seq<char>, bump: bool)
    requires
        0 <= i < w.count(),
        unified_dependencies(w.at(i)@).contains_key(d),
        !is_protocol(unified_dependencies(w.at(i)@)[d]),
    ensures
        !semver_range_parses(unified_dependencies(w.at(i)@)[d]) ==> verdict_at(w, i, d, bump) != Some(Verdict::Edge)
            && verdict_at(w, i, d, bump) != Some(Verdict::Invalid),
{
    if w.version_of(d) is Some {
        lemma_dist_tag_is_skipped(unified_dependencies(w.at(i)@)[d], w.version_of(d).unwrap(), bump);
    }
}

/// When only `workspace:` ranges count, any other declaration makes no edge,
/// no warning, and leaves the graph's validity alone.
pub proof fn lemma_bump_only_workspace_declaration_skipped(w: Packages, i: int, d: Seq<char>)
    requires
        0 <= i < w.count(),
        unified_dependencies(w.at(i)@).contains_key(d),
        !has_prefix(unified_dependencies(w.at(i)@)[d], workspace_prefix()),
    ensures
        verdict_at(w, i, d, true) != Some(Verdict::Edge),
        verdict_at(w, i, d, true) != Some(Verdict::Invalid),
{
    if w.version_of(d) is Some {
        lemma_bump_only_workspace_skips_others(unified_dependencies(w.at(i)@)[d], w.version_of(d).unwrap());
    }
}

proof fn lemma_without_links_remove(s: Seq<(Seq<char>, Seq<char>)>, k: int)
    requires
        0 <= k < s.len(),
        is_local_link(s[k].1),
    ensures
        without_links(s.remove(k)) == without_links(s),
    decreases s.len(),
{
    if k == s.len() - 1 {
        assert(s.remove(k) =~= s.drop_last());
    } else {
        let t = s.remove(k);
        assert(t.drop_last() =~= s.drop_last().remove(k));
        assert(t.last() == s.last());
        lemma_without_links_remove(s.drop_last(), k);
    }
}

proof fn lemma_same_versions(w: Packages, w2: Packages, n: int, d: Seq<char>)
    requires
        w2.count() == w.count(),
        n <= w.count(),
        forall|j: int| 0 <= j < w.count() ==> #[trigger] w2.name_at(j) == w.name_at(j) && w2.at(j).package_json.version@ == w.at(j).package_json.version@,
    ensures
        w2.last_named_within(d, n) == w.last_named_within(d, n),
        n == w.count() ==> w2.version_of(d) == w.version_of(d),
    decreases n,
{
    if n > 0 {
        lemma_same_versions(w, w2, n - 1, d);
        assert(w2.name_at(n - 1) == w.name_at(n - 1));
    }
    if n == w.count() {
        w.lemma_last_named_within(d, n);
        if w.named(d) is Some {
            assert(w2.name_at(w.named(d).unwrap()) == w.name_at(w.named(d).unwrap()));
        }
    }
}

/// Deleting a `link:` or `file:` entry from a package's dev dependencies
/// changes nothing: every declaration gets the same verdict and owes the same
/// warning, so the edges, the warnings and the validity stay as they were.
pub proof fn lemma_dev_link_entry_changes_nothing(w: Packages, w2: Packages, i0: int, k: int, bump: bool)
    requires
        w2.count() == w.count(),
        0 <= i0 < w.count(),
        forall|j: int| 0 <= j < w.count() && j != i0 ==> #[trigger] w2.at(j)@ == w.at(j)@,
        0 <= k < w.at(i0)@.dev_dependencies.len(),
        is_local_link(w.at(i0)@.dev_dependencies[k].1),
        w2.at(i0)@ == (ManifestModel { dev_dependencies: w.at(i0)@.dev_dependencies.remove(k), ..w.at(i0)@ }),
    ensures
        forall|i: int, d: Seq<char>| 0 <= i < w.count() ==> #[trigger] verdict_at(w, i, d, bump) == verdict_at(w2, i, d, bump),
        forall|i: int, d: Seq<char>| 0 <= i < w.count() ==> #[trigger] expected_warning(w, i, d) == expected_warning(w2, i, d),
        graph_valid(w, bump) == graph_valid(w2, bump),
        forall|wv| #[trigger] warning_due(w, bump, wv) == warning_due(w2, bump, wv),
{
    let p = w.at(i0)@;
    let deps = absorb(Map::empty(), p.dependencies, false);
    lemma_absorb_without_links(deps, p.dev_dependencies);
    lemma_absorb_without_links(deps, p.dev_dependencies.remove(k));
    lemma_without_links_remove(p.dev_dependencies, k);
    assert(unified_dependencies(w2.at(i0)@) == unified_dependencies(p));
    assert forall|j: int| 0 <= j < w.count() implies #[trigger] unified_dependencies(w2.at(j)@) == unified_dependencies(w.at(j)@) by {
        if j != i0 {
            assert(w2.at(j)@ == w.at(j)@);
        }
    }
    assert forall|j: int| 0 <= j < w.count() implies #[trigger] w2.name_at(j) == w.name_at(j)
        && w2.at(j).package_json.version@ == w.at(j).package_json.version@ by {
        if j != i0 {
            assert(w2.at(j)@ == w.at(j)@);
        }
    }
    assert forall|d: Seq<char>| #[trigger] w2.version_of(d) == w.version_of(d) by {
        lemma_same_versions(w, w2, w.count(), d);
    }
    assert forall|i: int, d: Seq<char>| 0 <= i < w.count() implies #[trigger] verdict_at(w, i, d, bump) == verdict_at(w2, i, d, bump) by {
        assert(unified_dependencies(w2.at(i)@) == unified_dependencies(w.at(i)@));
        assert(w2.name_at(i) == w.name_at(i));
        assert(w2.version_of(d) == w.version_of(d));
    }
    assert forall|i: int, d: Seq<char>| 0 <= i < w.count() implies #[trigger] expected_warning(w, i, d) == expected_warning(w2, i, d) by {
        assert(unified_dependencies(w2.at(i)@) == unified_dependencies(w.at(i)@));
        assert(w2.name_at(i) == w.name_at(i));
        assert(w2.version_of(d) == w.version_of(d));
    }
    assert(graph_valid(w, bump) ==> graph_valid(w2, bump)) by {
        if graph_valid(w, bump) {
            assert forall|i: int, d: Seq<char>| 0 <= i < w2.count() implies #[trigger] verdict_at(w2, i, d, bump) != Some(Verdict::Invalid) by {
                assert(verdict_at(w, i, d, bump) != Some(Verdict::Invalid));
            }
        }
    }
    assert(graph_valid(w2, bump) ==> graph_valid(w, bump)) by {
        if graph_valid(w2, bump) {
            assert forall|i: int, d: Seq<char>| 0 <= i < w.count() implies #[trigger] verdict_at(w, i, d, bump) != Some(Verdict::Invalid) by {
                assert(verdict_at(w2, i, d, bump) != Some(Verdict::Invalid));
            }
        }
    }
    assert forall|wv| #[trigger] warning_due(w, bump, wv) == warning_due(w2, bump, wv) by {
        if warning_due(w, bump, wv) {
            let i = choose|i: int| 0 <= i < w.count() && #[trigger] warning_of(w, i, bump, wv);
            assert(verdict_at(w, i, wv.1, bump) == verdict_at(w2, i, wv.1, bump));
            assert(expected_warning(w, i, wv.1) == expected_warning(w2, i, wv.1));
            assert(warning_of(w2, i, bump, wv));
        }
        if warning_due(w2, bump, wv) {
            let i = choose|i: int| 0 <= i < w2.count() && #[trigger] warning_of(w2, i, bump, wv);
            assert(verdict_at(w, i, wv.1, bump) == verdict_at(w2, i, wv.1, bump));
            assert(expected_warning(w, i, wv.1) == expected_warning(w2, i, wv.1));
            assert(warning_of(w, i, bump, wv));
        }
    }
}

/// When only `workspace:` ranges count, a declaration with another range can
/// be left out of a manifest's dependencies and nothing changes: the same
/// edges, the same warnings and the same validity.
pub proof fn lemma_bump_only_entry_changes_nothing(w: Packages, w2: Packages, i0: int, d0: Seq<char>)
    requires
        w2.count() == w.count(),
        0 <= i0 < w.count(),
        forall|j: int| 0 <= j < w.count() ==> #[trigger] w2.name_at(j) == w.name_at(j) && w2.at(j).package_json.version@ == w.at(j).package_json.version@,
        forall|j: int| 0 <= j < w.count() && j != i0 ==> #[trigger] unified_dependencies(w2.at(j)@) == unified_dependencies(w.at(j)@),
        unified_dependencies(w.at(i0)@).contains_key(d0),
        !has_prefix(unified_dependencies(w.at(i0)@)[d0], workspace_prefix()),
        unified_dependencies(w2.at(i0)@) == unified_dependencies(w.at(i0)@).remove(d0),
    ensures
        forall|i: int, d: Seq<char>| 0 <= i < w.count() ==> (#[trigger] verdict_at(w, i, d, true) == Some(Verdict::Edge) <==> verdict_at(w2, i, d, true) == Some(Verdict::Edge)),
        forall|i: int, d: Seq<char>| 0 <= i < w.count() ==> (#[trigger] verdict_at(w, i, d, true) == Some(Verdict::Invalid) <==> verdict_at(w2, i, d, true) == Some(Verdict::Invalid)),
        graph_valid(w, true) == graph_valid(w2, true),
        forall|wv| #[trigger] warning_due(w, true, wv) == warning_due(w2, true, wv),
{
    assert forall|d: Seq<char>| #[trigger] w2.version_of(d) == w.version_of(d) by {
        lemma_same_versions(w, w2, w.count(), d);
    }
    assert forall|i: int, d: Seq<char>| 0 <= i < w.count() && !(i == i0 && d == d0) implies #[trigger] verdict_at(w, i, d, true) == verdict_at(w2, i, d, true)
        && expected_warning(w, i, d) == expected_warning(w2, i, d) by {
        assert(w2.name_at(i) == w.name_at(i));
        assert(w2.version_of(d) == w.version_of(d));
        if i != i0 {
            assert(unified_dependencies(w2.at(i)@) == unified_dependencies(w.at(i)@));
        }
    }
    lemma_bump_only_workspace_declaration_skipped(w, i0, d0);
    assert(verdict_at(w2, i0, d0, true) is None);
    assert forall|i: int, d: Seq<char>| 0 <= i < w.count() implies (#[trigger] verdict_at(w, i, d, true) == Some(Verdict::Edge) <==> verdict_at(w2, i, d, true) == Some(Verdict::Edge))
        && (verdict_at(w, i, d, true) == Some(Verdict::Invalid) <==> verdict_at(w2, i, d, true) == Some(Verdict::Invalid)) by {
        if !(i == i0 && d == d0) {
            assert(verdict_at(w, i, d, true) == verdict_at(w2, i, d, true));
        }
    }
    assert(graph_valid(w, true) ==> graph_valid(w2, true)) by {
        if graph_valid(w, true) {
            assert forall|i: int, d: Seq<char>| 0 <= i < w2.count() implies #[trigger] verdict_at(w2, i, d, true) != Some(Verdict::Invalid) by {
                assert(verdict_at(w, i, d, true) != Some(Verdict::Invalid));
            }
        }
    }
    assert(graph_valid(w2, true) ==> graph_valid(w, true)) by {
        if graph_valid(w2, true) {
            assert forall|i: int, d: Seq<char>| 0 <= i < w.count() implies #[trigger] verdict_at(w, i, d, true) != Some(Verdict::Invalid) by {
                assert(verdict_at(w2, i, d, true) != Some(Verdict::Invalid));
            }
        }
    }
    assert forall|wv| #[trigger] warning_due(w, true, wv) == warning_due(w2, true, wv) by {
        if warning_due(w, true, wv) {
            let i = choose|i: int| 0 <= i < w.count() && #[trigger] warning_of(w, i, true, wv);
            assert(!(i == i0 && wv.1 == d0));
            assert(verdict_at(w, i, wv.1, true) == verdict_at(w2, i, wv.1, true) && expected_warning(w, i, wv.1) == expected_warning(w2, i, wv.1));
            assert(warning_of(w2, i, true, wv));
        }
        if warning_due(w2, true, wv) {
            let i = choose|i: int| 0 <= i < w2.count() && #[trigger] warning_of(w2, i, true, wv);
            assert(!(i == i0 && wv.1 == d0));
            assert(verdict_at(w, i, wv.1, true) == verdict_at(w2, i, wv.1, true) && expected_warning(w, i, wv.1) == expected_warning(w2, i, wv.1));
            assert(warning_of(w, i, true, wv));
        }
    }
}

} // verus!
