use fcsr::dependency_graph::{
    get_all_dependencies, get_dependency_graph, get_dependents_graph, DependencyGraph,
    DependencyGraphItem, DependentsGraphOption,
};
use fcsr::packages::{Package, Packages, Tool};
use fcsr::pkg_json::PkgJson;

fn gen_map(pairs: &[(&str, &str)]) -> Vec<(String, String)> {
    pairs.iter().map(|(k, v)| (k.to_string(), v.to_string())).collect()
}

fn pkg(dir: &str, package_json: PkgJson) -> Package {
    Package { package_json, dir: String::from(dir) }
}

fn plain(name: &str, version: &str) -> PkgJson {
    PkgJson::new(name.to_string(), version.to_string())
}

fn with_deps(name: &str, version: &str, deps: &[(&str, &str)]) -> PkgJson {
    let mut p = plain(name, version);
    p.dependencies = Some(gen_map(deps));
    p
}

fn workspace(members: Vec<Package>) -> Packages {
    Packages { root: pkg(".", plain("root", "1.0.0")), tool: Tool::Pnpm, packages: members }
}

fn item<'a>(graph: &'a [DependencyGraphItem], name: &str) -> &'a DependencyGraphItem {
    graph.iter().find(|i| i.pkg.package_json.name == name).unwrap()
}

#[test]
fn test_get_all_dependencies() {
    let pkg_json = PkgJson {
        name: String::from("test"),
        version: String::from("1.1.1"),
        dependencies: Some(gen_map(&[("A", "a")])),
        dev_dependencies: Some(gen_map(&[("B", "b")])),
        peer_dependencies: Some(gen_map(&[("C", "c")])),
        optional_dependencies: Some(gen_map(&[("D", "d")])),
        resolutions: Some(gen_map(&[])),
        private: None,
        publish_config: None,
        workspaces: None,
    };
    let all = get_all_dependencies(&pkg_json);
    println!("{:?}", all);
    assert_eq!(all, gen_map(&[("A", "a"), ("B", "b"), ("C", "c"), ("D", "d")]));
}

#[test]
fn should_skip_dependencies_specified_through_the_link_protocol() {
    let mut foo = plain("foo", "1.0.0");
    foo.dev_dependencies = Some(gen_map(&[("bar", "link:../bar")]));
    let pkgs = workspace(vec![pkg("foo", foo), pkg("bar", plain("bar", "1.0.0"))]);
    let DependencyGraph { valid, graph, .. } = get_dependency_graph(&pkgs, None);

    assert!(valid);
    assert_eq!(serde_json::to_string(&item(&graph, "foo").dependencies).unwrap(), "[]");
}

#[test]
fn should_skip_dependencies_specified_using_a_tag() {
    let pkgs = workspace(vec![
        pkg("examples/foo", with_deps("foo-example", "1.0.0", &[("bar", "latest")])),
        pkg("packages/bar", plain("bar", "1.0.0")),
    ]);
    let DependencyGraph { valid, graph, .. } = get_dependency_graph(&pkgs, None);

    assert!(valid);
    assert_eq!(serde_json::to_string(&item(&graph, "foo-example").dependencies).unwrap(), "[]");
}

#[test]
fn should_set_valid_to_false_if_the_link_protocol_is_used_in_a_non_dev_dep() {
    let pkgs = workspace(vec![
        pkg("foo", with_deps("foo", "1.0.0", &[("bar", "link:../bar")])),
        pkg("bar", plain("bar", "1.0.0")),
    ]);
    let DependencyGraph { valid, .. } = get_dependency_graph(&pkgs, None);

    assert!(!valid);
}

#[test]
fn one_entry_per_package_root_first() {
    let pkgs = workspace(vec![
        pkg("a", plain("a", "1.0.0")),
        pkg("b", with_deps("b", "1.0.0", &[("a", "^1.0.0")])),
    ]);
    let g = get_dependency_graph(&pkgs, None);
    let names: Vec<&str> = g.graph.iter().map(|i| i.pkg.package_json.name.as_str()).collect();
    assert_eq!(names, vec!["root", "a", "b"]);
    assert_eq!(g.graph[2].pkg.dir, "b");
    assert!(g.valid);
    assert!(g.warnings.is_empty());
}

#[test]
fn workspace_wildcards_are_always_edges() {
    let pkgs = workspace(vec![
        pkg("a", plain("a", "not-a-version")),
        pkg("b", plain("b", "0.0.1")),
        pkg("c", plain("c", "9.9.9")),
        pkg("d", with_deps("d", "1.0.0", &[("a", "workspace:*"), ("b", "workspace:^"), ("c", "workspace:~")])),
    ]);
    let g = get_dependency_graph(&pkgs, None);
    assert!(g.valid);
    assert_eq!(item(&g.graph, "d").dependencies, vec!["a", "b", "c"]);
}

#[test]
fn pinned_workspace_range_is_never_accepted() {
    let pkgs = workspace(vec![
        pkg("a", plain("a", "1.2.3")),
        pkg("b", with_deps("b", "1.0.0", &[("a", "workspace:1.2.3")])),
    ]);
    let g = get_dependency_graph(&pkgs, None);
    assert!(!g.valid);
    assert!(item(&g.graph, "b").dependencies.is_empty());
    assert_eq!(g.warnings.len(), 1);
    assert_eq!(g.warnings[0].declared, "workspace:1.2.3");
}

#[test]
fn file_link_in_dev_dependencies_is_ignored() {
    let mut b = plain("b", "1.0.0");
    b.dev_dependencies = Some(gen_map(&[("a", "file:../a")]));
    let pkgs = workspace(vec![pkg("a", plain("a", "2.0.0")), pkg("b", b)]);
    let g = get_dependency_graph(&pkgs, None);
    assert!(g.valid);
    assert!(item(&g.graph, "b").dependencies.is_empty());
    assert!(g.warnings.is_empty());
}

#[test]
fn out_of_range_dependency_gives_one_warning() {
    let pkgs = workspace(vec![
        pkg("A", with_deps("A", "1.0.0", &[("B", "^1.0.0")])),
        pkg("B", plain("B", "2.0.0")),
    ]);
    let g = get_dependency_graph(&pkgs, None);
    assert!(!g.valid);
    assert!(item(&g.graph, "A").dependencies.is_empty());
    assert_eq!(g.warnings.len(), 1);
    let w = &g.warnings[0];
    assert_eq!(
        (w.consumer.as_str(), w.dependency.as_str(), w.expected.as_str(), w.declared.as_str()),
        ("A", "B", "2.0.0", "^1.0.0")
    );
}

#[test]
fn satisfied_range_is_an_edge() {
    let pkgs = workspace(vec![
        pkg("a", plain("a", "1.4.0")),
        pkg("b", with_deps("b", "1.0.0", &[("a", "^1.2.0")])),
    ]);
    let g = get_dependency_graph(&pkgs, None);
    assert!(g.valid);
    assert_eq!(item(&g.graph, "b").dependencies, vec!["a"]);
}

#[test]
fn range_with_unparsable_target_version_is_an_edge() {
    let pkgs = workspace(vec![
        pkg("a", plain("a", "banana")),
        pkg("b", with_deps("b", "1.0.0", &[("a", "^1.2.0")])),
    ]);
    let g = get_dependency_graph(&pkgs, None);
    assert!(g.valid);
    assert_eq!(item(&g.graph, "b").dependencies, vec!["a"]);
}

#[test]
fn other_protocol_is_invalid() {
    let pkgs = workspace(vec![
        pkg("a", plain("a", "1.0.0")),
        pkg("b", with_deps("b", "1.0.0", &[("a", "npm:a@1.0.0")])),
    ]);
    let g = get_dependency_graph(&pkgs, None);
    assert!(!g.valid);
    assert_eq!(g.warnings[0].declared, "npm:a@1.0.0");
}

#[test]
fn external_dependencies_are_left_out() {
    let pkgs = workspace(vec![pkg("b", with_deps("b", "1.0.0", &[("lodash", "npm:lodash@4")]))]);
    let g = get_dependency_graph(&pkgs, None);
    assert!(g.valid);
    assert!(item(&g.graph, "b").dependencies.is_empty());
}

#[test]
fn later_dependency_kind_overrides_earlier() {
    let mut b = with_deps("b", "1.0.0", &[("a", "^1.0.0")]);
    b.peer_dependencies = Some(gen_map(&[("a", "^3.0.0")]));
    let all = get_all_dependencies(&b);
    assert_eq!(all, gen_map(&[("a", "^3.0.0")]));
    let pkgs = workspace(vec![pkg("a", plain("a", "1.0.0")), pkg("b", b)]);
    let g = get_dependency_graph(&pkgs, None);
    assert!(!g.valid);
}

#[test]
fn bump_only_workspace_protocol_skips_other_ranges() {
    let pkgs = workspace(vec![
        pkg("a", plain("a", "2.0.0")),
        pkg("c", plain("c", "1.0.0")),
        pkg("b", with_deps("b", "1.0.0", &[("a", "^1.0.0"), ("c", "workspace:*")])),
    ]);
    let opts = DependentsGraphOption { bump_versions_with_workspace_protocol_only: Some(true) };
    let g = get_dependency_graph(&pkgs, Some(opts));
    assert!(g.valid);
    assert!(g.warnings.is_empty());
    assert_eq!(item(&g.graph, "b").dependencies, vec!["c"]);
}

#[test]
fn dependents_are_the_inverse_of_dependencies() {
    let pkgs = workspace(vec![
        pkg("a", plain("a", "1.0.0")),
        pkg("b", with_deps("b", "1.0.0", &[("a", "workspace:*")])),
        pkg("c", with_deps("c", "1.0.0", &[("a", "^1.0.0"), ("b", "workspace:~")])),
    ]);
    let d = get_dependents_graph(pkgs, None);
    let of = |n: &str| d.iter().find(|e| e.pkg.package_json.name == n).unwrap().dependents.clone();
    assert_eq!(d.len(), 4);
    assert_eq!(of("a"), vec!["b", "c"]);
    assert_eq!(of("b"), vec!["c"]);
    assert!(of("c").is_empty());
    assert!(of("root").is_empty());
}

#[test]
fn dependency_on_own_name_is_left_out() {
    let pkgs = workspace(vec![pkg("a", with_deps("a", "1.0.0", &[("a", "^2.0.0")]))]);
    let g = get_dependency_graph(&pkgs, None);
    assert!(g.valid);
    assert!(g.warnings.is_empty());
    assert!(item(&g.graph, "a").dependencies.is_empty());
}

#[test]
fn dependents_with_bump_only_flag() {
    let pkgs = workspace(vec![
        pkg("a", plain("a", "1.0.0")),
        pkg("b", with_deps("b", "1.0.0", &[("a", "^1.0.0")])),
        pkg("c", with_deps("c", "1.0.0", &[("a", "workspace:~")])),
    ]);
    let opts = DependentsGraphOption { bump_versions_with_workspace_protocol_only: Some(true) };
    let d = get_dependents_graph(pkgs, Some(opts));
    let of = |n: &str| d.iter().find(|e| e.pkg.package_json.name == n).unwrap().dependents.clone();
    assert_eq!(of("a"), vec!["c"]);
    assert!(of("b").is_empty());
    assert!(of("c").is_empty());
}

#[test]
fn accepted_edges_survive_an_invalid_graph() {
    let pkgs = workspace(vec![
        pkg("a", with_deps("a", "1.0.0", &[("b", "^1.0.0")])),
        pkg("b", plain("b", "2.0.0")),
        pkg("c", with_deps("c", "1.0.0", &[("b", "workspace:*")])),
    ]);
    assert!(!get_dependency_graph(&pkgs, None).valid);
    let d = get_dependents_graph(pkgs, None);
    let of = |n: &str| d.iter().find(|e| e.pkg.package_json.name == n).unwrap().dependents.clone();
    assert_eq!(of("b"), vec!["c"]);
    assert!(of("a").is_empty());
}
