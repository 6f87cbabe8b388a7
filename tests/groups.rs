use fcsr::errors::{plan_init, InitAction, InitError};
use fcsr::groups::{duplicated_names, fixed_and_linked, parse, parse_package_group, ParsePackageGroupType};
use fcsr::packages::{Package, Packages, Tool};
use fcsr::pkg_json::{AccessType, PkgJson};
use fcsr::written::WrittenConfig;

fn s(v: &[&str]) -> Vec<String> {
    v.iter().map(|x| x.to_string()).collect()
}

fn member(name: &str, deps: &[(&str, &str)]) -> Package {
    let mut p = PkgJson::new(name.to_string(), "1.0.0".to_string());
    if !deps.is_empty() {
        p.dependencies = Some(deps.iter().map(|(k, v)| (k.to_string(), v.to_string())).collect());
    }
    Package { package_json: p, dir: name.to_string() }
}

fn workspace(members: Vec<Package>) -> Packages {
    Packages { tool: Tool::Yarn, root: member("root", &[]), packages: members }
}

fn empty_config() -> WrittenConfig {
    let mut c = WrittenConfig::default();
    c.fixed = None;
    c.linked = None;
    c.ignore = None;
    c
}

#[test]
fn ignored_dependency_of_a_not_ignored_package() {
    let ws = workspace(vec![member("a", &[]), member("b", &[("a", "workspace:*")])]);
    let mut config = empty_config();
    config.ignore = Some(s(&["a"]));
    let r = parse(config, ws);
    assert_eq!(r.ignore_gaps, vec![("b".to_string(), "a".to_string())]);
}

#[test]
fn no_gap_when_dependent_is_ignored_too() {
    let ws = workspace(vec![member("a", &[]), member("b", &[("a", "workspace:*")])]);
    let mut config = empty_config();
    config.ignore = Some(s(&["a", "b"]));
    let r = parse(config, ws);
    assert!(r.ignore_gaps.is_empty());
}

#[test]
fn package_in_fixed_and_linked_group() {
    let ws = workspace(vec![member("a", &[]), member("b", &[])]);
    let mut config = empty_config();
    config.fixed = Some(vec![s(&["a"])]);
    config.linked = Some(vec![s(&["a"])]);
    let r = parse(config, ws);
    assert_eq!(r.fixed_and_linked, s(&["a"]));
    assert!(r.fixed.duplicated.is_empty());
    assert!(r.linked.duplicated.is_empty());
}

#[test]
fn package_in_two_fixed_groups() {
    let ws = workspace(vec![member("a", &[]), member("b", &[])]);
    let mut config = empty_config();
    config.fixed = Some(vec![s(&["a"]), s(&["a"])]);
    let r = parse(config, ws);
    assert_eq!(r.fixed.duplicated, s(&["a"]));
    assert!(r.fixed_and_linked.is_empty());
    assert_eq!(r.fixed.groups, vec![s(&["a"]), s(&["a"])]);
}

#[test]
fn globs_expand_in_workspace_order() {
    let mut names = s(&["root", "pkg-b", "pkg-a", "other"]);
    let groups = vec![s(&["pkg-*", "other", "missing"]), s(&["[", "root"])];
    let r = parse_package_group(&groups, &mut names, ParsePackageGroupType::Linked);
    assert_eq!(r.groups, vec![s(&["pkg-b", "pkg-a", "other"]), s(&["root"])]);
    assert!(r.duplicated.is_empty());
    assert_eq!(r.kind, ParsePackageGroupType::Linked);
    assert_eq!(names, s(&["root", "pkg-b", "pkg-a", "other"]));
}

#[test]
fn duplicates_within_one_group() {
    let mut names = s(&["a", "b"]);
    let groups = vec![s(&["*", "a"])];
    let r = parse_package_group(&groups, &mut names, ParsePackageGroupType::Fixed);
    assert_eq!(r.groups, vec![s(&["a", "b", "a"])]);
    assert_eq!(r.duplicated, s(&["a"]));
}

#[test]
fn duplicate_and_overlap_lists() {
    assert_eq!(duplicated_names(&s(&["a", "b", "a", "a", "b", "c"])), s(&["a", "b"]));
    assert!(duplicated_names(&s(&[])).is_empty());
    assert_eq!(fixed_and_linked(&s(&["c", "a", "c", "b"]), &s(&["b", "c"])), s(&["c", "b"]));
}

#[test]
fn access_is_normalized() {
    let mut config = empty_config();
    config.access = Some(AccessType::Private);
    assert_eq!(parse(config, workspace(vec![])).access, AccessType::Restricted);
    let mut config = empty_config();
    config.access = Some(AccessType::Public);
    assert_eq!(parse(config, workspace(vec![])).access, AccessType::Public);
    let mut config = empty_config();
    config.access = None;
    assert_eq!(parse(config, workspace(vec![])).access, AccessType::Restricted);
}

#[test]
fn default_written_config() {
    let c = WrittenConfig::default();
    assert_eq!(c.base_branch.as_deref(), Some("master"));
    assert_eq!(c.access, Some(AccessType::Restricted));
    assert_eq!(c.ignore, Some(vec![]));
    assert!(c.snapshot.is_none());
}

#[test]
fn init_plans() {
    assert_eq!(plan_init(false, false, false), Ok(InitAction::Nothing));
    assert_eq!(plan_init(true, true, false), Err(InitError::BaseHasExist));
    assert_eq!(plan_init(true, false, true), Err(InitError::PreVersion));
    assert_eq!(plan_init(true, false, false), Ok(InitAction::WriteConfig));
}

#[test]
fn repeated_ignore_entry_repeats_its_gaps() {
    let ws = workspace(vec![member("a", &[]), member("b", &[("a", "workspace:*")]), member("c", &[("a", "workspace:^")])]);
    let mut config = empty_config();
    config.ignore = Some(s(&["a", "c", "a", "zzz"]));
    let r = parse(config, ws);
    assert_eq!(
        r.ignore_gaps,
        vec![("b".to_string(), "a".to_string()), ("b".to_string(), "a".to_string())]
    );
}
