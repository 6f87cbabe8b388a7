use vstd::prelude::*;
use crate::pkg_json::AccessType;

verus! {

#[verifier::external_type_specification]
#[verifier::external_body]
pub struct ExValue(serde_json::Value);

/// A package group: names or glob patterns.
pub type PackageGroup = Vec<String>;

/// One element of a `[name, options]` configuration pair.
#[derive(Debug)]
pub enum ConfigContainerTuple {
    String(String),
    Value(serde_json::Value),
}

/// A setting given as a flag, a module name, or a module name with options.
#[derive(Debug)]
pub enum ConfigContainer {
    Bool(bool),
    Tuple(Vec<ConfigContainerTuple>),
    String(String),
}

#[derive(Debug, PartialEq, Eq, Clone, Copy)]
pub struct PrivatePackages {
    pub version: Option<bool>,
    pub tag: Option<bool>,
}

#[derive(Debug, PartialEq, Eq, Clone, Copy)]
pub enum PrivatePackagesEnum {
    Bool(bool),
    PrivatePackages(PrivatePackages),
}

#[derive(Debug, PartialEq, Eq, Clone, Copy)]
pub enum UpdateInternalDependencies {
    Patch,
    Minor,
}

#[derive(Debug, PartialEq, Eq)]
pub struct Snapshot {
    pub use_calculated_version: Option<bool>,
    pub prerelease_template: Option<String>,
}

#[derive(Debug, PartialEq, Eq, Clone, Copy)]
pub enum UpdateInternalDependents {
    Always,
    OutOfRange,
}

#[derive(Debug, PartialEq, Eq, Clone, Copy)]
pub struct ExperimentalOptions {
    pub only_update_peer_dependents_when_out_of_range: Option<bool>,
    pub update_internal_dependents: Option<UpdateInternalDependents>,
    pub use_calculated_version_for_snapshots: Option<bool>,
}

/// The configuration file as written, every setting optional.
#[derive(Debug)]
pub struct WrittenConfig {
    pub schema: Option<String>,
    pub changelog: Option<ConfigContainer>,
    pub commit: Option<ConfigContainer>,
    pub fixed: Option<Vec<PackageGroup>>,
    pub linked: Option<Vec<PackageGroup>>,
    pub access: Option<AccessType>,
    pub base_branch: Option<String>,
    pub changed_file_patterns: Option<PackageGroup>,
    pub private_packages: Option<PrivatePackagesEnum>,
    pub update_internal_dependencies: Option<UpdateInternalDependencies>,
    pub ignore: Option<Vec<String>>,
    pub bump_version_with_workspace_protocol_only: Option<bool>,
    pub snapshot: Option<Snapshot>,
    pub experimental_unsafe_options_will_change_in_path: Option<ExperimentalOptions>,
}

impl Default for WrittenConfig {
    fn default() -> (r: Self)
        ensures
            r.schema matches Some(s) && s@ == "https://unpkg.com/@changesets/config@latest/schema.json"@,
            r.changelog matches Some(ConfigContainer::String(s)) && s@ == "@changesets/cli/changelog"@,
            r.commit matches Some(ConfigContainer::Bool(false)),
            r.fixed matches Some(f) && f@.len() == 0,
            r.linked matches Some(l) && l@.len() == 0,
            r.access == Some(AccessType::Restricted),
            r.base_branch matches Some(b) && b@ == "master"@,
            r.changed_file_patterns is None,
            r.private_packages is None,
            r.update_internal_dependencies == Some(UpdateInternalDependencies::Patch),
            r.ignore matches Some(i) && i@.len() == 0,
            r.bump_version_with_workspace_protocol_only is None,
            r.snapshot is None,
            r.experimental_unsafe_options_will_change_in_path is None,
    {
        WrittenConfig {
            schema: Some(String::from_str("https://unpkg.com/@changesets/config@latest/schema.json")),
            changelog: Some(ConfigContainer::String(String::from_str("@changesets/cli/changelog"))),
            commit: Some(ConfigContainer::Bool(false)),
            fixed: Some(Vec::new()),
            linked: Some(Vec::new()),
            access: Some(AccessType::Restricted),
            base_branch: Some(String::from_str("master")),
            changed_file_patterns: None,
            private_packages: None,
            update_internal_dependencies: Some(UpdateInternalDependencies::Patch),
            ignore: Some(Vec::new()),
            bump_version_with_workspace_protocol_only: None,
            snapshot: None,
            experimental_unsafe_options_will_change_in_path: None,
        }
    }
}

} // verus!
