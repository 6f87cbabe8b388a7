use vstd::prelude::*;
use crate::pkg_json::AccessType;
use crate::written::PackageGroup;

verus! {

/// A setting given as a flag or as a module name with its options.
#[derive(Debug, PartialEq, Eq)]
pub enum ConfigContainer {
    Bool(bool),
    Tuple(String, String),
}

#[derive(Debug, PartialEq, Eq, Clone, Copy)]
pub struct PrivatePackages {
    pub version: bool,
    pub tag: bool,
}

#[derive(Debug, PartialEq, Eq, Clone, Copy)]
pub enum UpdateInternalDependencies {
    Patch,
    Minor,
}

#[derive(Debug, PartialEq, Eq)]
pub struct Snapshot {
    pub use_calculated_version: bool,
    pub prerelease_template: Option<String>,
}

#[derive(Debug, PartialEq, Eq, Clone, Copy)]
pub enum UpdateInternalDependents {
    Always,
    OutOfRange,
}

#[derive(Debug, PartialEq, Eq, Clone, Copy)]
pub struct ExperimentalOptions {
    pub only_update_peer_dependents_when_out_of_range: bool,
    pub update_internal_dependents: UpdateInternalDependents,
    pub use_calculated_version_for_snapshots: bool,
}

/// The configuration with every setting resolved.
#[derive(Debug, PartialEq, Eq)]
pub struct WrittenConfig {
    pub changelog: ConfigContainer,
    pub commit: ConfigContainer,
    pub fixed: Vec<PackageGroup>,
    pub linked: Vec<PackageGroup>,
    pub access: AccessType,
    pub base_branch: String,
    pub changed_file_patterns: PackageGroup,
    pub private_packages: PrivatePackages,
    pub update_internal_dependencies: UpdateInternalDependencies,
    pub ignore: Vec<String>,
    pub bump_version_with_workspace_protocol_only: Option<bool>,
    pub experimental_unsafe_options_will_change_in_path: ExperimentalOptions,
    pub snapshot: Snapshot,
}

} // verus!
