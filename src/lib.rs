pub mod config;
pub mod dependency_graph;
pub mod errors;
pub mod packages;
pub mod pkg_json;
pub mod ranges;
pub mod written;
pub mod groups;
