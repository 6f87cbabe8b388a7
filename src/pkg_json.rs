use vstd::prelude::*;

verus! {

/// A dependency map of a manifest: dependency name and declared range, in
/// declaration order. Where a name occurs twice, the later entry counts.
pub type DependencyMap = Vec<(String, String)>;

/// The entries of an optional dependency map as plain sequences.
pub open spec fn entries_of(m: Option<DependencyMap>) -> Seq<(Seq<char>, Seq<char>)> {
    match m {
        Some(v) => v@.map_values(|e: (String, String)| (e.0@, e.1@)),
        None => Seq::empty(),
    }
}

/// An optional dependency map as plain sequences, `None` kept apart.
pub open spec fn opt_entries(m: Option<DependencyMap>) -> Option<Seq<(Seq<char>, Seq<char>)>> {
    match m {
        Some(v) => Some(entries_of(Some(v))),
        None => None,
    }
}

/// An optional list of strings as plain sequences.
pub open spec fn opt_strings(m: Option<Vec<String>>) -> Option<Seq<Seq<char>>> {
    match m {
        Some(v) => Some(v@.map_values(|s: String| s@)),
        None => None,
    }
}

/// How a package may be published.
#[derive(Debug, PartialEq, Eq, Clone, Copy)]
pub enum AccessType {
    Public,
    Restricted,
    Private,
}

#[derive(Debug, PartialEq, Eq)]
pub struct PublishConfig {
    pub access: Option<AccessType>,
    pub directory: Option<String>,
    pub registry: Option<String>,
}

/// The parts of a manifest that dependency analysis reads.
pub ghost struct ManifestModel {
    pub name: Seq<char>,
    pub version: Seq<char>,
    pub dependencies: Seq<(Seq<char>, Seq<char>)>,
    pub dev_dependencies: Seq<(Seq<char>, Seq<char>)>,
    pub peer_dependencies: Seq<(Seq<char>, Seq<char>)>,
    pub optional_dependencies: Seq<(Seq<char>, Seq<char>)>,
}

/// A package manifest (`package.json`).
#[derive(Debug, PartialEq, Eq)]
pub struct PkgJson {
    pub name: String,
    pub version: String,
    pub dependencies: Option<DependencyMap>,
    pub peer_dependencies: Option<DependencyMap>,
    pub dev_dependencies: Option<DependencyMap>,
    pub optional_dependencies: Option<DependencyMap>,
    pub resolutions: Option<DependencyMap>,
    pub private: Option<bool>,
    pub publish_config: Option<PublishConfig>,
    pub workspaces: Option<Vec<String>>,
}

/// `a` holds the same values as `b`, field by field.
pub open spec fn same_manifest(a: PkgJson, b: PkgJson) -> bool {
    &&& a.name@ == b.name@
    &&& a.version@ == b.version@
    &&& opt_entries(a.dependencies) == opt_entries(b.dependencies)
    &&& opt_entries(a.peer_dependencies) == opt_entries(b.peer_dependencies)
    &&& opt_entries(a.dev_dependencies) == opt_entries(b.dev_dependencies)
    &&& opt_entries(a.optional_dependencies) == opt_entries(b.optional_dependencies)
    &&& opt_entries(a.resolutions) == opt_entries(b.resolutions)
    &&& a.private == b.private
    &&& a.publish_config == b.publish_config
    &&& opt_strings(a.workspaces) == opt_strings(b.workspaces)
}

impl View for PkgJson {
    type V = ManifestModel;

    open spec fn view(&self) -> ManifestModel {
        ManifestModel {
            name: self.name@,
            version: self.version@,
            dependencies: entries_of(self.dependencies),
            dev_dependencies: entries_of(self.dev_dependencies),
            peer_dependencies: entries_of(self.peer_dependencies),
            optional_dependencies: entries_of(self.optional_dependencies),
        }
    }
}

fn copy_strings(v: &Vec<String>) -> (r: Vec<String>)
    ensures
        r@ == v@,
{
    let mut r: Vec<String> = Vec::new();
    let mut i: usize = 0;
    while i < v.len()
        invariant
            i <= v.len(),
            r@ == v@.take(i as int),
        decreases v.len() - i,
    {
        r.push(v[i].clone());
        i = i + 1;
        assert(r@ =~= v@.take(i as int));
    }
    assert(v@.take(v.len() as int) =~= v@);
    r
}

fn copy_dependency_map(m: &Option<DependencyMap>) -> (r: Option<DependencyMap>)
    ensures
        entries_of(r) == entries_of(*m),
        r is Some <==> m is Some,
{
    match m {
        None => None,
        Some(v) => {
            let mut r: DependencyMap = Vec::new();
            let mut i: usize = 0;
            while i < v.len()
                invariant
                    i <= v.len(),
                    r@.len() == i,
                    forall|j: int|
                        0 <= j < i ==> #[trigger] r@[j].0@ == v@[j].0@ && r@[j].1@ == v@[j].1@,
                decreases v.len() - i,
            {
                r.push((v[i].0.clone(), v[i].1.clone()));
                i = i + 1;
            }
            assert(entries_of(Some(r)) =~= entries_of(Some(*v)));
            Some(r)
        },
    }
}

fn copy_optional_string(s: &Option<String>) -> (r: Option<String>)
    ensures
        r == *s,
{
    match s {
        Some(s) => Some(s.clone()),
        None => None,
    }
}

impl Clone for PublishConfig {
    fn clone(&self) -> (r: Self)
        ensures
            r == *self,
    {
        PublishConfig {
            access: self.access,
            directory: copy_optional_string(&self.directory),
            registry: copy_optional_string(&self.registry),
        }
    }
}

impl Clone for PkgJson {
    fn clone(&self) -> (r: Self)
        ensures
            r@ == self@,
            same_manifest(r, *self),
    {
        PkgJson {
            name: self.name.clone(),
            version: self.version.clone(),
            dependencies: copy_dependency_map(&self.dependencies),
            peer_dependencies: copy_dependency_map(&self.peer_dependencies),
            dev_dependencies: copy_dependency_map(&self.dev_dependencies),
            optional_dependencies: copy_dependency_map(&self.optional_dependencies),
            resolutions: copy_dependency_map(&self.resolutions),
            private: self.private,
            publish_config: match &self.publish_config {
                Some(c) => Some(c.clone()),
                None => None,
            },
            workspaces: match &self.workspaces {
                Some(w) => Some(copy_strings(w)),
                None => None,
            },
        }
    }
}

impl PkgJson {
    /// A manifest with a name and a version and nothing else.
    pub fn new(name: String, version: String) -> (r: Self)
        ensures
            r.name == name,
            r.version == version,
            r.dependencies is None,
            r.peer_dependencies is None,
            r.dev_dependencies is None,
            r.optional_dependencies is None,
            r.resolutions is None,
            r.private is None,
            r.publish_config is None,
            r.workspaces is None,
    {
        PkgJson {
            name,
            version,
            dependencies: None,
            peer_dependencies: None,
            dev_dependencies: None,
            optional_dependencies: None,
            resolutions: None,
            private: None,
            publish_config: None,
            workspaces: None,
        }
    }
}

} // verus!
