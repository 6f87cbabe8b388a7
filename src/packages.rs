use vstd::prelude::*;
use crate::pkg_json::{same_manifest, ManifestModel, PkgJson};

verus! {

/// The package manager that drives a workspace.
#[derive(Debug, PartialEq, Eq, Clone, Copy)]
pub enum Tool {
    Yarn,
    Bolt,
    Pnpm,
    Lerna,
    Root,
}

/// A manifest and the directory it was found in.
#[derive(Debug, PartialEq, Eq)]
pub struct Package {
    pub package_json: PkgJson,
    pub dir: String,
}

impl View for Package {
    type V = ManifestModel;

    open spec fn view(&self) -> ManifestModel {
        self.package_json@
    }
}

impl Package {
    /// `self` holds the same values as `o`, field by field.
    pub open spec fn same_as(&self, o: Package) -> bool {
        same_manifest(self.package_json, o.package_json) && self.dir@ == o.dir@
    }
}

impl Clone for Package {
    fn clone(&self) -> (r: Self)
        ensures
            r@ == self@,
            r.dir@ == self.dir@,
            r.same_as(*self),
    {
        Package { package_json: self.package_json.clone(), dir: self.dir.clone() }
    }
}

/// A workspace: its root package and its member packages.
#[derive(Debug)]
pub struct Packages {
    pub tool: Tool,
    pub packages: Vec<Package>,
    pub root: Package,
}

impl Packages {
    /// Number of packages in the workspace, the root included.
    pub open spec fn count(&self) -> int {
        self.packages.len() + 1
    }

    /// The package at position `i`: the root first, then the members in order.
    pub open spec fn at(&self, i: int) -> Package {
        if i == 0 {
            self.root
        } else {
            self.packages@[i - 1]
        }
    }

    /// Name of the package at position `i`.
    pub open spec fn name_at(&self, i: int) -> Seq<char> {
        self.at(i).package_json.name@
    }

    /// Position of the last package among the first `n` that is named `name`.
    pub open spec fn last_named_within(&self, name: Seq<char>, n: int) -> Option<int>
        decreases n,
    {
        if n <= 0 {
            None
        } else if self.name_at(n - 1) == name {
            Some(n - 1)
        } else {
            self.last_named_within(name, n - 1)
        }
    }

    /// Position of the package that a dependency on `name` refers to; where
    /// several carry the name, the last one.
    pub open spec fn named(&self, name: Seq<char>) -> Option<int> {
        self.last_named_within(name, self.count())
    }

    /// The current version of the workspace package named `name`, if any.
    pub open spec fn version_of(&self, name: Seq<char>) -> Option<Seq<char>> {
        match self.named(name) {
            Some(i) => Some(self.at(i).package_json.version@),
            None => None,
        }
    }

    pub proof fn lemma_last_named_within(&self, name: Seq<char>, n: int)
        requires
            n <= self.count(),
        ensures
            match self.last_named_within(name, n) {
                Some(i) => 0 <= i < n && self.name_at(i) == name,
                None => forall|j: int| 0 <= j < n ==> self.name_at(j) != name,
            },
        decreases n,
    {
        if n > 0 {
            self.lemma_last_named_within(name, n - 1);
        }
    }

    pub fn len(&self) -> (r: usize)
        requires
            self.count() <= usize::MAX,
        ensures
            r == self.count(),
    {
        self.packages.len() + 1
    }

    pub fn package_at(&self, i: usize) -> (r: &Package)
        requires
            i < self.count(),
        ensures
            *r == self.at(i as int),
    {
        if i == 0 {
            &self.root
        } else {
            &self.packages[i - 1]
        }
    }

    /// Finds the package that a dependency on `name` refers to.
    pub fn find_named(&self, name: &String) -> (r: Option<usize>)
        requires
            self.count() <= usize::MAX,
        ensures
            r matches Some(i) ==> self.named(name@) == Some(i as int) && i < self.count()
                && self.name_at(i as int) == name@,
            r is None ==> self.named(name@) is None,
    {
        proof {
            self.lemma_last_named_within(name@, self.count());
        }
        let mut n: usize = self.len();
        while n > 0
            invariant
                n <= self.count() <= usize::MAX,
                self.named(name@) == self.last_named_within(name@, n as int),
            decreases n,
        {
            if self.package_at(n - 1).package_json.name == *name {
                return Some(n - 1);
            }
            n = n - 1;
        }
        None
    }
}

} // verus!
