//! The data model of the manifests the analysis consumes: package names,
//! dependency declarations, and the root and nested manifest shapes.
//!
//! Dependency tables are held as ordered lists of named entries; the stored
//! order is the declaration order, and names are assumed unique per table by
//! construction of the manifest source.

use vstd::prelude::*;

verus! {

/// Both the root and the nested manifest must have a `name` attribute.
#[derive(Debug, Clone)]
pub struct Package {
    pub name: String,
}

impl Default for Package {
    fn default() -> (d: Package)
        ensures
            d.name@ == Seq::<char>::empty(),
    {
        Package { name: String::new() }
    }
}

/// What a dependency entry carries beside its name.  Only the name matters
/// to the analysis; version and path payloads are carried through untouched.
#[derive(Debug, Clone)]
pub enum DependencyInfo {
    Simple(String),
    Detailed { path: Option<String>, workspace: Option<bool> },
}

/// The older name of a dependency entry's payload.
pub type Dependency = DependencyInfo;

/// Named dependency entries in declaration order.
pub type Dependencies = Vec<(String, DependencyInfo)>;

/// The names of the entries of a dependency table, in stored order.
pub open spec fn dependency_names(deps: Seq<(String, DependencyInfo)>) -> Seq<Seq<char>> {
    deps.map_values(|p: (String, DependencyInfo)| p.0@)
}


/// Collects the entry names of an optional dependency table, in stored order.
pub fn dependency_name_list(deps: &Option<Dependencies>) -> (r: Vec<String>)
    ensures
        r.deep_view() == (match *deps {
            Some(d) => dependency_names(d@),
            None => Seq::<Seq<char>>::empty(),
        }),
{
    let mut names: Vec<String> = Vec::new();
    match deps {
        Some(d) => {
            let m = d.len();
            proof {
                assert(names.deep_view() =~~= dependency_names(d@.take(0)));
            }
            for j in 0..m
                invariant
                    m == d@.len(),
                    d@ == deps.unwrap()@,
                    names.deep_view() == dependency_names(d@.take(j as int)),
            {
                let x = d[j].0.clone();
                let ghost xv = x@;
                let ghost before = names.deep_view();
                names.push(x);
                proof {
                    assert(xv == d@[j as int].0@);
                    assert(names.deep_view() =~~= before.push(xv));
                    assert(d@.take(j + 1) =~= d@.take(j as int).push(d@[j as int]));
                    assert forall|t: int| 0 <= t < j + 1 implies dependency_names(
                        d@.take(j + 1),
                    )[t] == names.deep_view()[t] by {
                        if t < j {
                            assert(dependency_names(d@.take(j as int))[t] == d@.take(
                                j as int,
                            )[t].0@);
                        }
                    }
                    assert(names.deep_view() =~~= dependency_names(d@.take(j + 1)));
                }
            }
            proof {
                assert(d@.take(m as int) =~= d@);
            }
        },
        None => {
            proof {
                assert(names.deep_view() =~~= Seq::<Seq<char>>::empty());
            }
        },
    }
    names
}

/// The Cargo.toml file aka. the manifest from a package.
#[derive(Debug)]
pub struct Manifest {
    pub package: Package,
    pub dependencies: Option<Dependencies>,
}

/// The declared dependency names of a manifest; none declared reads as none.
pub open spec fn manifest_dep_names(m: Manifest) -> Seq<Seq<char>> {
    match m.dependencies {
        Some(d) => dependency_names(d@),
        None => Seq::empty(),
    }
}

/// A discovered manifest together with the location it was found at.
#[derive(Debug)]
pub struct ManifestFinding {
    pub path: String,
    pub manifest: Manifest,
}

pub type ManifestFindings = Vec<ManifestFinding>;

/// The workspace section of the root manifest.
#[derive(Debug)]
pub struct Workspace {
    pub members: Option<Vec<String>>,
    pub exclude: Option<Vec<String>>,
    pub default_members: Option<Vec<String>>,
}

/// The "virtual" manifest at the workspace root.
#[derive(Debug)]
pub struct CargoRootManifest {
    pub package: Option<Package>,
    pub workspace: Option<Workspace>,
    pub dependencies: Option<Dependencies>,
    pub dev_dependencies: Option<Dependencies>,
    pub build_dependencies: Option<Dependencies>,
}

impl Default for CargoRootManifest {
    fn default() -> (d: CargoRootManifest)
        ensures
            d.package is None,
            d.workspace is None,
            d.dependencies is None,
            d.dev_dependencies is None,
            d.build_dependencies is None,
    {
        CargoRootManifest {
            package: None,
            workspace: None,
            dependencies: None,
            dev_dependencies: None,
            build_dependencies: None,
        }
    }
}

/// The root manifest together with the directory it was read from.
#[derive(Debug)]
pub struct CargoRootManifestFinding {
    pub path: String,
    pub manifest: CargoRootManifest,
}

} // verus!
