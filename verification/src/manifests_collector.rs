//! Workspace membership: decides which discovered manifests belong to the
//! workspace, and assembles the dependency graph from the ones that do.
//!
//! Pattern expansion and path canonicalization read the filesystem, so they
//! happen outside this library; their outcome arrives here as plain path
//! strings.  `PathResolution` carries the resolved member and exclude paths,
//! and the caller supplies each finding's canonical location, falling back to
//! the location as discovered where canonicalization failed.  The decision
//! itself is pure: with no workspace section every finding passes through
//! unfiltered; otherwise a finding is kept exactly when its canonical
//! location is a resolved member and not excluded.

use crate::graph::{Graph, GraphModel};
use crate::graph_creation::{get_graph_from_manifests, graph_of_manifests};
use vstd::prelude::*;

use crate::circle_detector::vec_contains_name;
use crate::types::{CargoRootManifestFinding, ManifestFinding, ManifestFindings};

verus! {

/// The member and exclude paths after pattern expansion and
/// canonicalization.
#[derive(Debug)]
pub struct PathResolution {
    pub member_paths: Vec<String>,
    pub exclude_paths: Vec<String>,
}

/// Whether the finding with canonical location `canon` is kept by the
/// resolved member and exclude paths.
pub open spec fn kept_by_workspace(
    members: Seq<Seq<char>>,
    excludes: Seq<Seq<char>>,
    canon: Seq<char>,
) -> bool {
    members.contains(canon) && !excludes.contains(canon)
}

/// The indices of the findings that the filter keeps, in order.
pub open spec fn kept_findings(
    findings: Seq<ManifestFinding>,
    canonical: Seq<Seq<char>>,
    members: Seq<Seq<char>>,
    excludes: Seq<Seq<char>>,
) -> Seq<ManifestFinding>
    decreases findings.len(),
{
    if findings.len() == 0 {
        Seq::empty()
    } else {
        let rest = kept_findings(
            findings.drop_first(),
            canonical.drop_first(),
            members,
            excludes,
        );
        if kept_by_workspace(members, excludes, canonical[0]) {
            seq![findings[0]] + rest
        } else {
            rest
        }
    }
}

impl Graph {
    /// Builds the workspace's dependency graph from the root manifest, the
    /// discovered manifests, their canonical locations and the resolved
    /// member and exclude paths.
    pub fn new_from_manifests(nested: &ManifestFindings) -> (r: Graph)
        ensures
            r@ == graph_of_manifests(nested@, Seq::<(Seq<char>, Seq<Seq<char>>)>::empty()),
            r.wf(),
    {
        get_graph_from_manifests(nested)
    }
}

/// Filters the findings by workspace membership.  With no workspace section
/// in the root manifest every finding passes through unchanged; otherwise a
/// finding is kept exactly when its canonical location is among the resolved
/// member paths and not among the resolved exclude paths.
pub fn filter_findings_by_workspace(
    root_manifest_finding: &CargoRootManifestFinding,
    findings: ManifestFindings,
    canonical: &Vec<String>,
    resolution: &PathResolution,
) -> (r: ManifestFindings)
    requires
        canonical@.len() == findings@.len(),
    ensures
        root_manifest_finding.manifest.workspace is None ==> r@ == findings@,
        root_manifest_finding.manifest.workspace is Some ==> r@ == kept_findings(
            findings@,
            canonical.deep_view(),
            resolution.member_paths.deep_view(),
            resolution.exclude_paths.deep_view(),
        ),
{
    let ghost fv = findings@;
    let ghost cv = canonical.deep_view();
    let ghost mv = resolution.member_paths.deep_view();
    let ghost ev = resolution.exclude_paths.deep_view();
    match &root_manifest_finding.manifest.workspace {
        Some(_) => {
            let mut kept: Vec<ManifestFinding> = Vec::new();
            let mut i: usize = 0;
            let n = findings.len();
            let mut rest = findings;
            proof {
                assert(fv.skip(0) =~= fv);
                assert(cv.skip(0) =~= cv);
                assert(kept@ + kept_findings(fv, cv, mv, ev) =~= kept_findings(fv, cv, mv, ev));
            }
            // consume the findings front to back, keeping the members
            while i < n
                invariant
                    n == fv.len(),
                    cv.len() == fv.len(),
                    i <= n,
                    rest@ == fv.skip(i as int),
                    cv == canonical.deep_view(),
                    mv == resolution.member_paths.deep_view(),
                    ev == resolution.exclude_paths.deep_view(),
                    kept@ + kept_findings(fv.skip(i as int), cv.skip(i as int), mv, ev)
                        == kept_findings(fv, cv, mv, ev),
                decreases n - i,
            {
                let ghost fsuf = fv.skip(i as int);
                let ghost csuf = cv.skip(i as int);
                proof {
                    assert(fsuf[0] == fv[i as int]);
                    assert(csuf[0] == cv[i as int]);
                    assert(fsuf.drop_first() =~= fv.skip(i + 1));
                    assert(csuf.drop_first() =~= cv.skip(i + 1));
                }
                let finding = rest.remove(0);
                let canon = &canonical[i];
                let keep_it = vec_contains_name(&resolution.member_paths, canon)
                    && !vec_contains_name(&resolution.exclude_paths, canon);
                proof {
                    assert(keep_it == kept_by_workspace(mv, ev, cv[i as int]));
                }
                if keep_it {
                    let ghost k0 = kept@;
                    kept.push(finding);
                    proof {
                        assert(kept@ =~= k0.push(fv[i as int]));
                        assert(kept@ + kept_findings(fv.skip(i + 1), cv.skip(i + 1), mv, ev)
                            =~= k0 + kept_findings(fsuf, csuf, mv, ev));
                    }
                } else {
                    proof {
                        assert(kept_findings(fsuf, csuf, mv, ev) == kept_findings(
                            fv.skip(i + 1),
                            cv.skip(i + 1),
                            mv,
                            ev,
                        ));
                    }
                }
                i = i + 1;
            }
            proof {
                assert(fv.skip(n as int) =~= Seq::<ManifestFinding>::empty());
                assert(cv.skip(n as int) =~= Seq::<Seq<char>>::empty());
                assert(kept@ + kept_findings(fv.skip(n as int), cv.skip(n as int), mv, ev)
                    =~= kept@);
            }
            kept
        },
        None => {
            // no workspace defined, return all findings
            findings
        },
    }
}

/// Assembles the dependency graph of the workspace: filters the discovered
/// manifests by membership, then builds the graph from the kept ones.
pub fn get_dependency_graph(
    root_finding: &CargoRootManifestFinding,
    findings: ManifestFindings,
    canonical: &Vec<String>,
    resolution: &PathResolution,
) -> (r: Graph)
    requires
        canonical@.len() == findings@.len(),
    ensures
        r.wf(),
        root_finding.manifest.workspace is None ==> r@ == graph_of_manifests(
            findings@,
            Seq::<(Seq<char>, Seq<Seq<char>>)>::empty(),
        ),
        root_finding.manifest.workspace is Some ==> r@ == graph_of_manifests(
            kept_findings(
                findings@,
                canonical.deep_view(),
                resolution.member_paths.deep_view(),
                resolution.exclude_paths.deep_view(),
            ),
            Seq::<(Seq<char>, Seq<Seq<char>>)>::empty(),
        ),
{
    let filtered = filter_findings_by_workspace(root_finding, findings, canonical, resolution);
    get_graph_from_manifests(&filtered)
}

} // verus!
