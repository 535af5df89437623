//! The final report: graph statistics, the duplicate table with each
//! version's direct parents, and the display choices it was built for.
use vstd::prelude::*;
use crate::graph::{Deps, DepError};
use crate::grouping::{MultiVerDeps, in_range};
use crate::package::{PackageId, PackageIdView, Version};
use crate::parents::{Attribution, MultiVerParents};

verus! {

/// No node before `i` has node `i`'s name.
pub open spec fn first_of_name(nodes: Seq<PackageIdView>, i: int) -> bool {
    forall|j: int| 0 <= j < i ==> #[trigger] nodes[j].0 != nodes[i].0
}

/// The number of distinct names among the first `m` nodes.
pub open spec fn distinct_names(nodes: Seq<PackageIdView>, m: int) -> nat
    decreases m,
{
    if m <= 0 {
        0
    } else {
        distinct_names(nodes, m - 1) + if first_of_name(nodes, m - 1) {
            1nat
        } else {
            0nat
        }
    }
}

/// Who pulls in one duplicated version, by identity.
#[derive(Debug)]
pub enum Parents {
    /// A workspace member or top-level dependency: nothing depends on it.
    Root,
    /// The packages that depend on it directly, in the analysis order.
    Packages(Vec<PackageId>),
}

/// One version of a duplicated package and its direct parents.
#[derive(Debug)]
pub struct DupVersion {
    pub version: Version,
    pub parents: Parents,
}

/// A duplicated package name and its versions, newest first.
#[derive(Debug)]
pub struct DupGroup {
    pub name: String,
    pub versions: Vec<DupVersion>,
}

/// The outcome of the analysis.
#[derive(Debug)]
pub struct MultiVerDepResults {
    /// The number of packages in the lockfile.
    pub total_packages: usize,
    /// The number of distinct package names in the lockfile.
    pub total_names: usize,
    /// The duplicated names, in ordinal order.
    pub groups: Vec<DupGroup>,
    /// Show the graph statistics even when nothing is duplicated.
    pub show_deps: bool,
    /// Show the duplicate table.
    pub show_dups: bool,
    /// Show each parent's version.
    pub verbose: bool,
}

/// `p` names, by identity, the nodes that `a` names.
pub open spec fn mirrors(nodes: Seq<PackageIdView>, a: &Attribution, p: &Parents) -> bool {
    match (a, p) {
        (Attribution::Root, Parents::Root) => true,
        (Attribution::Parents(ix), Parents::Packages(ids)) => {
            &&& ids@.len() == ix@.len()
            &&& forall|m: int| 0 <= m < ids@.len() ==> #[trigger] ids@[m]@ == nodes[ix@[m] as int]
        },
        _ => false,
    }
}

/// The parent table has the shape of the groups, and every node either
/// names lies in the graph.
pub open spec fn table_consistent(deps: &Deps, parents: &MultiVerParents, mvd: &MultiVerDeps) -> bool {
    &&& parents.attributions@.len() == mvd.groups@.len()
    &&& forall|g: int|
        0 <= g < mvd.groups@.len() ==> (#[trigger] parents.attributions@[g])@.len()
            == mvd.groups@[g].versions@.len() && in_range(mvd.groups@[g].versions@, deps.num_nodes())
    &&& forall|g: int, k: int|
        0 <= g < mvd.groups@.len() && 0 <= k < mvd.groups@[g].versions@.len() ==> (#[trigger] parents.attributions@[g]@[k] matches Attribution::Parents(ix) ==> in_range(ix@, deps.num_nodes()))
}

/// The identities of the nodes `ix`, or `None` when one is not a node.
fn identities(deps: &Deps, ix: &Vec<usize>) -> (r: Option<Vec<PackageId>>)
    ensures
        r is Some <==> in_range(ix@, deps.num_nodes()),
        r matches Some(ids) ==> ids@.len() == ix@.len() && forall|m: int|
            0 <= m < ids@.len() ==> #[trigger] ids@[m]@ == deps.nodes()[ix@[m] as int],
{
    let n = deps.len();
    let mut ids: Vec<PackageId> = Vec::new();
    for m in 0..ix.len()
        invariant
            n == deps.num_nodes(),
            ids@.len() == m,
            forall|m2: int| 0 <= m2 < m ==> #[trigger] ix@[m2] < n,
            forall|m2: int| 0 <= m2 < m ==> #[trigger] ids@[m2]@ == deps.nodes()[ix@[m2] as int],
    {
        let c = ix[m];
        if c >= n {
            proof {
                assert(ix@[m as int] >= n);
            }
            return None;
        }
        ids.push(deps.package(c).cloned());
    }
    Some(ids)
}

impl MultiVerDepResults {
    /// The statistics are those of `deps`, and the table lists `mvd`'s groups
    /// in order, each version with its parents from `parents`, by identity.
    pub open spec fn summarizes(&self, deps: &Deps, parents: &MultiVerParents, mvd: &MultiVerDeps) -> bool {
        &&& self.total_packages == deps.num_nodes()
        &&& self.total_names == distinct_names(deps.nodes(), deps.num_nodes())
        &&& self.groups@.len() == mvd.groups@.len()
        &&& forall|g: int|
            0 <= g < mvd.groups@.len() ==> (#[trigger] self.groups@[g]).name@ == mvd.groups@[g].name@
                && self.groups@[g].versions@.len() == mvd.groups@[g].versions@.len()
        &&& forall|g: int, k: int|
            0 <= g < mvd.groups@.len() && 0 <= k < mvd.groups@[g].versions@.len() ==> {
                let dv = #[trigger] self.groups@[g].versions@[k];
                &&& dv.version@ == deps.nodes()[mvd.groups@[g].versions@[k] as int].1
                &&& mirrors(deps.nodes(), &parents.attributions@[g]@[k], &dv.parents)
            }
    }

    /// Puts the report together. Fails with `InconsistentGraph` exactly when
    /// the parent table does not fit the groups or names a node the graph
    /// lacks.
    pub fn build(
        deps: &Deps,
        parents: &MultiVerParents,
        multi_ver_deps: MultiVerDeps,
        show_deps: bool,
        show_dups: bool,
        verbose: bool,
    ) -> (r: Result<MultiVerDepResults, DepError>)
        ensures
            r is Ok <==> table_consistent(deps, parents, &multi_ver_deps),
            r matches Ok(res) ==> res.summarizes(deps, parents, &multi_ver_deps) && res.show_deps
                == show_deps && res.show_dups == show_dups && res.verbose == verbose,
            r matches Err(e) ==> e is InconsistentGraph,
    {
        let n = deps.len();
        let ghost nodes = deps.nodes();
        if parents.attributions.len() != multi_ver_deps.groups.len() {
            return Err(DepError::InconsistentGraph);
        }
        let mut groups: Vec<DupGroup> = Vec::new();
        for g in 0..multi_ver_deps.groups.len()
            invariant
                n == deps.num_nodes(),
                nodes == deps.nodes(),
                parents.attributions@.len() == multi_ver_deps.groups@.len(),
                groups@.len() == g,
                forall|g2: int|
                    0 <= g2 < g ==> (#[trigger] parents.attributions@[g2])@.len()
                        == multi_ver_deps.groups@[g2].versions@.len(),
                forall|g2: int| 0 <= g2 < g ==> in_range(#[trigger] multi_ver_deps.groups@[g2].versions@, n as int),
                forall|g2: int, k: int|
                    0 <= g2 < g && 0 <= k < multi_ver_deps.groups@[g2].versions@.len() ==> (#[trigger] parents.attributions@[g2]@[k] matches Attribution::Parents(ix) ==> in_range(ix@, n as int)),
                forall|g2: int|
                    0 <= g2 < g ==> (#[trigger] groups@[g2]).name@ == multi_ver_deps.groups@[g2].name@
                        && groups@[g2].versions@.len() == multi_ver_deps.groups@[g2].versions@.len(),
                forall|g2: int, k: int|
                    0 <= g2 < g && 0 <= k < multi_ver_deps.groups@[g2].versions@.len() ==> {
                        let dv = #[trigger] groups@[g2].versions@[k];
                        &&& dv.version@ == nodes[multi_ver_deps.groups@[g2].versions@[k] as int].1
                        &&& mirrors(nodes, &parents.attributions@[g2]@[k], &dv.parents)
                    },
        {
            let group = &multi_ver_deps.groups[g];
            let row = &parents.attributions[g];
            if row.len() != group.versions.len() {
                proof {
                    assert(!table_consistent(deps, parents, &multi_ver_deps)) by {
                        assert(parents.attributions@[g as int]@.len() != multi_ver_deps.groups@[g as int].versions@.len());
                    }
                }
                return Err(DepError::InconsistentGraph);
            }
            let mut versions: Vec<DupVersion> = Vec::new();
            for k in 0..group.versions.len()
                invariant
                    n == deps.num_nodes(),
                    nodes == deps.nodes(),
                    g < multi_ver_deps.groups@.len(),
                    parents.attributions@.len() == multi_ver_deps.groups@.len(),
                    group == multi_ver_deps.groups@[g as int],
                    row == parents.attributions@[g as int],
                    row@.len() == group.versions@.len(),
                    versions@.len() == k,
                    forall|k2: int| 0 <= k2 < k ==> #[trigger] group.versions@[k2] < n,
                    forall|k2: int| 0 <= k2 < k ==> (#[trigger] row@[k2] matches Attribution::Parents(ix) ==> in_range(ix@, n as int)),
                    forall|k2: int|
                        0 <= k2 < k ==> {
                            let dv = #[trigger] versions@[k2];
                            &&& dv.version@ == nodes[group.versions@[k2] as int].1
                            &&& mirrors(nodes, &row@[k2], &dv.parents)
                        },
            {
                let v = group.versions[k];
                if v >= n {
                    proof {
                        assert(group.versions@[k as int] >= n);
                        assert(!in_range(group.versions@, n as int));
                        assert(!table_consistent(deps, parents, &multi_ver_deps)) by {
                            assert(parents.attributions@[g as int]@.len() == multi_ver_deps.groups@[g as int].versions@.len());
                        }
                    }
                    return Err(DepError::InconsistentGraph);
                }
                let p = match &row[k] {
                    Attribution::Root => Parents::Root,
                    Attribution::Parents(ix) => match identities(deps, ix) {
                        Some(ids) => Parents::Packages(ids),
                        None => {
                            proof {
                                assert(!table_consistent(deps, parents, &multi_ver_deps)) by {
                                    assert(parents.attributions@[g as int]@[k as int] == Attribution::Parents(*ix));
                                }
                            }
                            return Err(DepError::InconsistentGraph);
                        },
                    },
                };
                versions.push(DupVersion { version: deps.package(v).version.cloned(), parents: p });
            }
            groups.push(DupGroup { name: group.name.clone(), versions });
        }
        let mut total_names: usize = 0;
        for i in 0..n
            invariant
                n == deps.num_nodes(),
                nodes == deps.nodes(),
                total_names == distinct_names(nodes, i as int),
                total_names <= i,
        {
            let mut first = true;
            for j in 0..i
                invariant
                    n == deps.num_nodes(),
                    nodes == deps.nodes(),
                    i < n,
                    first <==> forall|j2: int| 0 <= j2 < j ==> #[trigger] nodes[j2].0 != nodes[i as int].0,
            {
                if deps.package(j).name == deps.package(i).name {
                    first = false;
                    assert(nodes[j as int].0 == nodes[i as int].0);
                }
            }
            if first {
                total_names = total_names + 1;
            }
        }
        Ok(
            MultiVerDepResults {
                total_packages: n,
                total_names,
                groups,
                show_deps,
                show_dups,
                verbose,
            },
        )
    }

    /// Whether some package name is present at two or more versions.
    pub fn has_dup_deps(&self) -> (r: bool)
        ensures
            r == (self.groups@.len() > 0),
    {
        self.groups.len() > 0
    }
}

/// The process status for an analysis outcome: 0 for a report without
/// duplicates, 1 for a report with duplicates or for a failure.
pub fn exit_status(outcome: &Result<MultiVerDepResults, DepError>) -> (r: i32)
    ensures
        r == (if outcome matches Ok(res) && res.groups@.len() == 0 { 0i32 } else { 1i32 }),
{
    match outcome {
        Ok(res) => if res.has_dup_deps() { 1 } else { 0 },
        Err(_) => 1,
    }
}

} // verus!
