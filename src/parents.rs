//! The direct parents of each node of a duplicate group.
use vstd::prelude::*;
use crate::graph::{Deps, DepError};
use crate::grouping::{MultiVerDeps, in_range, sort_by_id, sorted_by_id};

verus! {

broadcast use {vstd::seq_lib::group_seq_properties, vstd::seq_lib::group_to_multiset_ensures};

/// Who pulls in one version of a duplicated package.
#[derive(Debug)]
pub enum Attribution {
    /// Nothing in the graph depends on it: a workspace member or a top-level
    /// dependency.
    Root,
    /// The nodes that depend on it directly, in the analysis order; never empty.
    Parents(Vec<usize>),
}

/// `a` says who depends directly on node `v` of `deps`.
pub open spec fn attributes(deps: &Deps, v: int, a: &Attribution) -> bool {
    match a {
        Attribution::Root => forall|i: int| 0 <= i < deps.num_nodes() ==> !#[trigger] deps.depends_on(i, v),
        Attribution::Parents(p) => {
            &&& p@.len() > 0
            &&& p@.no_duplicates()
            &&& in_range(p@, deps.num_nodes())
            &&& sorted_by_id(deps.nodes(), p@)
            &&& forall|i: int| 0 <= i < deps.num_nodes() ==> (p@.contains(i as usize) <==> #[trigger] deps.depends_on(i, v))
        },
    }
}

/// Every node that a group of `mvd` lists is a node of `deps`.
pub open spec fn groups_in_graph(deps: &Deps, mvd: &MultiVerDeps) -> bool {
    forall|g: int| 0 <= g < mvd.groups@.len() ==> in_range(#[trigger] mvd.groups@[g].versions@, deps.num_nodes())
}

/// The parents of every version of every duplicate group.
#[derive(Debug)]
pub struct MultiVerParents {
    /// `attributions[g][k]` is for node `k` of group `g`.
    pub attributions: Vec<Vec<Attribution>>,
}

impl MultiVerParents {
    /// The table has the shape of `mvd`'s groups, and each entry attributes
    /// the node at the same place.
    pub open spec fn resolved_from(&self, deps: &Deps, mvd: &MultiVerDeps) -> bool {
        &&& self.attributions@.len() == mvd.groups@.len()
        &&& forall|g: int|
            0 <= g < mvd.groups@.len() ==> (#[trigger] self.attributions@[g])@.len()
                == mvd.groups@[g].versions@.len()
        &&& forall|g: int, k: int|
            0 <= g < mvd.groups@.len() && 0 <= k < mvd.groups@[g].versions@.len() ==> attributes(
                deps,
                mvd.groups@[g].versions@[k] as int,
                &#[trigger] self.attributions@[g]@[k],
            )
    }

    /// Looks up the direct parents of each node of each group. Fails with
    /// `InconsistentGraph` exactly when a group names a node the graph lacks.
    pub fn from_deps(deps: &Deps, mvd: &MultiVerDeps) -> (r: Result<MultiVerParents, DepError>)
        ensures
            r is Ok <==> groups_in_graph(deps, mvd),
            r matches Ok(p) ==> p.resolved_from(deps, mvd),
            r matches Err(e) ==> e is InconsistentGraph,
    {
        let n = deps.len();
        let mut attributions: Vec<Vec<Attribution>> = Vec::new();
        for g in 0..mvd.groups.len()
            invariant
                n == deps.num_nodes(),
                deps.well_formed(),
                attributions@.len() == g,
                forall|g2: int| 0 <= g2 < g ==> in_range(#[trigger] mvd.groups@[g2].versions@, n as int),
                forall|g2: int|
                    0 <= g2 < g ==> (#[trigger] attributions@[g2])@.len() == mvd.groups@[g2].versions@.len(),
                forall|g2: int, k: int|
                    0 <= g2 < g && 0 <= k < mvd.groups@[g2].versions@.len() ==> attributes(
                        deps,
                        mvd.groups@[g2].versions@[k] as int,
                        &#[trigger] attributions@[g2]@[k],
                    ),
        {
            let versions = &mvd.groups[g].versions;
            let mut row: Vec<Attribution> = Vec::new();
            for k in 0..versions.len()
                invariant
                    n == deps.num_nodes(),
                    deps.well_formed(),
                    g < mvd.groups@.len(),
                    versions == mvd.groups@[g as int].versions,
                    row@.len() == k,
                    forall|k2: int| 0 <= k2 < k ==> #[trigger] versions@[k2] < n,
                    forall|k2: int| 0 <= k2 < k ==> attributes(deps, versions@[k2] as int, &#[trigger] row@[k2]),
            {
                let v = versions[k];
                if v >= n {
                    proof {
                        assert(mvd.groups@[g as int].versions@[k as int] >= n);
                        assert(!in_range(mvd.groups@[g as int].versions@, n as int));
                        assert(groups_in_graph(deps, mvd) ==> in_range(mvd.groups@[g as int].versions@, deps.num_nodes()));
                    }
                    return Err(DepError::InconsistentGraph);
                }
                let direct = deps.parents(v);
                let a = if direct.len() == 0 {
                    proof {
                        assert forall|i: int| 0 <= i < n implies !#[trigger] deps.depends_on(i, v as int) by {
                            if deps.depends_on(i, v as int) {
                                assert(deps.reverse()[v as int].contains(i as usize));
                            }
                        }
                    }
                    Attribution::Root
                } else {
                    let sorted = sort_by_id(deps, direct);
                    proof {
                        assert forall|i: int| 0 <= i < n implies (sorted@.contains(i as usize)
                            <==> #[trigger] deps.depends_on(i, v as int)) by {
                            assert(sorted@.to_multiset().count(i as usize) == direct@.to_multiset().count(i as usize));
                        }
                    }
                    Attribution::Parents(sorted)
                };
                row.push(a);
            }
            attributions.push(row);
        }
        Ok(MultiVerParents { attributions })
    }
}

} // verus!
