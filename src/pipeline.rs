//! The whole analysis, from a lockfile's records to the report.
use vstd::prelude::*;
use crate::graph::{DepError, Deps, all_references_resolve};
use crate::grouping::MultiVerDeps;
use crate::package::PackageRecord;
use crate::parents::{MultiVerParents, groups_in_graph};
use crate::report::{MultiVerDepResults, table_consistent};

verus! {

/// `deps`, `mvd`, `parents` and `report` are what the four stages produce,
/// in turn, from the lockfile's `records`.
pub open spec fn analyzed(
    records: Seq<PackageRecord>,
    deps: &Deps,
    mvd: &MultiVerDeps,
    parents: &MultiVerParents,
    report: &MultiVerDepResults,
) -> bool {
    &&& deps.built_from(records)
    &&& deps.well_formed()
    &&& mvd.groups_of(deps.nodes())
    &&& parents.resolved_from(deps, mvd)
    &&& report.summarizes(deps, parents, mvd)
}

/// Runs the analysis over a lockfile's records. It fails only when a
/// dependency reference names no record.
pub fn process_lock_file(
    records: &Vec<PackageRecord>,
    show_deps: bool,
    show_dups: bool,
    verbose: bool,
) -> (r: Result<MultiVerDepResults, DepError>)
    ensures
        r is Ok <==> all_references_resolve(records@),
        r matches Ok(report) ==> (exists|d: Deps, m: MultiVerDeps, p: MultiVerParents|
            #[trigger] analyzed(records@, &d, &m, &p, &report)) && report.show_deps == show_deps
            && report.show_dups == show_dups && report.verbose == verbose,
        r matches Err(e) ==> e is UnresolvedReference,
{
    let deps = match Deps::from_lock_file(records) {
        Ok(d) => d,
        Err(e) => return Err(e),
    };
    // Asking for the size also yields the graph's well-formedness.
    let _node_count: usize = deps.len();
    let multi_ver_deps = MultiVerDeps::from_deps(&deps);
    proof {
        assert(groups_in_graph(&deps, &multi_ver_deps));
    }
    let parents = match MultiVerParents::from_deps(&deps, &multi_ver_deps) {
        Ok(p) => p,
        Err(e) => return Err(e),
    };
    let ghost mvd = multi_ver_deps;
    proof {
        assert(table_consistent(&deps, &parents, &mvd));
    }
    let report = match MultiVerDepResults::build(&deps, &parents, multi_ver_deps, show_deps, show_dups, verbose) {
        Ok(res) => res,
        Err(e) => return Err(e),
    };
    proof {
        assert(analyzed(records@, &deps, &mvd, &parents, &report));
    }
    Ok(report)
}

} // verus!
