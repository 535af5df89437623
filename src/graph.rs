//! The dependency graph: one node per lockfile record, forward edges to each
//! direct dependency, and the reverse (parent) index built alongside them.
use vstd::prelude::*;
use crate::package::{PackageId, PackageIdView, PackageRecord, same_id};

verus! {

broadcast use vstd::seq_lib::group_seq_properties;

/// Why the analysis could not be carried out.
#[derive(Debug)]
pub enum DepError {
    /// `package` depends on `missing`, which no record of the lockfile provides.
    UnresolvedReference { package: PackageId, missing: PackageId },
    /// A duplicate group or a parent table names a node the graph lacks.
    InconsistentGraph,
}

/// Whether some record of `records` has the identity `d`.
pub open spec fn provided(records: Seq<PackageRecord>, d: PackageIdView) -> bool {
    exists|j: int| 0 <= j < records.len() && #[trigger] records[j].id@ == d
}

/// Every dependency reference of every record names a record of the lockfile.
pub open spec fn all_references_resolve(records: Seq<PackageRecord>) -> bool {
    forall|i: int, k: int|
        0 <= i < records.len() && 0 <= k < records[i].deps@.len() ==> provided(
            records,
            #[trigger] records[i].deps@[k]@,
        )
}

/// The dependency graph of a lockfile.
#[derive(Debug)]
pub struct Deps {
    packages: Vec<PackageId>,
    edges: Vec<Vec<usize>>,
    parents: Vec<Vec<usize>>,
}

impl Deps {
    /// The identity of each node; node `i` is the lockfile's record `i`.
    pub closed spec fn nodes(&self) -> Seq<PackageIdView> {
        self.packages@.map_values(|p: PackageId| p@)
    }

    /// For each node, the nodes it depends on, in the record's order.
    pub closed spec fn forward(&self) -> Seq<Seq<usize>> {
        self.edges@.map_values(|v: Vec<usize>| v@)
    }

    /// For each node, the nodes that depend on it directly.
    pub closed spec fn reverse(&self) -> Seq<Seq<usize>> {
        self.parents@.map_values(|v: Vec<usize>| v@)
    }

    pub open spec fn num_nodes(&self) -> int {
        self.nodes().len() as int
    }

    /// Node `p` depends directly on node `c`.
    pub open spec fn depends_on(&self, p: int, c: int) -> bool {
        self.forward()[p].contains(c as usize)
    }

    /// Every edge ends at a node, and the reverse index holds exactly the
    /// reversed edges, each once.
    pub open spec fn well_formed(&self) -> bool {
        &&& self.forward().len() == self.num_nodes()
        &&& self.reverse().len() == self.num_nodes()
        &&& forall|i: int, k: int|
            0 <= i < self.num_nodes() && 0 <= k < self.forward()[i].len() ==> #[trigger] self.forward()[i][k]
                < self.num_nodes()
        &&& forall|j: int, k: int|
            0 <= j < self.num_nodes() && 0 <= k < self.reverse()[j].len() ==> #[trigger] self.reverse()[j][k]
                < self.num_nodes()
        &&& forall|j: int| 0 <= j < self.num_nodes() ==> (#[trigger] self.reverse()[j]).no_duplicates()
        &&& forall|i: int, j: int|
            0 <= i < self.num_nodes() && 0 <= j < self.num_nodes() ==> (#[trigger] self.reverse()[j].contains(
                i as usize,
            ) <==> self.depends_on(i, j))
    }

    #[verifier::type_invariant]
    spec fn inv(&self) -> bool {
        self.well_formed()
    }

    /// The number of nodes; the graph is well formed.
    pub fn len(&self) -> (r: usize)
        ensures
            r == self.num_nodes(),
            self.well_formed(),
    {
        proof {
            use_type_invariant(self);
        }
        self.packages.len()
    }

    /// The identity of node `i`.
    pub fn package(&self, i: usize) -> (r: &PackageId)
        requires
            i < self.num_nodes(),
        ensures
            r@ == self.nodes()[i as int],
    {
        &self.packages[i]
    }

    /// The nodes that node `i` depends on directly.
    pub fn dependencies(&self, i: usize) -> (r: &Vec<usize>)
        requires
            i < self.num_nodes(),
        ensures
            r@ == self.forward()[i as int],
    {
        proof {
            use_type_invariant(self);
        }
        &self.edges[i]
    }

    /// The nodes that depend directly on node `j`.
    pub fn parents(&self, j: usize) -> (r: &Vec<usize>)
        requires
            j < self.num_nodes(),
        ensures
            r@ == self.reverse()[j as int],
    {
        proof {
            use_type_invariant(self);
        }
        &self.parents[j]
    }

    /// The graph has one node per record, with the record's identity, and one
    /// forward edge per dependency reference, to the node that it names.
    pub open spec fn built_from(&self, records: Seq<PackageRecord>) -> bool {
        &&& self.num_nodes() == records.len()
        &&& forall|i: int| 0 <= i < records.len() ==> #[trigger] self.nodes()[i] == records[i].id@
        &&& forall|i: int|
            0 <= i < records.len() ==> (#[trigger] self.forward()[i]).len() == records[i].deps@.len()
        &&& forall|i: int, k: int|
            0 <= i < records.len() && 0 <= k < records[i].deps@.len() ==> self.nodes()[#[trigger] self.forward()[i][k] as int]
                == records[i].deps@[k]@
    }

    /// Builds the graph of a lockfile's records. Fails with
    /// `UnresolvedReference` exactly when some dependency reference names no
    /// record; no reference is ever dropped.
    pub fn from_lock_file(records: &Vec<PackageRecord>) -> (r: Result<Deps, DepError>)
        ensures
            r is Ok <==> all_references_resolve(records@),
            r matches Ok(d) ==> d.built_from(records@),
            r matches Err(e) ==> (e matches DepError::UnresolvedReference { package, missing }
                && exists|i: int, k: int|
                0 <= i < records@.len() && 0 <= k < records@[i].deps@.len() && records@[i].id@
                    == package@ && #[trigger] records@[i].deps@[k]@ == missing@ && !provided(
                    records@,
                    missing@,
                )),
    {
        let n = records.len();
        let mut packages: Vec<PackageId> = Vec::new();
        let mut parents: Vec<Vec<usize>> = Vec::new();
        for i in 0..n
            invariant
                n == records@.len(),
                packages@.len() == i,
                parents@.len() == i,
                forall|j: int| 0 <= j < i ==> #[trigger] packages@[j]@ == records@[j].id@,
                forall|j: int| 0 <= j < i ==> (#[trigger] parents@[j])@.len() == 0,
        {
            packages.push(records[i].id.cloned());
            parents.push(Vec::new());
        }
        let mut edges: Vec<Vec<usize>> = Vec::new();
        for i in 0..n
            invariant
                n == records@.len(),
                packages@.len() == n,
                parents@.len() == n,
                edges@.len() == i,
                forall|j: int| 0 <= j < n ==> #[trigger] packages@[j]@ == records@[j].id@,
                forall|p: int, k: int|
                    0 <= p < i && 0 <= k < records@[p].deps@.len() ==> provided(
                        records@,
                        #[trigger] records@[p].deps@[k]@,
                    ),
                forall|p: int| 0 <= p < i ==> (#[trigger] edges@[p])@.len() == records@[p].deps@.len(),
                forall|p: int, k: int|
                    0 <= p < i && 0 <= k < edges@[p]@.len() ==> #[trigger] edges@[p]@[k] < n
                        && packages@[edges@[p]@[k] as int]@ == records@[p].deps@[k]@,
                forall|j: int, a: int|
                    0 <= j < n && 0 <= a < parents@[j]@.len() ==> #[trigger] parents@[j]@[a] < i,
                forall|j: int, a: int, b: int|
                    0 <= j < n && 0 <= a < b < parents@[j]@.len() ==> #[trigger] parents@[j]@[a]
                        < #[trigger] parents@[j]@[b],
                forall|j: int, p: int|
                    0 <= j < n && 0 <= p < i ==> (#[trigger] parents@[j]@.contains(p as usize)
                        <==> edges@[p]@.contains(j as usize)),
        {
            let deps = &records[i].deps;
            let mut fwd: Vec<usize> = Vec::new();
            for k in 0..deps.len()
                invariant
                    n == records@.len(),
                    i < n,
                    deps == records@[i as int].deps,
                    packages@.len() == n,
                    parents@.len() == n,
                    edges@.len() == i,
                    fwd@.len() == k,
                    forall|j: int| 0 <= j < n ==> #[trigger] packages@[j]@ == records@[j].id@,
                    forall|p: int, k: int|
                        0 <= p < i && 0 <= k < records@[p].deps@.len() ==> provided(
                            records@,
                            #[trigger] records@[p].deps@[k]@,
                        ),
                    forall|p: int| 0 <= p < i ==> (#[trigger] edges@[p])@.len() == records@[p].deps@.len(),
                    forall|p: int, k: int|
                        0 <= p < i && 0 <= k < edges@[p]@.len() ==> #[trigger] edges@[p]@[k] < n
                            && packages@[edges@[p]@[k] as int]@ == records@[p].deps@[k]@,
                    forall|a: int| 0 <= a < k ==> #[trigger] fwd@[a] < n
                        && packages@[fwd@[a] as int]@ == deps@[a]@,
                    forall|a: int| 0 <= a < k ==> provided(records@, #[trigger] deps@[a]@),
                    forall|j: int, a: int|
                        0 <= j < n && 0 <= a < parents@[j]@.len() ==> #[trigger] parents@[j]@[a] <= i,
                    forall|j: int, a: int, b: int|
                        0 <= j < n && 0 <= a < b < parents@[j]@.len() ==> #[trigger] parents@[j]@[a]
                            < #[trigger] parents@[j]@[b],
                    forall|j: int, p: int|
                        0 <= j < n && 0 <= p < i ==> (#[trigger] parents@[j]@.contains(p as usize)
                            <==> edges@[p]@.contains(j as usize)),
                    forall|j: int|
                        0 <= j < n ==> (#[trigger] parents@[j]@.contains(i) <==> fwd@.contains(
                            j as usize,
                        )),
            {
                let mut found: Option<usize> = None;
                let mut j: usize = 0;
                while j < n
                    invariant
                        n == records@.len(),
                        packages@.len() == n,
                        j <= n,
                        k < deps@.len(),
                        found matches Some(f) ==> f < n && packages@[f as int]@ == deps@[k as int]@,
                        found is None ==> forall|q: int| 0 <= q < j ==> packages@[q]@ != deps@[k as int]@,
                    decreases n - j,
                {
                    if found.is_none() && same_id(&packages[j], &deps[k]) {
                        found = Some(j);
                    }
                    j = j + 1;
                }
                match found {
                    None => {
                        proof {
                            assert forall|q: int| !(0 <= q < records@.len() && #[trigger] records@[q].id@
                                == deps@[k as int]@) by {
                                if 0 <= q < n {
                                    assert(packages@[q]@ == records@[q].id@);
                                }
                            }
                        }
                        return Err(
                            DepError::UnresolvedReference {
                                package: records[i].id.cloned(),
                                missing: deps[k].cloned(),
                            },
                        );
                    },
                    Some(j) => {
                        proof {
                            assert(records@[j as int].id@ == deps@[k as int]@);
                        }
                        fwd.push(j);
                        let plen = parents[j].len();
                        if plen == 0 || parents[j][plen - 1] != i {
                            parents[j].push(i);
                        } else {
                            assert(parents@[j as int]@[plen - 1] == i);
                        }
                    },
                }
            }
            edges.push(fwd);
        }
        let d = Deps { packages, edges, parents };
        Ok(d)
    }
}

} // verus!
