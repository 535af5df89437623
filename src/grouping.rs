//! The analysis order applied to node lists, and the grouping of nodes by
//! name into the names present at two or more versions.
use vstd::prelude::*;
use crate::graph::Deps;
use crate::package::{
    PackageIdView,
    id_before,
    text_lt,
    comes_before,
    same_version,
    lemma_id_before_irreflexive,
    lemma_id_before_transitive,
};

verus! {

broadcast use {vstd::seq_lib::group_seq_properties, vstd::seq_lib::group_to_multiset_ensures};

/// `s` lists nodes of `nodes` in the analysis order: no later entry comes
/// before an earlier one.
pub open spec fn sorted_by_id(nodes: Seq<PackageIdView>, s: Seq<usize>) -> bool {
    forall|a: int, b: int|
        0 <= a < b < s.len() ==> !id_before(#[trigger] nodes[s[b] as int], #[trigger] nodes[s[a] as int])
}

/// Every entry of `s` is a node of a graph with `n` nodes.
pub open spec fn in_range(s: Seq<usize>, n: int) -> bool {
    forall|k: int| 0 <= k < s.len() ==> #[trigger] s[k] < n
}

/// The nodes of `s`, put in the analysis order.
pub fn sort_by_id(deps: &Deps, s: &Vec<usize>) -> (r: Vec<usize>)
    requires
        in_range(s@, deps.num_nodes()),
        s@.no_duplicates(),
    ensures
        r@.to_multiset() == s@.to_multiset(),
        r@.len() == s@.len(),
        r@.no_duplicates(),
        in_range(r@, deps.num_nodes()),
        sorted_by_id(deps.nodes(), r@),
{
    let n = deps.len();
    let mut r: Vec<usize> = Vec::new();
    for i in 0..s.len()
        invariant
            n == deps.num_nodes(),
            in_range(s@, n as int),
            s@.no_duplicates(),
            r@.len() == i,
            r@.to_multiset() == s@.subrange(0, i as int).to_multiset(),
            r@.no_duplicates(),
            in_range(r@, n as int),
            sorted_by_id(deps.nodes(), r@),
    {
        let x = s[i];
        let mut pos: usize = 0;
        while pos < r.len() && !comes_before(deps.package(x), deps.package(r[pos]))
            invariant
                n == deps.num_nodes(),
                x < n,
                pos <= r@.len(),
                in_range(r@, n as int),
                forall|a: int| 0 <= a < pos ==> !id_before(deps.nodes()[x as int], #[trigger] deps.nodes()[r@[a] as int]),
            decreases r@.len() - pos,
        {
            pos = pos + 1;
        }
        let ghost old_r = r@;
        proof {
            assert(s@.subrange(0, i + 1) =~= s@.subrange(0, i as int).push(x));
            if old_r.contains(x) {
                assert(s@.subrange(0, i as int).to_multiset().count(x) > 0);
                assert(s@.subrange(0, i as int).contains(x));
            }
        }
        r.insert(pos, x);
        proof {
            let nodes = deps.nodes();
            assert(r@ =~= old_r.insert(pos as int, x));
            assert forall|a: int, b: int| 0 <= a < b < r@.len() implies !id_before(
                #[trigger] nodes[r@[b] as int],
                #[trigger] nodes[r@[a] as int],
            ) by {
                if b == pos {
                    if id_before(nodes[x as int], nodes[r@[a] as int]) {
                        assert(r@[a] == old_r[a]);
                    }
                } else if a == pos {
                    let ob = b - 1;
                    assert(r@[b] == old_r[ob]);
                    if id_before(nodes[old_r[ob] as int], nodes[x as int]) {
                        assert(id_before(nodes[x as int], nodes[old_r[pos as int] as int]));
                        lemma_id_before_transitive(
                            nodes[old_r[ob] as int],
                            nodes[x as int],
                            nodes[old_r[pos as int] as int],
                        );
                        if ob == pos {
                            lemma_id_before_irreflexive(nodes[x as int]);
                        }
                    }
                } else {
                    let oa = if a < pos { a } else { a - 1 };
                    let ob = if b < pos { b } else { b - 1 };
                    assert(r@[a] == old_r[oa]);
                    assert(r@[b] == old_r[ob]);
                }
            }
        }
    }
    proof {
        assert(s@.subrange(0, s@.len() as int) =~= s@);
    }
    r
}

/// Some two nodes named `name` have different versions.
pub open spec fn multi_version(nodes: Seq<PackageIdView>, name: Seq<char>) -> bool {
    exists|i: int, j: int|
        0 <= i < nodes.len() && 0 <= j < nodes.len() && #[trigger] nodes[i].0 == name
            && #[trigger] nodes[j].0 == name && nodes[i].1 != nodes[j].1
}

/// A package name present at two or more versions, with its nodes.
#[derive(Debug)]
pub struct NameGroup {
    pub name: String,
    /// The nodes named `name`, newest version first.
    pub versions: Vec<usize>,
}

/// `g` holds exactly the nodes named `g.name`, in the analysis order, and that
/// name is present at two or more versions.
pub open spec fn is_group_of(nodes: Seq<PackageIdView>, g: NameGroup) -> bool {
    &&& in_range(g.versions@, nodes.len() as int)
    &&& g.versions@.no_duplicates()
    &&& sorted_by_id(nodes, g.versions@)
    &&& forall|k: int| 0 <= k < g.versions@.len() ==> #[trigger] nodes[g.versions@[k] as int].0 == g.name@
    &&& forall|j: int| 0 <= j < nodes.len() && #[trigger] nodes[j].0 == g.name@ ==> g.versions@.contains(j as usize)
    &&& multi_version(nodes, g.name@)
}

/// The names of a graph that are present at two or more versions.
#[derive(Debug)]
pub struct MultiVerDeps {
    /// One group per such name, in ordinal order of names.
    pub groups: Vec<NameGroup>,
}

impl MultiVerDeps {
    /// One group for each name of `nodes` present at two or more versions,
    /// and none for any other name, ordered by name.
    pub open spec fn groups_of(&self, nodes: Seq<PackageIdView>) -> bool {
        &&& forall|g: int| 0 <= g < self.groups@.len() ==> is_group_of(nodes, #[trigger] self.groups@[g])
        &&& forall|g1: int, g2: int|
            0 <= g1 < g2 < self.groups@.len() ==> !text_lt(#[trigger] self.groups@[g2].name@, #[trigger] self.groups@[g1].name@)
                && self.groups@[g1].name@ != self.groups@[g2].name@
        &&& forall|j: int|
            0 <= j < nodes.len() && multi_version(nodes, #[trigger] nodes[j].0) ==> exists|g: int|
                0 <= g < self.groups@.len() && #[trigger] self.groups@[g].name@ == nodes[j].0
    }

    /// Groups the nodes of `deps` by name and keeps the names present at two
    /// or more versions.
    pub fn from_deps(deps: &Deps) -> (r: MultiVerDeps)
        ensures
            r.groups_of(deps.nodes()),
    {
        let n = deps.len();
        let ghost nodes = deps.nodes();
        let mut all: Vec<usize> = Vec::new();
        for i in 0..n
            invariant
                all@.len() == i,
                forall|k: int| 0 <= k < i ==> #[trigger] all@[k] == k,
        {
            all.push(i);
        }
        let order = sort_by_id(deps, &all);
        proof {
            assert forall|j: int| 0 <= j < n implies #[trigger] order@.contains(j as usize) by {
                assert(all@[j] == j);
                assert(all@.contains(j as usize));
                assert(all@.to_multiset().count(j as usize) > 0);
            }
        }
        let mut groups: Vec<NameGroup> = Vec::new();
        let ghost mut gpos: Seq<int> = Seq::empty();
        for p in 0..n
            invariant
                n == nodes.len(),
                nodes == deps.nodes(),
                order@.len() == n,
                in_range(order@, n as int),
                order@.no_duplicates(),
                sorted_by_id(nodes, order@),
                forall|j: int| 0 <= j < n ==> #[trigger] order@.contains(j as usize),
                groups@.len() == gpos.len(),
                forall|g: int| 0 <= g < gpos.len() ==> 0 <= #[trigger] gpos[g] < p,
                forall|g1: int, g2: int| 0 <= g1 < g2 < gpos.len() ==> #[trigger] gpos[g1] < #[trigger] gpos[g2],
                forall|g: int| 0 <= g < gpos.len() ==> #[trigger] groups@[g].name@ == nodes[order@[gpos[g]] as int].0,
                forall|g: int| 0 <= g < gpos.len() ==> is_group_of(nodes, #[trigger] groups@[g]),
                forall|g: int, q: int| 0 <= g < gpos.len() && 0 <= q < gpos[g] ==> #[trigger] nodes[order@[q] as int].0 != #[trigger] groups@[g].name@,
                forall|q: int| 0 <= q < p && multi_version(nodes, #[trigger] nodes[order@[q] as int].0) ==> exists|g: int|
                    0 <= g < groups@.len() && #[trigger] groups@[g].name@ == nodes[order@[q] as int].0,
        {
            let i = order[p];
            let name = &deps.package(i).name;
            let ghost groups_before = groups@;
            let mut first = true;
            let ghost mut earlier: int = 0;
            for q in 0..p
                invariant
                    n == nodes.len(),
                    nodes == deps.nodes(),
                    p < n,
                    order@.len() == n,
                    in_range(order@, n as int),
                    name@ == nodes[i as int].0,
                    first ==> forall|q2: int| 0 <= q2 < q ==> #[trigger] nodes[order@[q2] as int].0 != name@,
                    !first ==> 0 <= earlier < p && nodes[order@[earlier] as int].0 == name@,
            {
                if first && deps.package(order[q]).name == *name {
                    first = false;
                    proof {
                        earlier = q as int;
                    }
                }
            }
            if first {
                let mut versions: Vec<usize> = Vec::new();
                let mut multi = false;
                let ghost mut vpos: Seq<int> = Seq::empty();
                for q in 0..n
                    invariant
                        n == nodes.len(),
                        nodes == deps.nodes(),
                        order@.len() == n,
                        in_range(order@, n as int),
                        i < n,
                        name@ == nodes[i as int].0,
                        versions@.len() == vpos.len(),
                        forall|k: int| 0 <= k < vpos.len() ==> 0 <= #[trigger] vpos[k] < q,
                        forall|k1: int, k2: int| 0 <= k1 < k2 < vpos.len() ==> #[trigger] vpos[k1] < #[trigger] vpos[k2],
                        forall|k: int| 0 <= k < vpos.len() ==> #[trigger] versions@[k] == order@[vpos[k]],
                        forall|k: int| 0 <= k < versions@.len() ==> #[trigger] nodes[versions@[k] as int].0 == name@,
                        forall|q2: int| 0 <= q2 < q && #[trigger] nodes[order@[q2] as int].0 == name@ ==> versions@.contains(order@[q2]),
                        multi <==> exists|k: int| 0 <= k < versions@.len() && #[trigger] nodes[versions@[k] as int].1 != nodes[i as int].1,
                {
                    let c = order[q];
                    let pc = deps.package(c);
                    if pc.name == *name {
                        let ghost old_v = versions@;
                        let ghost old_multi = multi;
                        if !same_version(&pc.version, &deps.package(i).version) {
                            multi = true;
                        }
                        versions.push(c);
                        proof {
                            vpos = vpos.push(q as int);
                            assert(versions@[old_v.len() as int] == c);
                            assert forall|k: int| 0 <= k < versions@.len() && #[trigger] nodes[versions@[k] as int].1 != nodes[i as int].1
                                implies multi by {
                                if k < old_v.len() {
                                    assert(old_v[k] == versions@[k]);
                                }
                            }
                            if old_multi {
                                let k = choose|k: int| 0 <= k < old_v.len() && #[trigger] nodes[old_v[k] as int].1 != nodes[i as int].1;
                                assert(versions@[k] == old_v[k]);
                                assert(nodes[versions@[k] as int].1 != nodes[i as int].1);
                            } else if multi {
                                assert(nodes[versions@[old_v.len() as int] as int].1 != nodes[i as int].1);
                            }
                        }
                    }
                }
                proof {
                    assert(sorted_by_id(nodes, versions@)) by {
                        assert forall|a: int, b: int| 0 <= a < b < versions@.len() implies !id_before(
                            #[trigger] nodes[versions@[b] as int],
                            #[trigger] nodes[versions@[a] as int],
                        ) by {
                            assert(vpos[a] < vpos[b]);
                        }
                    }
                    assert(versions@.no_duplicates()) by {
                        assert forall|a: int, b: int| 0 <= a < b < versions@.len() implies versions@[a] != versions@[b] by {
                            assert(vpos[a] < vpos[b]);
                        }
                    }
                    assert forall|j: int| 0 <= j < n && #[trigger] nodes[j].0 == name@ implies versions@.contains(j as usize) by {
                        assert(order@.contains(j as usize));
                        let q2 = choose|q2: int| 0 <= q2 < order@.len() && order@[q2] == j as usize;
                        assert(nodes[order@[q2] as int].0 == name@);
                    }
                    if multi_version(nodes, name@) {
                        let (a, b) = choose|a: int, b: int|
                            0 <= a < nodes.len() && 0 <= b < nodes.len() && #[trigger] nodes[a].0 == name@
                                && #[trigger] nodes[b].0 == name@ && nodes[a].1 != nodes[b].1;
                        assert(versions@.contains(a as usize));
                        assert(versions@.contains(b as usize));
                        let ka = choose|ka: int| 0 <= ka < versions@.len() && versions@[ka] == a as usize;
                        let kb = choose|kb: int| 0 <= kb < versions@.len() && versions@[kb] == b as usize;
                        if nodes[a].1 == nodes[i as int].1 {
                            assert(nodes[versions@[kb] as int].1 != nodes[i as int].1);
                        } else {
                            assert(nodes[versions@[ka] as int].1 != nodes[i as int].1);
                        }
                    }
                    if multi {
                        let k = choose|k: int| 0 <= k < versions@.len() && #[trigger] nodes[versions@[k] as int].1 != nodes[i as int].1;
                        assert(nodes[versions@[k] as int].0 == name@);
                        assert(multi_version(nodes, name@));
                    }
                }
                if multi {
                    let group = NameGroup { name: name.clone(), versions };
                    let ghost old_groups = groups@;
                    groups.push(group);
                    proof {
                        gpos = gpos.push(p as int);
                        assert(groups@[old_groups.len() as int].name@ == nodes[order@[p as int] as int].0);
                        assert forall|g: int| 0 <= g < gpos.len() implies is_group_of(nodes, #[trigger] groups@[g]) by {
                            if g < old_groups.len() {
                                assert(groups@[g] == old_groups[g]);
                            }
                        }
                    }
                }
            }
            proof {
                assert forall|q: int| 0 <= q < p + 1 && multi_version(nodes, #[trigger] nodes[order@[q] as int].0) implies exists|g: int|
                    0 <= g < groups@.len() && #[trigger] groups@[g].name@ == nodes[order@[q] as int].0 by {
                    let target = nodes[order@[q] as int].0;
                    let q0 = if q == p && !first { earlier } else { q };
                    if q0 < p {
                        let g = choose|g: int| 0 <= g < groups_before.len() && #[trigger] groups_before[g].name@ == nodes[order@[q0] as int].0;
                        assert(groups@[g] == groups_before[g]);
                    } else {
                        assert(groups@[groups@.len() - 1].name@ == target);
                    }
                }
            }
        }
        let r = MultiVerDeps { groups };
        proof {
            assert forall|g1: int, g2: int| 0 <= g1 < g2 < r.groups@.len() implies !text_lt(#[trigger] r.groups@[g2].name@, #[trigger] r.groups@[g1].name@)
                && r.groups@[g1].name@ != r.groups@[g2].name@ by {
                assert(gpos[g1] < gpos[g2]);
                assert(!id_before(nodes[order@[gpos[g2]] as int], nodes[order@[gpos[g1]] as int]));
            }
            assert forall|j: int| 0 <= j < nodes.len() && multi_version(nodes, #[trigger] nodes[j].0) implies exists|g: int|
                0 <= g < r.groups@.len() && #[trigger] r.groups@[g].name@ == nodes[j].0 by {
                assert(order@.contains(j as usize));
                let q = choose|q: int| 0 <= q < order@.len() && order@[q] == j as usize;
                assert(nodes[order@[q] as int].0 == nodes[j].0);
                assert(multi_version(nodes, nodes[order@[q] as int].0));
                let g = choose|g: int| 0 <= g < groups@.len() && #[trigger] groups@[g].name@ == nodes[order@[q] as int].0;
                assert(r.groups@[g].name@ == nodes[j].0);
            }
        }
        r
    }
}

} // verus!
