//! Properties of the analysis as a whole, stated over what each stage promises.
use vstd::prelude::*;
use crate::graph::Deps;
use crate::grouping::{MultiVerDeps, NameGroup, multi_version, is_group_of, sorted_by_id, in_range};
use crate::package::{
    PackageId,
    PackageIdView,
    PackageRecord,
    id_before,
    text_lt,
    lemma_id_before_irreflexive,
    lemma_id_before_total,
    lemma_id_before_transitive,
    lemma_text_lt_asymmetric,
    lemma_text_lt_irreflexive,
    lemma_text_lt_total,
};
use crate::parents::{MultiVerParents, attributes, Attribution};
use crate::pipeline::analyzed;
use crate::report::{MultiVerDepResults, Parents, mirrors};

verus! {

broadcast use vstd::seq_lib::group_seq_properties;

/// Some two records of the lockfile have the same name and different versions.
pub open spec fn lockfile_has_duplicates(records: Seq<PackageRecord>) -> bool {
    exists|i: int, j: int|
        0 <= i < records.len() && 0 <= j < records.len() && #[trigger] records[i].id@.0
            == #[trigger] records[j].id@.0 && records[i].id@.1 != records[j].id@.1
}

/// The report flags duplicates exactly when the lockfile holds a name at two
/// or more versions, and every such name has its row in the duplicate table.
pub proof fn lemma_duplicates_flagged(
    records: Seq<PackageRecord>,
    deps: &Deps,
    mvd: &MultiVerDeps,
    parents: &MultiVerParents,
    report: &MultiVerDepResults,
)
    requires
        analyzed(records, deps, mvd, parents, report),
    ensures
        (report.groups@.len() > 0) <==> lockfile_has_duplicates(records),
        forall|i: int, j: int|
            0 <= i < records.len() && 0 <= j < records.len() && #[trigger] records[i].id@.0
                == #[trigger] records[j].id@.0 && records[i].id@.1 != records[j].id@.1
                ==> exists|g: int| 0 <= g < report.groups@.len() && #[trigger] report.groups@[g].name@ == records[i].id@.0,
{
    let nodes = deps.nodes();
    assert forall|i: int, j: int|
        0 <= i < records.len() && 0 <= j < records.len() && #[trigger] records[i].id@.0
            == #[trigger] records[j].id@.0 && records[i].id@.1 != records[j].id@.1
        implies exists|g: int| 0 <= g < report.groups@.len() && #[trigger] report.groups@[g].name@ == records[i].id@.0 by {
        assert(nodes[i] == records[i].id@);
        assert(nodes[j] == records[j].id@);
        assert(multi_version(nodes, nodes[i].0));
        let g = choose|g: int| 0 <= g < mvd.groups@.len() && #[trigger] mvd.groups@[g].name@ == nodes[i].0;
        assert(report.groups@[g].name@ == mvd.groups@[g].name@);
    }
    if report.groups@.len() > 0 {
        assert(is_group_of(nodes, mvd.groups@[0]));
        let name = mvd.groups@[0].name@;
        let (a, b) = choose|a: int, b: int|
            0 <= a < nodes.len() && 0 <= b < nodes.len() && #[trigger] nodes[a].0 == name
                && #[trigger] nodes[b].0 == name && nodes[a].1 != nodes[b].1;
        assert(nodes[a] == records[a].id@);
        assert(nodes[b] == records[b].id@);
        assert(records[a].id@.0 == records[b].id@.0);
    }
    if lockfile_has_duplicates(records) {
        let (i, j) = choose|i: int, j: int|
            0 <= i < records.len() && 0 <= j < records.len() && #[trigger] records[i].id@.0
                == #[trigger] records[j].id@.0 && records[i].id@.1 != records[j].id@.1;
        assert(records[i].id@.0 == records[j].id@.0);
    }
}

/// No version in the duplicate table is left without an attribution: either
/// nothing depends on it and it is attributed to the root, or it lists at
/// least one direct parent.
pub proof fn lemma_attribution_never_empty(
    records: Seq<PackageRecord>,
    deps: &Deps,
    mvd: &MultiVerDeps,
    parents: &MultiVerParents,
    report: &MultiVerDepResults,
)
    requires
        analyzed(records, deps, mvd, parents, report),
    ensures
        forall|g: int, k: int|
            0 <= g < report.groups@.len() && 0 <= k < report.groups@[g].versions@.len() ==> match #[trigger] report.groups@[g].versions@[k].parents {
                Parents::Root => forall|i: int| 0 <= i < deps.num_nodes() ==> !#[trigger] deps.depends_on(i, mvd.groups@[g].versions@[k] as int),
                Parents::Packages(ids) => ids@.len() > 0,
            },
{
    assert forall|g: int, k: int|
        0 <= g < report.groups@.len() && 0 <= k < report.groups@[g].versions@.len() implies match #[trigger] report.groups@[g].versions@[k].parents {
            Parents::Root => forall|i: int| 0 <= i < deps.num_nodes() ==> !#[trigger] deps.depends_on(i, mvd.groups@[g].versions@[k] as int),
            Parents::Packages(ids) => ids@.len() > 0,
        } by {
        let a = parents.attributions@[g]@[k];
        assert(attributes(deps, mvd.groups@[g].versions@[k] as int, &a));
        assert(mirrors(deps.nodes(), &a, &report.groups@[g].versions@[k].parents));
    }
}

/// Two sequences that are strictly increasing under the same strict order and
/// hold the same elements are equal.
proof fn lemma_sorted_unique<A>(s: Seq<A>, t: Seq<A>, lt: spec_fn(A, A) -> bool)
    requires
        forall|x: A| !#[trigger] lt(x, x),
        forall|x: A, y: A| #[trigger] lt(x, y) ==> !lt(y, x),
        forall|a: int, b: int| 0 <= a < b < s.len() ==> lt(#[trigger] s[a], #[trigger] s[b]),
        forall|a: int, b: int| 0 <= a < b < t.len() ==> lt(#[trigger] t[a], #[trigger] t[b]),
        forall|x: A| s.contains(x) <==> t.contains(x),
    ensures
        s == t,
    decreases s.len(),
{
    if s.len() == 0 {
        if t.len() > 0 {
            assert(t.contains(t[0]));
        }
        assert(s =~= t);
    } else {
        assert(s.contains(s[0]));
        if t.len() == 0 {
            assert(false);
        }
        assert(t.contains(t[0]));
        let i = choose|i: int| 0 <= i < s.len() && s[i] == t[0];
        let j = choose|j: int| 0 <= j < t.len() && t[j] == s[0];
        if i > 0 && j > 0 {
            assert(lt(s[0], s[i]));
            assert(lt(t[0], t[j]));
        } else if i > 0 {
            assert(lt(s[0], s[i]));
        } else if j > 0 {
            assert(lt(t[0], t[j]));
        }
        assert(s[0] == t[0]);
        let s1 = s.drop_first();
        let t1 = t.drop_first();
        assert forall|x: A| s1.contains(x) <==> t1.contains(x) by {
            if s1.contains(x) {
                let a = choose|a: int| 0 <= a < s1.len() && s1[a] == x;
                assert(s[a + 1] == x);
                assert(lt(s[0], s[a + 1]));
                assert(s.contains(x));
                let b = choose|b: int| 0 <= b < t.len() && t[b] == x;
                if b == 0 {
                    assert(false);
                }
                assert(t1[b - 1] == x);
            }
            if t1.contains(x) {
                let a = choose|a: int| 0 <= a < t1.len() && t1[a] == x;
                assert(t[a + 1] == x);
                assert(lt(t[0], t[a + 1]));
                assert(t.contains(x));
                let b = choose|b: int| 0 <= b < s.len() && s[b] == x;
                if b == 0 {
                    assert(false);
                }
                assert(s1[b - 1] == x);
            }
        }
        assert forall|a: int, b: int| 0 <= a < b < s1.len() implies lt(#[trigger] s1[a], #[trigger] s1[b]) by {
            assert(s1[a] == s[a + 1] && s1[b] == s[b + 1]);
        }
        assert forall|a: int, b: int| 0 <= a < b < t1.len() implies lt(#[trigger] t1[a], #[trigger] t1[b]) by {
            assert(t1[a] == t[a + 1] && t1[b] == t[b + 1]);
        }
        lemma_sorted_unique(s1, t1, lt);
        assert(s =~= seq![s[0]] + s1);
        assert(t =~= seq![t[0]] + t1);
    }
}

/// No two records of the lockfile share a name and version.
pub open spec fn ids_unique(records: Seq<PackageRecord>) -> bool {
    forall|i: int, j: int|
        0 <= i < records.len() && 0 <= j < records.len() && i != j ==> #[trigger] records[i].id@ != #[trigger] records[j].id@
}

/// The order on nodes that the analysis lists them in.
pub open spec fn node_order(nodes: Seq<PackageIdView>) -> spec_fn(usize, usize) -> bool {
    |x: usize, y: usize| id_before(nodes[x as int], nodes[y as int])
}

proof fn lemma_node_order_strict(nodes: Seq<PackageIdView>)
    ensures
        forall|x: usize| !#[trigger] node_order(nodes)(x, x),
        forall|x: usize, y: usize| #[trigger] node_order(nodes)(x, y) ==> !node_order(nodes)(y, x),
{
    assert forall|x: usize| !#[trigger] node_order(nodes)(x, x) by {
        lemma_id_before_irreflexive(nodes[x as int]);
    }
    assert forall|x: usize, y: usize| #[trigger] node_order(nodes)(x, y) implies !node_order(nodes)(y, x) by {
        if node_order(nodes)(y, x) {
            lemma_id_before_transitive(nodes[x as int], nodes[y as int], nodes[x as int]);
            lemma_id_before_irreflexive(nodes[x as int]);
        }
    }
}

proof fn lemma_sorted_strictly(nodes: Seq<PackageIdView>, s: Seq<usize>)
    requires
        sorted_by_id(nodes, s),
        s.no_duplicates(),
        in_range(s, nodes.len() as int),
        forall|i: int, j: int| 0 <= i < nodes.len() && 0 <= j < nodes.len() && i != j ==> #[trigger] nodes[i] != #[trigger] nodes[j],
    ensures
        forall|a: int, b: int| 0 <= a < b < s.len() ==> node_order(nodes)(#[trigger] s[a], #[trigger] s[b]),
{
    assert forall|a: int, b: int| 0 <= a < b < s.len() implies node_order(nodes)(#[trigger] s[a], #[trigger] s[b]) by {
        assert(s[a] != s[b]);
        assert(nodes[s[a] as int] != nodes[s[b] as int]);
        lemma_id_before_total(nodes[s[a] as int], nodes[s[b] as int]);
    }
}

/// The identities of a list of packages.
pub open spec fn id_views(s: Seq<PackageId>) -> Seq<PackageIdView> {
    s.map_values(|x: PackageId| x@)
}

/// `p` and `q` attribute to the root, or list the same identities.
pub open spec fn same_parents(p: &Parents, q: &Parents) -> bool {
    match (p, q) {
        (Parents::Root, Parents::Root) => true,
        (Parents::Packages(a), Parents::Packages(b)) => id_views(a@) == id_views(b@),
        _ => false,
    }
}

/// Two reports hold the same statistics and the same table, entry by entry.
pub open spec fn same_report(r1: &MultiVerDepResults, r2: &MultiVerDepResults) -> bool {
    &&& r1.total_packages == r2.total_packages
    &&& r1.total_names == r2.total_names
    &&& r1.groups@.len() == r2.groups@.len()
    &&& forall|g: int|
        0 <= g < r1.groups@.len() ==> (#[trigger] r1.groups@[g]).name@ == r2.groups@[g].name@
            && r1.groups@[g].versions@.len() == r2.groups@[g].versions@.len()
    &&& forall|g: int, k: int|
        0 <= g < r1.groups@.len() && 0 <= k < r1.groups@[g].versions@.len() ==> {
            let (v1, v2) = (#[trigger] r1.groups@[g].versions@[k], r2.groups@[g].versions@[k]);
            v1.version@ == v2.version@ && same_parents(&v1.parents, &v2.parents)
        }
}

/// Analysing the same lockfile twice gives the same report: every order in it
/// is fixed by the lockfile alone.
pub proof fn lemma_analysis_repeatable(
    records: Seq<PackageRecord>,
    deps1: &Deps,
    mvd1: &MultiVerDeps,
    parents1: &MultiVerParents,
    report1: &MultiVerDepResults,
    deps2: &Deps,
    mvd2: &MultiVerDeps,
    parents2: &MultiVerParents,
    report2: &MultiVerDepResults,
)
    requires
        ids_unique(records),
        analyzed(records, deps1, mvd1, parents1, report1),
        analyzed(records, deps2, mvd2, parents2, report2),
    ensures
        same_report(report1, report2),
{
    let nodes = deps1.nodes();
    let n = nodes.len() as int;
    assert(deps2.nodes() =~= nodes) by {
        assert forall|i: int| 0 <= i < n implies deps2.nodes()[i] == nodes[i] by {
            assert(nodes[i] == records[i].id@);
        }
    }
    assert forall|i: int, j: int| 0 <= i < n && 0 <= j < n && i != j implies #[trigger] nodes[i] != #[trigger] nodes[j] by {
        assert(nodes[i] == records[i].id@);
        assert(nodes[j] == records[j].id@);
    }
    assert forall|i: int| 0 <= i < n implies #[trigger] deps1.forward()[i] == deps2.forward()[i] by {
        let f1 = deps1.forward()[i];
        let f2 = deps2.forward()[i];
        assert forall|k: int| 0 <= k < f1.len() implies f1[k] == f2[k] by {
            assert(f1[k] < n && f2[k] < n);
            assert(nodes[f1[k] as int] == records[i].deps@[k]@);
            assert(deps2.nodes()[f2[k] as int] == records[i].deps@[k]@);
        }
        assert(f1 =~= f2);
    }
    assert forall|p: int, c: int| 0 <= p < n implies (#[trigger] deps1.depends_on(p, c) <==> deps2.depends_on(p, c)) by {
        assert(deps1.forward()[p] == deps2.forward()[p]);
    }
    // The duplicated names, in order.
    let names1 = mvd1.groups@.map_values(|g: NameGroup| g.name@);
    let names2 = mvd2.groups@.map_values(|g: NameGroup| g.name@);
    assert forall|x: Seq<char>| names1.contains(x) implies names2.contains(x) by {
        let g = choose|g: int| 0 <= g < names1.len() && names1[g] == x;
        assert(is_group_of(nodes, mvd1.groups@[g]));
        let (a, b) = choose|a: int, b: int|
            0 <= a < nodes.len() && 0 <= b < nodes.len() && #[trigger] nodes[a].0 == x
                && #[trigger] nodes[b].0 == x && nodes[a].1 != nodes[b].1;
        assert(multi_version(nodes, nodes[a].0));
        let g2 = choose|g2: int| 0 <= g2 < mvd2.groups@.len() && #[trigger] mvd2.groups@[g2].name@ == nodes[a].0;
        assert(names2[g2] == x);
    }
    assert forall|x: Seq<char>| names2.contains(x) implies names1.contains(x) by {
        let g = choose|g: int| 0 <= g < names2.len() && names2[g] == x;
        assert(is_group_of(nodes, mvd2.groups@[g]));
        let (a, b) = choose|a: int, b: int|
            0 <= a < nodes.len() && 0 <= b < nodes.len() && #[trigger] nodes[a].0 == x
                && #[trigger] nodes[b].0 == x && nodes[a].1 != nodes[b].1;
        assert(multi_version(nodes, nodes[a].0));
        let g1 = choose|g1: int| 0 <= g1 < mvd1.groups@.len() && #[trigger] mvd1.groups@[g1].name@ == nodes[a].0;
        assert(names1[g1] == x);
    }
    let name_order = |x: Seq<char>, y: Seq<char>| text_lt(x, y);
    assert forall|x: Seq<char>| !#[trigger] name_order(x, x) by {
        lemma_text_lt_irreflexive(x);
    }
    assert forall|x: Seq<char>, y: Seq<char>| #[trigger] name_order(x, y) implies !name_order(y, x) by {
        lemma_text_lt_asymmetric(x, y);
    }
    assert forall|a: int, b: int| 0 <= a < b < names1.len() implies name_order(#[trigger] names1[a], #[trigger] names1[b]) by {
        assert(mvd1.groups@[a].name@ != mvd1.groups@[b].name@);
        lemma_text_lt_total(names1[a], names1[b]);
    }
    assert forall|a: int, b: int| 0 <= a < b < names2.len() implies name_order(#[trigger] names2[a], #[trigger] names2[b]) by {
        assert(mvd2.groups@[a].name@ != mvd2.groups@[b].name@);
        lemma_text_lt_total(names2[a], names2[b]);
    }
    lemma_sorted_unique(names1, names2, name_order);
    // Each group's versions, and each version's parents.
    lemma_node_order_strict(nodes);
    let order = node_order(nodes);
    assert forall|g: int| 0 <= g < mvd1.groups@.len() implies #[trigger] mvd1.groups@[g].versions@ == mvd2.groups@[g].versions@ by {
        let s = mvd1.groups@[g].versions@;
        let t = mvd2.groups@[g].versions@;
        assert(names1[g] == names2[g]);
        assert(is_group_of(nodes, mvd1.groups@[g]));
        assert(is_group_of(nodes, mvd2.groups@[g]));
        lemma_sorted_strictly(nodes, s);
        lemma_sorted_strictly(nodes, t);
        assert forall|x: usize| s.contains(x) <==> t.contains(x) by {
            if s.contains(x) {
                let k = choose|k: int| 0 <= k < s.len() && s[k] == x;
                assert(nodes[s[k] as int].0 == mvd1.groups@[g].name@);
            }
            if t.contains(x) {
                let k = choose|k: int| 0 <= k < t.len() && t[k] == x;
                assert(nodes[t[k] as int].0 == mvd2.groups@[g].name@);
            }
        }
        lemma_sorted_unique(s, t, order);
    }
    assert forall|g: int, k: int|
        0 <= g < report1.groups@.len() && 0 <= k < report1.groups@[g].versions@.len() implies {
            let (v1, v2) = (#[trigger] report1.groups@[g].versions@[k], report2.groups@[g].versions@[k]);
            v1.version@ == v2.version@ && same_parents(&v1.parents, &v2.parents)
        } by {
        assert(mvd1.groups@[g].versions@ == mvd2.groups@[g].versions@);
        let v = mvd1.groups@[g].versions@[k] as int;
        let a1 = parents1.attributions@[g]@[k];
        let a2 = parents2.attributions@[g]@[k];
        assert(attributes(deps1, v, &a1));
        assert(attributes(deps2, v, &a2));
        assert(names1.len() == names2.len());
        assert(report1.groups@[g].versions@[k].version@ == nodes[v].1);
        assert(report2.groups@[g].versions@[k].version@ == nodes[v].1);
        let p1 = report1.groups@[g].versions@[k].parents;
        let p2 = report2.groups@[g].versions@[k].parents;
        assert(mirrors(nodes, &a1, &p1));
        assert(mirrors(nodes, &a2, &p2));
        match (a1, a2) {
            (Attribution::Parents(x), Attribution::Parents(y)) => {
                lemma_sorted_strictly(nodes, x@);
                lemma_sorted_strictly(nodes, y@);
                assert forall|c: usize| x@.contains(c) <==> y@.contains(c) by {
                    if x@.contains(c) {
                        let m = choose|m: int| 0 <= m < x@.len() && x@[m] == c;
                        assert(x@[m] < n);
                        assert(deps1.depends_on(c as int, v));
                        assert(deps2.depends_on(c as int, v));
                        assert(y@.contains((c as int) as usize));
                    }
                    if y@.contains(c) {
                        let m = choose|m: int| 0 <= m < y@.len() && y@[m] == c;
                        assert(y@[m] < n);
                        assert(deps2.depends_on(c as int, v));
                        assert(deps1.depends_on(c as int, v));
                        assert(x@.contains((c as int) as usize));
                    }
                }
                lemma_sorted_unique(x@, y@, order);
                match (p1, p2) {
                    (Parents::Packages(i1), Parents::Packages(i2)) => {
                        assert(i1@.len() == x@.len() && i2@.len() == y@.len());
                        assert forall|m: int| 0 <= m < i1@.len() implies id_views(i1@)[m] == id_views(i2@)[m] by {
                            assert(i1@[m]@ == nodes[x@[m] as int]);
                            assert(i2@[m]@ == nodes[y@[m] as int]);
                        }
                        assert(id_views(i1@) =~= id_views(i2@));
                    },
                    _ => {},
                }
                assert(p1 is Packages && p2 is Packages);
                assert(same_parents(&p1, &p2));
            },
            (Attribution::Root, Attribution::Parents(y)) => {
                assert(y@[0] < n);
                assert(y@.contains(y@[0]));
                assert(deps2.depends_on(y@[0] as int, v));
                assert(deps1.depends_on(y@[0] as int, v));
            },
            (Attribution::Parents(x), Attribution::Root) => {
                assert(x@[0] < n);
                assert(x@.contains(x@[0]));
                assert(deps1.depends_on(x@[0] as int, v));
                assert(deps2.depends_on(x@[0] as int, v));
            },
            _ => {
                assert(p1 is Root);
                assert(p2 is Root);
            },
        }
        assert(same_parents(&p1, &p2));
    }
    assert forall|g: int| 0 <= g < report1.groups@.len() implies (#[trigger] report1.groups@[g]).name@ == report2.groups@[g].name@
        && report1.groups@[g].versions@.len() == report2.groups@[g].versions@.len() by {
        assert(names1[g] == names2[g]);
        assert(mvd1.groups@[g].versions@ == mvd2.groups@[g].versions@);
    }
}

} // verus!
