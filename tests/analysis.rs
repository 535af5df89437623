use cargo_depcheck::graph::{DepError, Deps};
use cargo_depcheck::grouping::{sort_by_id, MultiVerDeps, NameGroup};
use cargo_depcheck::package::{
    comes_before, is_newer, same_id, same_version, text_less, PackageId, PackageRecord, Version,
};
use cargo_depcheck::parents::{Attribution, MultiVerParents};
use cargo_depcheck::pipeline::process_lock_file;
use cargo_depcheck::report::{exit_status, MultiVerDepResults, Parents};

fn ver(major: u64, minor: u64, patch: u64) -> Version {
    Version { major, minor, patch, pre: String::new(), build: String::new() }
}

fn pre(major: u64, minor: u64, patch: u64, tag: &str) -> Version {
    Version { major, minor, patch, pre: tag.to_string(), build: String::new() }
}

fn id(name: &str, version: Version) -> PackageId {
    PackageId { name: name.to_string(), version }
}

fn rec(name: &str, version: Version, deps: Vec<PackageId>) -> PackageRecord {
    PackageRecord { id: id(name, version), deps }
}

fn analyze(records: &Vec<PackageRecord>, verbose: bool) -> Result<MultiVerDepResults, DepError> {
    process_lock_file(records, true, true, verbose)
}

fn parent_names(p: &Parents) -> Vec<String> {
    match p {
        Parents::Root => vec!["root".to_string()],
        Parents::Packages(ids) => ids.iter().map(|i| i.name.clone()).collect(),
    }
}

fn two_foo_versions() -> Vec<PackageRecord> {
    vec![
        rec("foo", ver(1, 0, 0), vec![]),
        rec("foo", ver(2, 0, 0), vec![]),
        rec("bar", ver(1, 0, 0), vec![id("foo", ver(1, 0, 0))]),
        rec("baz", ver(1, 0, 0), vec![id("foo", ver(2, 0, 0))]),
    ]
}

#[test]
fn single_versions_have_no_duplicates() {
    let records = vec![
        rec("foo", ver(1, 0, 0), vec![]),
        rec("bar", ver(1, 0, 0), vec![id("foo", ver(1, 0, 0))]),
    ];
    let outcome = analyze(&records, false);
    let report = outcome.as_ref().unwrap();
    assert!(!report.has_dup_deps());
    assert_eq!(report.groups.len(), 0);
    assert_eq!(report.total_packages, 2);
    assert_eq!(report.total_names, 2);
    assert_eq!(exit_status(&outcome), 0);
}

#[test]
fn two_versions_are_listed_with_parents() {
    let outcome = analyze(&two_foo_versions(), false);
    let report = outcome.as_ref().unwrap();
    assert!(report.has_dup_deps());
    assert_eq!(report.groups.len(), 1);
    let g = &report.groups[0];
    assert_eq!(g.name, "foo");
    assert_eq!(g.versions.len(), 2);
    assert_eq!(g.versions[0].version, ver(2, 0, 0));
    assert_eq!(parent_names(&g.versions[0].parents), vec!["baz".to_string()]);
    assert_eq!(g.versions[1].version, ver(1, 0, 0));
    assert_eq!(parent_names(&g.versions[1].parents), vec!["bar".to_string()]);
    assert_eq!(report.total_packages, 4);
    assert_eq!(report.total_names, 3);
    assert_eq!(exit_status(&outcome), 1);
}

#[test]
fn unreferenced_version_is_attributed_to_root() {
    let records = vec![
        rec("foo", ver(1, 0, 0), vec![]),
        rec("foo", ver(2, 0, 0), vec![]),
        rec("baz", ver(1, 0, 0), vec![id("foo", ver(2, 0, 0))]),
    ];
    let outcome = analyze(&records, false);
    let report = outcome.as_ref().unwrap();
    assert!(report.has_dup_deps());
    let g = &report.groups[0];
    assert_eq!(g.versions[1].version, ver(1, 0, 0));
    assert!(matches!(g.versions[1].parents, Parents::Root));
    assert_eq!(parent_names(&g.versions[0].parents), vec!["baz".to_string()]);
    assert_eq!(exit_status(&outcome), 1);
}

#[test]
fn missing_dependency_is_an_unresolved_reference() {
    let records = vec![
        rec("foo", ver(1, 0, 0), vec![]),
        rec("bar", ver(1, 0, 0), vec![id("foo", ver(3, 0, 0))]),
    ];
    match Deps::from_lock_file(&records) {
        Err(DepError::UnresolvedReference { package, missing }) => {
            assert_eq!(package, id("bar", ver(1, 0, 0)));
            assert_eq!(missing, id("foo", ver(3, 0, 0)));
        }
        other => panic!("expected an unresolved reference, got {:?}", other),
    }
    let outcome = analyze(&records, false);
    assert!(outcome.is_err());
    assert_eq!(exit_status(&outcome), 1);
}

#[test]
fn analysis_is_repeatable() {
    let first = format!("{:?}", analyze(&two_foo_versions(), true));
    let second = format!("{:?}", analyze(&two_foo_versions(), true));
    assert_eq!(first, second);
}

#[test]
fn empty_lockfile_is_clean() {
    let outcome = analyze(&vec![], false);
    let report = outcome.as_ref().unwrap();
    assert_eq!(report.total_packages, 0);
    assert_eq!(report.total_names, 0);
    assert!(!report.has_dup_deps());
    assert_eq!(exit_status(&outcome), 0);
}

#[test]
fn graph_keeps_every_edge_and_reverse_index() {
    let records = vec![
        rec("a", ver(1, 0, 0), vec![id("c", ver(1, 0, 0)), id("b", ver(1, 0, 0))]),
        rec("b", ver(1, 0, 0), vec![id("c", ver(1, 0, 0))]),
        rec("c", ver(1, 0, 0), vec![]),
    ];
    let deps = Deps::from_lock_file(&records).unwrap();
    assert_eq!(deps.len(), 3);
    assert_eq!(deps.package(1), &id("b", ver(1, 0, 0)));
    assert_eq!(deps.dependencies(0), &vec![2, 1]);
    assert_eq!(deps.parents(2), &vec![0, 1]);
    assert_eq!(deps.parents(1), &vec![0]);
    assert!(deps.parents(0).is_empty());
}

#[test]
fn repeated_reference_gives_one_parent() {
    let records = vec![
        rec("x", ver(1, 0, 0), vec![]),
        rec("y", ver(1, 0, 0), vec![id("x", ver(1, 0, 0)), id("x", ver(1, 0, 0))]),
    ];
    let deps = Deps::from_lock_file(&records).unwrap();
    assert_eq!(deps.dependencies(1), &vec![0, 0]);
    assert_eq!(deps.parents(0), &vec![1]);
}

#[test]
fn same_version_twice_is_not_a_duplicate() {
    let records = vec![rec("foo", ver(1, 0, 0), vec![]), rec("foo", ver(1, 0, 0), vec![])];
    let outcome = analyze(&records, false);
    let report = outcome.as_ref().unwrap();
    assert!(!report.has_dup_deps());
    assert_eq!(report.total_names, 1);
}

#[test]
fn groups_ordered_by_name_and_versions_newest_first() {
    let records = vec![
        rec("zeta", ver(0, 9, 0), vec![]),
        rec("zeta", ver(0, 10, 0), vec![]),
        rec("alpha", ver(1, 0, 0), vec![]),
        rec("alpha", ver(1, 0, 1), vec![]),
        rec("alpha", ver(3, 0, 0), vec![]),
        rec("mid", ver(1, 0, 0), vec![]),
    ];
    let report = analyze(&records, false).unwrap();
    assert_eq!(report.groups.len(), 2);
    assert_eq!(report.groups[0].name, "alpha");
    let alpha: Vec<Version> = report.groups[0].versions.iter().map(|v| v.version.clone()).collect();
    assert_eq!(alpha, vec![ver(3, 0, 0), ver(1, 0, 1), ver(1, 0, 0)]);
    assert_eq!(report.groups[1].name, "zeta");
    assert_eq!(report.groups[1].versions[0].version, ver(0, 10, 0));
    assert_eq!(report.groups[1].versions[1].version, ver(0, 9, 0));
}

#[test]
fn parents_listed_in_analysis_order() {
    let records = vec![
        rec("dup", ver(1, 0, 0), vec![]),
        rec("dup", ver(2, 0, 0), vec![]),
        rec("web", ver(1, 0, 0), vec![id("dup", ver(1, 0, 0))]),
        rec("app", ver(2, 0, 0), vec![id("dup", ver(1, 0, 0))]),
        rec("app", ver(1, 0, 0), vec![id("dup", ver(1, 0, 0))]),
        rec("cli", ver(1, 0, 0), vec![id("dup", ver(1, 0, 0))]),
    ];
    let report = analyze(&records, true).unwrap();
    let g = report.groups.iter().find(|g| g.name == "dup").unwrap();
    match &g.versions[1].parents {
        Parents::Packages(ids) => {
            assert_eq!(
                ids,
                &vec![
                    id("app", ver(2, 0, 0)),
                    id("app", ver(1, 0, 0)),
                    id("cli", ver(1, 0, 0)),
                    id("web", ver(1, 0, 0)),
                ]
            );
        }
        Parents::Root => panic!("expected parents"),
    }
    assert!(matches!(g.versions[0].parents, Parents::Root));
}

#[test]
fn version_precedence() {
    assert!(is_newer(&ver(1, 10, 0), &ver(1, 9, 0)));
    assert!(!is_newer(&ver(1, 9, 0), &ver(1, 10, 0)));
    assert!(is_newer(&ver(2, 0, 0), &ver(1, 99, 99)));
    assert!(is_newer(&ver(1, 0, 0), &pre(1, 0, 0, "alpha")));
    assert!(!is_newer(&pre(1, 0, 0, "alpha"), &ver(1, 0, 0)));
    assert!(is_newer(&pre(1, 0, 0, "beta"), &pre(1, 0, 0, "alpha")));
    assert!(!is_newer(&ver(1, 0, 0), &ver(1, 0, 0)));
}

#[test]
fn ordinal_text_order() {
    assert!(text_less("a", "b"));
    assert!(!text_less("b", "a"));
    assert!(text_less("ab", "abc"));
    assert!(!text_less("abc", "ab"));
    assert!(text_less("", "a"));
    assert!(!text_less("same", "same"));
    assert!(text_less("Z", "a"));
}

#[test]
fn analysis_order_name_then_newest() {
    assert!(comes_before(&id("a", ver(1, 0, 0)), &id("b", ver(9, 0, 0))));
    assert!(comes_before(&id("a", ver(2, 0, 0)), &id("a", ver(1, 0, 0))));
    assert!(!comes_before(&id("a", ver(1, 0, 0)), &id("a", ver(1, 0, 0))));
}

#[test]
fn sort_puts_nodes_in_order() {
    let records = vec![
        rec("c", ver(1, 0, 0), vec![]),
        rec("a", ver(1, 0, 0), vec![]),
        rec("b", ver(1, 0, 0), vec![]),
        rec("a", ver(2, 0, 0), vec![]),
    ];
    let deps = Deps::from_lock_file(&records).unwrap();
    assert_eq!(sort_by_id(&deps, &vec![0, 1, 2, 3]), vec![3, 1, 2, 0]);
    assert_eq!(sort_by_id(&deps, &vec![]), Vec::<usize>::new());
}

#[test]
fn group_naming_a_missing_node_is_inconsistent() {
    let records = vec![rec("foo", ver(1, 0, 0), vec![])];
    let deps = Deps::from_lock_file(&records).unwrap();
    let mvd = MultiVerDeps { groups: vec![NameGroup { name: "foo".to_string(), versions: vec![0, 5] }] };
    assert!(matches!(MultiVerParents::from_deps(&deps, &mvd), Err(DepError::InconsistentGraph)));
}

#[test]
fn mismatched_parent_table_is_inconsistent() {
    let deps = Deps::from_lock_file(&two_foo_versions()).unwrap();
    let mvd = MultiVerDeps::from_deps(&deps);
    let short = MultiVerParents { attributions: vec![vec![Attribution::Root]] };
    assert!(matches!(
        MultiVerDepResults::build(&deps, &short, mvd, false, false, false),
        Err(DepError::InconsistentGraph)
    ));
    let mvd = MultiVerDeps::from_deps(&deps);
    let bad = MultiVerParents { attributions: vec![vec![Attribution::Parents(vec![9]), Attribution::Root]] };
    assert!(matches!(
        MultiVerDepResults::build(&deps, &bad, mvd, false, false, false),
        Err(DepError::InconsistentGraph)
    ));
}

#[test]
fn flags_are_recorded_without_changing_the_verdict() {
    let deps = Deps::from_lock_file(&two_foo_versions()).unwrap();
    let mvd = MultiVerDeps::from_deps(&deps);
    let parents = MultiVerParents::from_deps(&deps, &mvd).unwrap();
    let quiet = MultiVerDepResults::build(&deps, &parents, mvd, false, false, false).unwrap();
    assert!(quiet.has_dup_deps());
    assert!(!quiet.show_deps && !quiet.show_dups && !quiet.verbose);
    let mvd = MultiVerDeps::from_deps(&deps);
    let loud = MultiVerDepResults::build(&deps, &parents, mvd, true, true, true).unwrap();
    assert!(loud.has_dup_deps());
    assert!(loud.show_deps && loud.show_dups && loud.verbose);
}

#[test]
fn stages_agree_with_whole_pipeline() {
    let deps = Deps::from_lock_file(&two_foo_versions()).unwrap();
    let mvd = MultiVerDeps::from_deps(&deps);
    assert_eq!(mvd.groups.len(), 1);
    assert_eq!(mvd.groups[0].name, "foo");
    assert_eq!(mvd.groups[0].versions, vec![1, 0]);
    let parents = MultiVerParents::from_deps(&deps, &mvd).unwrap();
    match &parents.attributions[0][0] {
        Attribution::Parents(p) => assert_eq!(p, &vec![3]),
        Attribution::Root => panic!("expected a parent"),
    }
    let staged = MultiVerDepResults::build(&deps, &parents, mvd, false, true, false).unwrap();
    let whole = process_lock_file(&two_foo_versions(), false, true, false).unwrap();
    assert_eq!(format!("{:?}", staged), format!("{:?}", whole));
}

#[test]
fn pipeline_reports_unresolved_reference() {
    let records = vec![rec("bar", ver(1, 0, 0), vec![id("ghost", ver(0, 1, 0))])];
    assert!(matches!(
        process_lock_file(&records, false, false, false),
        Err(DepError::UnresolvedReference { .. })
    ));
}

#[test]
fn identity_equality_and_copies() {
    let a = PackageId { name: "serde".to_string(), version: pre(1, 0, 0, "rc.1") };
    let copy = a.cloned();
    assert_eq!(copy, a);
    assert!(same_id(&a, &copy));
    assert!(!same_id(&a, &id("serde", ver(1, 0, 0))));
    assert!(!same_id(&a, &PackageId { name: "serde_json".to_string(), version: pre(1, 0, 0, "rc.1") }));
    let mut built = ver(1, 0, 0);
    built.build = "git".to_string();
    assert!(!same_version(&built, &ver(1, 0, 0)));
    assert!(same_version(&built.cloned(), &built));
    assert!(is_newer(&built, &ver(1, 0, 0)));
}
