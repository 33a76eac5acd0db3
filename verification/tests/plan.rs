use fac::catalogue::{load_closure, Catalogue};
use fac::closure::PortalResponse;
use fac::dependency::parse_dependency;
use fac::diff::{compute_diff, name_lt, InstalledMod, InstalledModType};
use fac::error::ErrorKind;
use fac::names::NameIndex;
use fac::permute::Permutater;
use fac::release::{Installable, ModRelease};
use fac::requirements::Requirements;
use fac::solve::resolve_catalogue;
use fac::types::{ModName, Url};
use fac::version::{parse_version, parse_version_req, ReleaseVersion};

fn a_release(name: &str, version: &str, deps: &[&str]) -> ModRelease {
    ModRelease {
        name: ModName(name.to_string()),
        version: parse_version(version).unwrap(),
        factorio_version: parse_version_req("*").unwrap(),
        dependencies: deps.iter().map(|d| parse_dependency(d).unwrap()).collect(),
        download_url: Url(format!("/download/{}/{}", name, version)),
        file_name: format!("{}_{}.zip", name, version),
        file_size: 1,
    }
}

fn installed(name: &str, version: &str) -> InstalledMod {
    InstalledMod {
        name: ModName(name.to_string()),
        version: parse_version(version).unwrap(),
        path: format!("mods/{}_{}.zip", name, version),
        mod_type: InstalledModType::Zipped,
    }
}

fn entry(name: &str, version: &str) -> (ModName, ModRelease) {
    (ModName(name.to_string()), a_release(name, version, &[]))
}

fn asks(pairs: &[(&str, &str)]) -> Requirements {
    let mut reqs = Requirements::new();
    for (name, req) in pairs {
        reqs.insert(ModName(name.to_string()), parse_version_req(req).unwrap());
    }
    reqs
}

#[test]
fn names_are_ordered_as_in_a_dictionary() {
    let n = |s: &str| ModName(s.to_string());
    assert!(name_lt(&n("a"), &n("b")));
    assert!(!name_lt(&n("b"), &n("a")));
    assert!(!name_lt(&n("a"), &n("a")));
    assert!(name_lt(&n(""), &n("a")));
    assert!(name_lt(&n("ab"), &n("abc")));
    assert!(name_lt(&n("Zebra"), &n("apple")));
    assert!(name_lt(&n("a b"), &n("a-b")));
    for (x, y) in [("boblibrary", "bobores"), ("é", "z"), ("z", "é"), ("same", "same")] {
        assert_eq!(name_lt(&n(x), &n(y)), x < y);
    }
}

#[test]
fn diff_of_solution_and_installation() {
    let solution = vec![entry("C", "1.0.0"), entry("A", "2.0.0"), entry("B", "1.0.0")];
    let have = vec![
        installed("Z", "1.0.0"),
        installed("A", "1.5.0"),
        installed("B", "1.0.0"),
        installed("A", "1.0.0"),
        installed("D", "0.1.0"),
    ];
    let diff = compute_diff(&solution, &have);
    assert_eq!(diff.to_keep, vec![2]);
    assert_eq!(diff.to_uninstall, vec![3, 1, 4, 0]);
    assert_eq!(diff.to_upgrade, vec![(3, 1), (1, 1)]);
    assert_eq!(diff.to_install, vec![1, 0]);
}

#[test]
fn diff_with_nothing_to_do() {
    let solution = vec![entry("A", "1.0.0")];
    let have = vec![installed("A", "1.0.0")];
    let diff = compute_diff(&solution, &have);
    assert_eq!(diff.to_keep, vec![0]);
    assert!(diff.to_uninstall.is_empty() && diff.to_install.is_empty() && diff.to_upgrade.is_empty());
    let diff = compute_diff(&vec![], &vec![]);
    assert!(diff.to_keep.is_empty() && diff.to_uninstall.is_empty() && diff.to_install.is_empty());
}

#[test]
fn diff_keeps_one_copy_and_removes_the_other_versions() {
    let solution = vec![entry("A", "2.0.0")];
    let have = vec![installed("A", "2.0.0"), installed("A", "1.0.0")];
    let diff = compute_diff(&solution, &have);
    assert_eq!(diff.to_keep, vec![0]);
    assert_eq!(diff.to_uninstall, vec![1]);
    assert_eq!(diff.to_upgrade, vec![(1, 0)]);
    assert!(diff.to_install.is_empty());
}

#[test]
fn picks_are_walked_with_the_first_list_fastest() {
    let mut walk = Permutater::new(vec![vec![1, 2], vec![10], vec![100, 200, 300]]);
    let mut values = vec![0, 0, 0];
    let mut seen = vec![];
    while walk.next(&mut values) {
        seen.push(values.clone());
    }
    assert_eq!(
        seen,
        vec![
            vec![1, 10, 100],
            vec![2, 10, 100],
            vec![1, 10, 200],
            vec![2, 10, 200],
            vec![1, 10, 300],
            vec![2, 10, 300],
        ]
    );
    assert_eq!(values, vec![2, 10, 300]);
    // After the last pick the walk starts over.
    assert!(walk.next(&mut values));
    assert_eq!(values, vec![2, 10, 100]);
}

#[test]
fn walk_over_no_lists_has_no_pick() {
    let mut walk: Permutater<u8> = Permutater::new(vec![]);
    let mut values: Vec<u8> = vec![];
    assert!(!walk.next(&mut values));
    assert!(!walk.advance(&values, 0));
}

#[test]
fn walk_over_single_options_has_one_pick() {
    let mut walk = Permutater::new(vec![vec![7], vec![8]]);
    let mut values = vec![0, 0];
    assert!(walk.next(&mut values));
    assert_eq!(values, vec![7, 8]);
    assert!(!walk.next(&mut values));
    assert_eq!(values, vec![7, 8]);
}

#[test]
fn catalogue_answers_like_the_portal() {
    let mut catalogue = Catalogue::new();
    catalogue.add(ModName("A".to_string()), vec![a_release("A", "1.0.0", &[])]);
    catalogue.add(ModName("A".to_string()), vec![]);
    match catalogue.get(&ModName("A".to_string())) {
        PortalResponse::Found(releases) => assert_eq!(releases.len(), 1),
        other => panic!("gave {:?}", other),
    }
    assert!(matches!(catalogue.get(&ModName("B".to_string())), PortalResponse::NotFound));
}

#[test]
fn closure_is_loaded_from_a_catalogue() {
    let mut catalogue = Catalogue::new();
    catalogue.add(ModName("A".to_string()), vec![a_release("A", "1.0.0", &["B", "? C"])]);
    catalogue.add(ModName("B".to_string()), vec![a_release("B", "1.0.0", &["A", "base"])]);
    catalogue.add(ModName("unrelated".to_string()), vec![a_release("unrelated", "1.0.0", &[])]);
    let reqs = asks(&[("A", "*")]);
    let mut closure = load_closure(&catalogue, ReleaseVersion::new(0, 15, 0), &reqs);
    let names: Vec<String> =
        (0..closure.len()).map(|i| closure.node(i).name().to_string()).collect();
    assert_eq!(names, vec!["base", "A", "B"]);
    assert!(closure.next_request().is_none());
}

#[test]
fn resolution_over_a_catalogue() {
    let mut catalogue = Catalogue::new();
    catalogue.add(
        ModName("A".to_string()),
        vec![a_release("A", "1.0.0", &["B >= 2.0.0"]), a_release("A", "0.5.0", &["base"])],
    );
    catalogue.add(
        ModName("B".to_string()),
        vec![a_release("B", "1.0.0", &[]), a_release("B", "2.0.0", &["base"])],
    );
    let reqs = asks(&[("A", "*")]);
    let solution = resolve_catalogue(&catalogue, ReleaseVersion::new(0, 15, 0), &reqs).unwrap();
    let mut names: Vec<(String, String)> =
        solution.iter().map(|(n, r)| (n.to_string(), r.version.to_string())).collect();
    names.sort();
    assert_eq!(names, vec![("A".to_string(), "1.0.0".to_string()), ("B".to_string(), "2.0.0".to_string())]);
    let again = resolve_catalogue(&catalogue, ReleaseVersion::new(0, 15, 0), &reqs).unwrap();
    let mut names_again: Vec<(String, String)> =
        again.iter().map(|(n, r)| (n.to_string(), r.version.to_string())).collect();
    names_again.sort();
    assert_eq!(names, names_again);
    match resolve_catalogue(&catalogue, ReleaseVersion::new(0, 15, 0), &asks(&[("A", ">=3.0.0")])) {
        Err(ErrorKind::NoSolution(Some(name))) => assert_eq!(name, "A"),
        other => panic!("gave {:?}", other),
    }
}

#[test]
fn a_later_assignment_is_kept_though_an_earlier_one_holds_a_newer_version() {
    // The preference between assignments is not transitive. Here three assignments are
    // valid besides the one of the root alone: {X 2, Y 1}, {Y 2, Z 1} and {X 1, Z 2}, looked
    // at in this order. Each is preferred to the one before it, so the last is handed out,
    // although the first holds the shared name X at a newer version.
    let mut catalogue = Catalogue::new();
    catalogue.add(ModName("R".to_string()), vec![a_release("R", "1.0.0", &["? X", "? Y", "? Z"])]);
    catalogue.add(
        ModName("X".to_string()),
        vec![
            a_release("X", "1.0.0", &["Z = 2.0.0", "? Y < 0.0.0"]),
            a_release("X", "2.0.0", &["Y = 1.0.0", "? Z < 0.0.0"]),
        ],
    );
    catalogue.add(
        ModName("Y".to_string()),
        vec![
            a_release("Y", "1.0.0", &["X = 2.0.0"]),
            a_release("Y", "2.0.0", &["Z = 1.0.0", "? X < 0.0.0"]),
        ],
    );
    catalogue.add(
        ModName("Z".to_string()),
        vec![a_release("Z", "1.0.0", &["Y = 2.0.0"]), a_release("Z", "2.0.0", &["X = 1.0.0"])],
    );
    let reqs = asks(&[("R", "*")]);
    let solution = resolve_catalogue(&catalogue, ReleaseVersion::new(0, 15, 0), &reqs).unwrap();
    let mut names: Vec<(String, String)> =
        solution.iter().map(|(n, r)| (n.to_string(), r.version.to_string())).collect();
    names.sort();
    let expected: Vec<(String, String)> = [("R", "1.0.0"), ("X", "1.0.0"), ("Z", "2.0.0")]
        .iter()
        .map(|(n, v)| (n.to_string(), v.to_string()))
        .collect();
    assert_eq!(names, expected);
}

#[test]
fn nodes_are_found_by_name() {
    let nodes = vec![
        Installable::base(ReleaseVersion::new(0, 15, 0)),
        Installable::Mod(a_release("A", "1.0.0", &[])),
        Installable::Mod(a_release("B", "1.0.0", &[])),
        Installable::Mod(a_release("A", "2.0.0", &[])),
        Installable::Mod(a_release("A", "3.0.0", &[])),
    ];
    let alive = vec![true, true, true, false, true];
    let index = NameIndex::build(&nodes, &alive);
    let name = |s: &str| ModName(s.to_string());
    assert_eq!(index.lookup(&nodes, &alive, &name("A")), vec![1, 4]);
    assert_eq!(index.lookup(&nodes, &alive, &name("B")), vec![2]);
    assert_eq!(index.lookup(&nodes, &alive, &name("base")), vec![0]);
    assert_eq!(index.lookup(&nodes, &alive, &name("C")), Vec::<usize>::new());
}
