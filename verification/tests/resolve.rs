use fac::closure::{Closure, PortalResponse};
use fac::dependency::parse_dependency;
use fac::error::ErrorKind;
use fac::release::{Installable, ModRelease};
use fac::requirements::Requirements;
use fac::solution::{compare, is_valid, preference, Preference};
use fac::solve::solve;
use fac::types::{ModName, Url};
use fac::version::{parse_version, parse_version_req, ModVersionReq, ReleaseVersion, VersionReq};
use std::cmp::Ordering;

fn release(name: &str, version: &str, deps: &[&str]) -> ModRelease {
    release_for(name, version, "*", deps)
}

fn release_for(name: &str, version: &str, game: &str, deps: &[&str]) -> ModRelease {
    ModRelease {
        name: ModName(name.to_string()),
        version: parse_version(version).unwrap(),
        factorio_version: parse_version_req(game).unwrap(),
        dependencies: deps.iter().map(|d| parse_dependency(d).unwrap()).collect(),
        download_url: Url(format!("/download/{}/{}", name, version)),
        file_name: format!("{}_{}.zip", name, version),
        file_size: 1,
    }
}

fn requirements(pairs: &[(&str, &str)]) -> Requirements {
    let mut reqs = Requirements::new();
    for (name, req) in pairs {
        reqs.insert(ModName(name.to_string()), parse_version_req(req).unwrap());
    }
    reqs
}

fn load(catalogue: &[(&str, Vec<ModRelease>)], reqs: &Requirements) -> (Closure, Vec<String>) {
    let mut closure = Closure::new(ReleaseVersion::new(0, 15, 0), reqs);
    let mut asked = vec![];
    while let Some(name) = closure.next_request() {
        asked.push(name.to_string());
        let response = match catalogue.iter().find(|(n, _)| *n == name.as_str()) {
            Some((_, releases)) => PortalResponse::Found(releases.clone()),
            None => PortalResponse::NotFound,
        };
        closure.add_mod(response).unwrap();
    }
    (closure, asked)
}

fn resolve(
    catalogue: &[(&str, Vec<ModRelease>)],
    pairs: &[(&str, &str)],
) -> Result<Vec<(String, String)>, ErrorKind> {
    let reqs = requirements(pairs);
    let (closure, _) = load(catalogue, &reqs);
    let solution = solve(&closure, &reqs)?;
    let mut names: Vec<(String, String)> = solution
        .iter()
        .map(|(name, release)| {
            assert_eq!(name.as_str(), release.name.as_str());
            (name.to_string(), release.version.to_string())
        })
        .collect();
    names.sort();
    Ok(names)
}

fn picked(pairs: &[(&str, &str)]) -> Vec<(String, String)> {
    pairs.iter().map(|(n, v)| (n.to_string(), v.to_string())).collect()
}

#[test]
fn single_mod_that_depends_on_the_game() {
    let catalogue = [("A", vec![release("A", "1.0.0", &["base"])])];
    assert_eq!(resolve(&catalogue, &[("A", "*")]).unwrap(), picked(&[("A", "1.0.0")]));
}

#[test]
fn requirement_selects_the_matching_release() {
    let catalogue = [("A", vec![release("A", "1.0.0", &[]), release("A", "2.0.0", &[])])];
    assert_eq!(resolve(&catalogue, &[("A", ">=2.0.0")]).unwrap(), picked(&[("A", "2.0.0")]));
    assert_eq!(resolve(&catalogue, &[("A", "*")]).unwrap(), picked(&[("A", "2.0.0")]));
    let catalogue = [("A", vec![release("A", "1.0.0", &["base"]), release("A", "2.0.0", &[])])];
    assert_eq!(resolve(&catalogue, &[("A", "<2.0.0")]).unwrap(), picked(&[("A", "1.0.0")]));
}

#[test]
fn removals_of_one_pass_are_applied_together() {
    // Of two releases with the same neighbours the older one is superfluous, and the newer
    // one violates the requirement: one pass removes both.
    let catalogue = [("A", vec![release("A", "1.0.0", &[]), release("A", "2.0.0", &[])])];
    match resolve(&catalogue, &[("A", "<2.0.0")]) {
        Err(ErrorKind::NoSolution(Some(name))) => assert_eq!(name, "A"),
        other => panic!("gave {:?}", other),
    }
}

#[test]
fn dependency_selects_the_matching_release() {
    let catalogue = [
        ("A", vec![release("A", "1.0.0", &["B >= 2.0.0"])]),
        ("B", vec![release("B", "1.0.0", &[]), release("B", "2.0.0", &[])]),
    ];
    assert_eq!(
        resolve(&catalogue, &[("A", "*"), ("B", "*")]).unwrap(),
        picked(&[("A", "1.0.0"), ("B", "2.0.0")])
    );
}

#[test]
fn optional_dependency_on_an_unknown_mod_is_allowed() {
    let catalogue = [("A", vec![release("A", "1.0.0", &["? C"])])];
    assert_eq!(resolve(&catalogue, &[("A", "*")]).unwrap(), picked(&[("A", "1.0.0")]));
}

#[test]
fn unsatisfiable_dependency_gives_no_solution() {
    let catalogue = [
        ("A", vec![release("A", "1.0.0", &["B = 1.0.0"])]),
        ("B", vec![release("B", "2.0.0", &[])]),
    ];
    match resolve(&catalogue, &[("A", "*"), ("B", "*")]) {
        Err(ErrorKind::NoSolution(Some(name))) => assert_eq!(name, "A"),
        other => panic!("gave {:?}", other),
    }
}

#[test]
fn cyclic_dependencies_resolve() {
    let catalogue = [
        ("A", vec![release("A", "1.0.0", &["B"])]),
        ("B", vec![release("B", "1.0.0", &["A"])]),
    ];
    assert_eq!(
        resolve(&catalogue, &[("A", "*")]).unwrap(),
        picked(&[("A", "1.0.0"), ("B", "1.0.0")])
    );
}

#[test]
fn name_with_spaces_and_optional_dependency() {
    let catalogue = [(
        "some name with spaces",
        vec![release("some name with spaces", "1.0.0", &["? other >= 1.2.3"])],
    )];
    let reqs = requirements(&[("some name with spaces", "*")]);
    let (closure, asked) = load(&catalogue, &reqs);
    assert_eq!(asked, vec!["some name with spaces".to_string(), "other".to_string()]);
    let solution = solve(&closure, &reqs).unwrap();
    assert_eq!(solution.len(), 1);
    assert_eq!(solution[0].0.as_str(), "some name with spaces");
    assert!(!solution[0].1.dependencies[0].required());
}

#[test]
fn empty_requirements_give_the_empty_solution() {
    let catalogue = [("A", vec![release("A", "1.0.0", &[])])];
    assert_eq!(resolve(&catalogue, &[]).unwrap(), picked(&[]));
}

#[test]
fn mod_behind_an_optional_edge_is_left_out() {
    let catalogue = [
        ("A", vec![release("A", "1.0.0", &["? C"])]),
        ("C", vec![release("C", "1.0.0", &[])]),
    ];
    assert_eq!(resolve(&catalogue, &[("A", "*")]).unwrap(), picked(&[("A", "1.0.0")]));
    let catalogue = [
        ("A", vec![release("A", "1.0.0", &["? C", "B"])]),
        ("B", vec![release("B", "1.0.0", &["C"])]),
        ("C", vec![release("C", "1.0.0", &[])]),
    ];
    assert_eq!(
        resolve(&catalogue, &[("A", "*")]).unwrap(),
        picked(&[("A", "1.0.0"), ("B", "1.0.0"), ("C", "1.0.0")])
    );
}

#[test]
fn releases_for_another_game_version_are_passed_over() {
    let catalogue = [(
        "A",
        vec![
            release_for("A", "1.0.0", ">=0.15.0", &[]),
            release_for("A", "2.0.0", ">=0.16.0", &[]),
            release_for("A", "0.9.0", "<0.15.0", &[]),
        ],
    )];
    assert_eq!(resolve(&catalogue, &[("A", "*")]).unwrap(), picked(&[("A", "1.0.0")]));
    let catalogue = [("A", vec![release_for("A", "2.0.0", ">=0.16.0", &[])])];
    match resolve(&catalogue, &[("A", "*")]) {
        Err(ErrorKind::NoSolution(Some(name))) => assert_eq!(name, "A"),
        other => panic!("gave {:?}", other),
    }
}

#[test]
fn unknown_mod_asked_for_gives_no_solution_with_its_name() {
    match resolve(&[], &[("missing", "*")]) {
        Err(ErrorKind::NoSolution(Some(name))) => assert_eq!(name, "missing"),
        other => panic!("gave {:?}", other),
    }
}

#[test]
fn requirement_on_the_game_is_honoured() {
    let catalogue = [("A", vec![release("A", "1.0.0", &["base >= 0.16.0"])])];
    match resolve(&catalogue, &[("A", "*")]) {
        Err(ErrorKind::NoSolution(Some(name))) => assert_eq!(name, "A"),
        other => panic!("gave {:?}", other),
    }
    let catalogue = [(
        "A",
        vec![release("A", "1.0.0", &["base >= 0.14.0"]), release("A", "2.0.0", &["base >= 0.16.0"])],
    )];
    assert_eq!(resolve(&catalogue, &[("A", "*")]).unwrap(), picked(&[("A", "1.0.0")]));
}

#[test]
fn conflict_between_valid_candidates_gives_no_solution_without_a_name() {
    // Both mods survive pruning, yet no combination is valid: each forbids every release of
    // the other through an optional dependency.
    let catalogue = [
        ("A", vec![release("A", "1.0.0", &["? B < 1.0.0"])]),
        ("B", vec![release("B", "1.0.0", &["? A < 1.0.0"])]),
    ];
    match resolve(&catalogue, &[("A", "*"), ("B", "*")]) {
        Err(ErrorKind::NoSolution(None)) => {}
        other => panic!("gave {:?}", other),
    }
}

#[test]
fn resolution_is_repeatable() {
    let catalogue = [
        ("A", vec![release("A", "1.0.0", &["B"]), release("A", "2.0.0", &["? B >= 2.0.0"])]),
        ("B", vec![release("B", "1.0.0", &[]), release("B", "2.0.0", &["base"])]),
    ];
    let first = resolve(&catalogue, &[("A", "*")]).unwrap();
    let second = resolve(&catalogue, &[("A", "*")]).unwrap();
    assert_eq!(first, second);
    assert_eq!(first, picked(&[("A", "2.0.0"), ("B", "2.0.0")]));
}

#[test]
fn portal_failure_is_handed_on() {
    let reqs = requirements(&[("A", "*")]);
    let mut closure = Closure::new(ReleaseVersion::new(0, 15, 0), &reqs);
    let name = closure.next_request().unwrap();
    assert_eq!(name.as_str(), "A");
    match closure.add_mod(PortalResponse::Failed("timeout".to_string())) {
        Err(ErrorKind::Portal(message)) => assert_eq!(message, "timeout"),
        other => panic!("gave {:?}", other),
    }
    assert_eq!(closure.len(), 1);
}

#[test]
fn closure_asks_for_each_mod_once_and_never_for_the_game() {
    let catalogue = [
        ("A", vec![release("A", "1.0.0", &["B", "base", "C"])]),
        ("B", vec![release("B", "1.0.0", &["A", "C", "base >= 0.1.0"])]),
    ];
    let reqs = requirements(&[("A", "*"), ("B", "*")]);
    let (closure, asked) = load(&catalogue, &reqs);
    assert_eq!(asked, vec!["A".to_string(), "B".to_string(), "C".to_string()]);
    assert_eq!(closure.len(), 3);
    assert!(matches!(closure.node(0), Installable::Base(_, _)));
    assert_eq!(closure.node(0).name().as_str(), "base");
    assert_eq!(*closure.node(0).version(), ReleaseVersion::new(0, 15, 0));
    assert!(closure.node(0).dependencies().is_empty());
}

fn base() -> Installable {
    Installable::base(ReleaseVersion::new(0, 15, 0))
}

#[test]
fn validity_of_assignments() {
    let a = Installable::Mod(release("A", "1.0.0", &["B >= 2.0.0", "? C", "base"]));
    let b1 = Installable::Mod(release("B", "1.0.0", &[]));
    let b2 = Installable::Mod(release("B", "2.0.0", &[]));
    let c = Installable::Mod(release("C", "1.0.0", &["? B < 2.0.0"]));
    let game = base();
    assert!(is_valid(&vec![]));
    assert!(is_valid(&vec![&game]));
    assert!(is_valid(&vec![&game, &a, &b2]));
    assert!(!is_valid(&vec![&game, &a, &b1]));
    assert!(!is_valid(&vec![&game, &a]));
    assert!(!is_valid(&vec![&a, &b2]));
    assert!(is_valid(&vec![&game, &b1, &c]));
    assert!(!is_valid(&vec![&game, &a, &b2, &c]));
}

#[test]
fn preference_between_assignments() {
    let a1 = Installable::Mod(release("A", "1.0.0", &[]));
    let a2 = Installable::Mod(release("A", "2.0.0", &[]));
    let b1 = Installable::Mod(release("B", "1.0.0", &[]));
    let b2 = Installable::Mod(release("B", "2.0.0", &[]));
    assert_eq!(compare(&vec![&a1], &vec![&a2]), Ordering::Less);
    assert_eq!(compare(&vec![&a2], &vec![&a1]), Ordering::Greater);
    assert_eq!(compare(&vec![&a1], &vec![&a1]), Ordering::Equal);
    assert_eq!(compare(&vec![&a1, &b2], &vec![&a2, &b1]), Ordering::Less);
    assert_eq!(compare(&vec![&b2, &a1], &vec![&a2, &b1]), Ordering::Greater);
    assert_eq!(compare(&vec![&a1], &vec![&a1, &b1]), Ordering::Less);
    assert_eq!(compare(&vec![&a1, &b1], &vec![&a1]), Ordering::Greater);
    assert_eq!(compare(&vec![&a1], &vec![&b1]), Ordering::Equal);
    assert_eq!(compare(&vec![&a2], &vec![&a1, &b1]), Ordering::Greater);
    assert_eq!(preference(&vec![&a1, &b1], &vec![&a1, &b2]), Preference::Worse);
    assert_eq!(preference(&vec![&a1, &b2], &vec![&a1, &b1]), Preference::Better);
    assert_eq!(preference(&vec![], &vec![]), Preference::Same);
}

#[test]
fn solution_honours_requirements_dependencies_and_the_game() {
    let catalogue = [
        (
            "A",
            vec![
                release_for("A", "1.0.0", ">=0.15.0", &["B >= 1.0.0", "? D"]),
                release_for("A", "3.0.0", ">=0.15.0", &["B >= 2.0.0"]),
                release_for("A", "4.0.0", ">=0.16.0", &[]),
            ],
        ),
        (
            "B",
            vec![
                release_for("B", "1.0.0", "*", &["base >= 0.15.0"]),
                release_for("B", "2.0.0", "*", &["C"]),
                release_for("B", "3.0.0", "*", &["C >= 9.0.0"]),
            ],
        ),
        ("C", vec![release("C", "0.5.0", &["base"]), release("C", "1.0.0", &[])]),
    ];
    let pairs = [("A", "<4.0.0"), ("B", "*")];
    let reqs = requirements(&pairs);
    let (closure, _) = load(&catalogue, &reqs);
    let solution = solve(&closure, &reqs).unwrap();
    let game_version = ReleaseVersion::new(0, 15, 0);
    for (name, release) in &solution {
        if let Some(req) = reqs.get(name) {
            assert!(req.matches(&release.version));
        }
        assert!(release.factorio_version.matches(&game_version));
        for dep in &release.dependencies {
            let by_release = solution
                .iter()
                .any(|(n, r)| n == dep.name() && dep.version().matches(&r.version));
            let by_game = dep.name().as_str() == "base" && dep.version().matches(&game_version);
            assert!(by_release || by_game || !dep.required());
        }
    }
    let mut names: Vec<(String, String)> =
        solution.iter().map(|(n, r)| (n.to_string(), r.version.to_string())).collect();
    names.sort();
    assert_eq!(names, picked(&[("A", "3.0.0"), ("B", "2.0.0"), ("C", "1.0.0")]));
}

#[test]
fn requirements_replace_and_find() {
    let mut reqs = Requirements::new();
    assert_eq!(reqs.len(), 0);
    reqs.insert(ModName("A".to_string()), ModVersionReq(VersionReq::Any));
    reqs.insert(ModName("B".to_string()), ModVersionReq(VersionReq::Any));
    let exact = ModVersionReq(VersionReq::Exact(ReleaseVersion::new(1, 0, 0)));
    reqs.insert(ModName("A".to_string()), exact);
    assert_eq!(reqs.len(), 2);
    assert_eq!(reqs.get(&ModName("A".to_string())), Some(exact));
    assert_eq!(reqs.get(&ModName("C".to_string())), None);
    assert!(reqs.contains_key(&ModName("B".to_string())));
    assert_eq!(reqs.name(0).as_str(), "A");
}
