use kea::search::{AlpmPackage, AurPackage};
use kea::upgrade::{get_pkgs, local_versions, outdated_aur, outdated_aur_by_order, outdated_repo_packages, AurQueryPlan, MAX_SEARCH_PKGS};

fn alpm(name: &str, db: &str, version: &str) -> AlpmPackage {
    AlpmPackage {
        name: name.to_string(),
        db_name: db.to_string(),
        description: String::new(),
        version: version.to_string(),
    }
}

fn aur(name: &str, version: &str) -> AurPackage {
    AurPackage {
        name: name.to_string(),
        description: None,
        version: version.to_string(),
        num_votes: 0,
        popularity: 0,
    }
}

#[test]
fn installed_packages_split_into_repository_and_aur() {
    let local = vec![alpm("vim", "local", "1"), alpm("yay", "local", "2"), alpm("git", "local", "3")];
    let dbs = vec![
        vec![alpm("git", "core", "3.1")],
        vec![alpm("vim", "extra", "1.5"), alpm("git", "extra", "9")],
    ];
    let (repo, aurs) = get_pkgs(&local, &dbs);
    let repo: Vec<(String, String)> = repo.iter().map(|p| (p.name.clone(), p.db_name.clone())).collect();
    assert_eq!(repo, vec![("vim".to_string(), "extra".to_string()), ("git".to_string(), "core".to_string())]);
    let aurs: Vec<String> = aurs.iter().map(|p| p.name.clone()).collect();
    assert_eq!(aurs, vec!["yay"]);
}

#[test]
fn no_sync_databases_means_everything_is_aur() {
    let local = vec![alpm("a", "local", "1"), alpm("b", "local", "1")];
    let (repo, aurs) = get_pkgs(&local, &vec![]);
    assert_eq!(repo.len(), 0);
    assert_eq!(aurs.len(), 2);
}

#[test]
fn outdated_repository_packages_follow_flags() {
    let pkgs = vec![alpm("a", "core", "1"), alpm("b", "extra", "1"), alpm("c", "core", "1")];
    let l = outdated_repo_packages(&pkgs, &vec![true, false, true]);
    let got: Vec<(String, String)> = l.pkgs.iter().map(|p| (p.name.clone(), p.source.clone())).collect();
    assert_eq!(got, vec![("a".to_string(), "core".to_string()), ("c".to_string(), "core".to_string())]);
}

#[test]
fn query_plan_asks_for_all_of_a_short_list_at_once() {
    let mut plan = AurQueryPlan::new(12);
    assert_eq!(plan.next_range(), Some((0, 12)));
    assert_eq!(plan.next_range(), None);
}

#[test]
fn query_plan_of_empty_list_asks_nothing() {
    let mut plan = AurQueryPlan::new(0);
    assert_eq!(plan.next_range(), None);
}

#[test]
fn query_plan_of_exactly_max_names() {
    let mut plan = AurQueryPlan::new(MAX_SEARCH_PKGS);
    assert_eq!(plan.next_range(), Some((0, 30)));
    assert_eq!(plan.next_range(), None);
}

#[test]
fn query_plan_second_range_ends_past_current_twice() {
    let mut plan = AurQueryPlan::new(100);
    assert_eq!(plan.next_range(), Some((0, 30)));
    assert_eq!(plan.next_range(), Some((30, 90)));
}

#[test]
fn versions_of_installed_packages_by_name() {
    let local = vec![alpm("yay", "local", "10.0"), alpm("paru", "local", "1.1")];
    let remote = vec![aur("paru", "1.2"), aur("ghost", "1"), aur("yay", "9")];
    let v = local_versions(&local, &remote);
    assert_eq!(v, vec![Some("1.1".to_string()), None, Some("10.0".to_string())]);
}

#[test]
fn outdated_aur_keeps_newer_and_names_missing() {
    let remote = vec![aur("paru", "1.2"), aur("ghost", "1"), aur("yay", "9")];
    let found = vec![Some("1.1".to_string()), None, Some("10.0".to_string())];
    let (newer, missing) = outdated_aur_by_order(remote, &found, &vec![-1, 0, 1]);
    let names: Vec<String> = newer.pkgs.iter().map(|p| p.name.clone()).collect();
    assert_eq!(names, vec!["paru"]);
    assert_eq!(newer.pkgs[0].source, "aur");
    assert_eq!(newer.pkgs[0].version, "1.2");
    assert_eq!(missing, vec!["ghost"]);
}

#[test]
fn equal_versions_are_not_outdated() {
    let (newer, missing) = outdated_aur_by_order(vec![aur("a", "1")], &vec![Some("1".to_string())], &vec![0]);
    assert_eq!(newer.len(), 0);
    assert!(missing.is_empty());
}

fn numeric_order(a: &String, b: &String) -> i32 {
    let x: i64 = a.parse().unwrap();
    let y: i64 = b.parse().unwrap();
    if x < y {
        -1
    } else if x == y {
        0
    } else {
        1
    }
}

#[test]
fn outdated_aur_compares_installed_with_aur_version() {
    let remote = vec![aur("paru", "12"), aur("ghost", "1"), aur("yay", "9"), aur("same", "4")];
    let found = vec![Some("11".to_string()), None, Some("10".to_string()), Some("4".to_string())];
    let (newer, missing) = outdated_aur(remote, &found, numeric_order);
    let names: Vec<String> = newer.pkgs.iter().map(|p| p.name.clone()).collect();
    assert_eq!(names, vec!["paru"]);
    assert_eq!(missing, vec!["ghost"]);
}

#[test]
fn outdated_aur_asks_installed_version_first() {
    let asked = std::cell::RefCell::new(Vec::new());
    let remote = vec![aur("a", "2"), aur("b", "5")];
    let found = vec![Some("1".to_string()), None];
    let (newer, _) = outdated_aur(remote, &found, |x: &String, y: &String| {
        asked.borrow_mut().push((x.clone(), y.clone()));
        numeric_order(x, y)
    });
    assert_eq!(newer.len(), 1);
    assert_eq!(asked.into_inner(), vec![("1".to_string(), "2".to_string())]);
}

#[test]
fn failed_request_ends_the_plan() {
    let mut plan = AurQueryPlan::new(100);
    assert_eq!(plan.next_range(), Some((0, 30)));
    plan.request_failed();
    assert_eq!(plan.next_range(), None);
    assert_eq!(plan.into_outdated().len(), 0);
}

#[test]
fn answers_add_up_until_a_request_fails() {
    let local = vec![alpm("a", "local", "1"), alpm("b", "local", "5"), alpm("c", "local", "2")];
    let mut plan = AurQueryPlan::new(3);
    assert_eq!(plan.next_range(), Some((0, 3)));
    let missing = plan.request_answered(&local, vec![aur("a", "2"), aur("zz", "1")], numeric_order);
    assert_eq!(missing, vec!["zz"]);
    let missing = plan.request_answered(&local, vec![aur("b", "4"), aur("c", "3")], numeric_order);
    assert!(missing.is_empty());
    assert_eq!(plan.current_pkg(), 30);
    plan.request_failed();
    assert_eq!(plan.next_range(), None);
    let names: Vec<String> = plan.into_outdated().pkgs.iter().map(|p| p.name.clone()).collect();
    assert_eq!(names, vec!["a", "c"]);
}
