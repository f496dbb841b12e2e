use kea::package::PackageInfo;
use kea::search::{search_aur, search_pkg_cashe, AlpmPackage, AurPackage};

fn aur(name: &str, pop: i64) -> AurPackage {
    AurPackage {
        name: name.to_string(),
        description: Some(format!("{} desc", name)),
        version: "1".to_string(),
        num_votes: 3,
        popularity: pop,
    }
}

fn alpm(name: &str, db: &str) -> AlpmPackage {
    AlpmPackage {
        name: name.to_string(),
        db_name: db.to_string(),
        description: "d".to_string(),
        version: "2.0".to_string(),
    }
}

#[test]
fn aur_package_becomes_aur_info() {
    let p = PackageInfo::from_aur(aur("yay", 12));
    assert_eq!(p.name, "yay");
    assert_eq!(p.source, "aur");
    assert_eq!(p.description, "yay desc");
    assert_eq!(p.version, "1");
    assert_eq!(p.votes, 3);
    assert_eq!(p.poplarity, 12);
}

#[test]
fn missing_aur_description_reads_dash() {
    let mut a = aur("x", 0);
    a.description = None;
    assert_eq!(PackageInfo::from_aur(a).description, "-");
}

#[test]
fn database_package_has_its_database_as_source() {
    let p = PackageInfo::from_alpm(alpm("vim", "extra"));
    assert_eq!(p.name, "vim");
    assert_eq!(p.source, "extra");
    assert_eq!(p.description, "d");
    assert_eq!(p.version, "2.0");
    assert_eq!(p.votes, 0);
    assert_eq!(p.poplarity, 0);
}

#[test]
fn aur_results_ascend_by_popularity() {
    let l = search_aur(vec![aur("c", 30), aur("a", 10), aur("b", 20), aur("n", -4)]);
    let names: Vec<String> = l.pkgs.iter().map(|p| p.name.clone()).collect();
    assert_eq!(names, vec!["n", "a", "b", "c"]);
}

#[test]
fn aur_results_of_equal_popularity_keep_their_order() {
    let l = search_aur(vec![aur("x1", 5), aur("y", 1), aur("x2", 5), aur("x3", 5), aur("z", 9)]);
    let names: Vec<String> = l.pkgs.iter().map(|p| p.name.clone()).collect();
    assert_eq!(names, vec!["y", "x1", "x2", "x3", "z"]);
}

#[test]
fn empty_aur_results_give_empty_list() {
    assert_eq!(search_aur(vec![]).len(), 0);
}

#[test]
fn cache_search_lists_databases_in_order() {
    let l = search_pkg_cashe(vec![
        vec![alpm("a", "core"), alpm("b", "core")],
        vec![],
        vec![alpm("c", "extra")],
    ]);
    let got: Vec<(String, String)> = l.pkgs.iter().map(|p| (p.name.clone(), p.source.clone())).collect();
    assert_eq!(
        got,
        vec![
            ("a".to_string(), "core".to_string()),
            ("b".to_string(), "core".to_string()),
            ("c".to_string(), "extra".to_string())
        ]
    );
}
