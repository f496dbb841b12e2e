use kea::package::{PackageInfo, PackageInfoList};

fn info(name: &str, pop: i64) -> PackageInfo {
    PackageInfo {
        name: name.to_string(),
        source: "core".to_string(),
        description: format!("{} package", name),
        version: "1.0-1".to_string(),
        votes: 0,
        poplarity: pop,
    }
}

fn names(l: &PackageInfoList) -> Vec<String> {
    l.pkgs.iter().map(|p| p.name.clone()).collect()
}

#[test]
fn default_list_is_empty() {
    let l = PackageInfoList::default();
    assert_eq!(l.len(), 0);
}

#[test]
fn push_appends_at_the_end() {
    let mut l = PackageInfoList::default();
    l.push(info("a", 0));
    l.push(info("b", 0));
    assert_eq!(l.len(), 2);
    assert_eq!(names(&l), vec!["a", "b"]);
}

#[test]
fn merge_appends_other_list_in_order() {
    let mut l = PackageInfoList::default();
    l.push(info("a", 0));
    let mut m = PackageInfoList::default();
    m.push(info("b", 0));
    m.push(info("c", 0));
    l.merge(m);
    assert_eq!(names(&l), vec!["a", "b", "c"]);
}

#[test]
fn merge_into_empty_and_of_empty() {
    let mut l = PackageInfoList::default();
    l.merge(PackageInfoList::default());
    assert_eq!(l.len(), 0);
    let mut m = PackageInfoList::default();
    m.push(info("x", 0));
    l.merge(m);
    assert_eq!(names(&l), vec!["x"]);
}

#[test]
fn pick_takes_a_prefix_and_keeps_the_list() {
    let mut l = PackageInfoList::default();
    for n in ["a", "b", "c"] {
        l.push(info(n, 0));
    }
    let p = l.pick(2);
    assert_eq!(names(&p), vec!["a", "b"]);
    assert_eq!(names(&l), vec!["a", "b", "c"]);
    assert_eq!(l.pick(0).len(), 0);
}

#[test]
fn get_returns_a_copy() {
    let mut l = PackageInfoList::default();
    l.push(info("a", 3));
    l.push(info("b", 4));
    let p = l.get(1);
    assert_eq!(p.name, "b");
    assert_eq!(p.poplarity, 4);
    assert_eq!(p.description, "b package");
    assert_eq!(l.len(), 2);
}

#[test]
fn index_reads_in_place() {
    let mut l = PackageInfoList::default();
    l.push(info("a", 3));
    assert_eq!(l.index(0).name, "a");
}

#[test]
fn clone_copies_every_field() {
    let p = PackageInfo {
        name: "n".to_string(),
        source: "aur".to_string(),
        description: "d".to_string(),
        version: "2".to_string(),
        votes: 7,
        poplarity: -5,
    };
    let q = p.clone();
    assert_eq!(q.name, "n");
    assert_eq!(q.source, "aur");
    assert_eq!(q.description, "d");
    assert_eq!(q.version, "2");
    assert_eq!(q.votes, 7);
    assert_eq!(q.poplarity, -5);
}
