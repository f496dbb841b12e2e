use kea::config::{gen_config, PacmanSettings};
use kea::kea::{
    select_packages, start, start_with_kea, DbUpdate, Kea, KeaCommand, KeaOptions, KeaRun, SelectionStep,
    StartError, UpgradeAction,
};
use kea::package::{PackageInfo, PackageInfoList};

fn info(name: &str) -> PackageInfo {
    PackageInfo {
        name: name.to_string(),
        source: "core".to_string(),
        description: String::new(),
        version: "1".to_string(),
        votes: 0,
        poplarity: 0,
    }
}

fn list(names: &[&str]) -> PackageInfoList {
    let mut l = PackageInfoList::default();
    for n in names {
        l.push(info(n));
    }
    l
}

fn names(l: &PackageInfoList) -> Vec<String> {
    l.pkgs.iter().map(|p| p.name.clone()).collect()
}

fn kea(aur: bool, local: bool, sync: bool, upgrade: bool, package: Option<&str>, threshold: usize) -> Kea {
    let mut config = gen_config(PacmanSettings {
        root_dir: "/".to_string(),
        db_path: "/db".to_string(),
        architecture: "x86_64".to_string(),
        ignore_pkg: vec![],
        ignore_group: vec![],
        repos: vec![],
    });
    config.packages.search_aur_local_under = threshold;
    Kea {
        options: KeaOptions { aur, local, sync, upgrade, package: package.map(|s| s.to_string()) },
        config,
        help_string: "help".to_string(),
    }
}

fn drain(run: &mut KeaRun) -> Vec<KeaCommand> {
    let mut out = Vec::new();
    while let Some(c) = run.next_step() {
        out.push(c);
    }
    out
}

fn tags(cmds: &[KeaCommand]) -> Vec<String> {
    cmds.iter()
        .map(|c| match c {
            KeaCommand::RegisterCallbacks => "callbacks".to_string(),
            KeaCommand::UpdateDbs => "sync".to_string(),
            KeaCommand::UpdatePackages => "upgrade".to_string(),
            KeaCommand::Install(q) => format!("install {}", q),
            KeaCommand::NothingToDo => "nothing".to_string(),
            KeaCommand::PrintHelp => "help".to_string(),
            KeaCommand::Release => "release".to_string(),
        })
        .collect()
}

#[test]
fn sync_without_root_is_refused() {
    let k = kea(false, false, true, false, None, 80);
    let mut run = start_with_kea(&k, false);
    assert_eq!(tags(&drain(&mut run)), vec!["callbacks"]);
    assert_eq!(run.outcome(), Err(StartError::SyncRequiresRoot));
}

#[test]
fn sync_as_root_then_nothing_more() {
    let k = kea(false, false, true, false, None, 80);
    let mut run = start_with_kea(&k, true);
    assert_eq!(tags(&drain(&mut run)), vec!["callbacks", "sync", "release"]);
    assert_eq!(run.outcome(), Ok(()));
}

#[test]
fn no_options_says_nothing_to_do() {
    let k = kea(false, false, false, false, None, 80);
    assert_eq!(tags(&drain(&mut start_with_kea(&k, false))), vec!["callbacks", "nothing", "release"]);
}

#[test]
fn upgrade_alone_still_says_nothing_to_do() {
    let k = kea(false, false, false, true, None, 80);
    assert_eq!(tags(&drain(&mut start_with_kea(&k, false))), vec!["callbacks", "upgrade", "nothing", "release"]);
}

#[test]
fn everything_at_once() {
    let k = kea(false, false, true, true, Some("vim"), 80);
    assert_eq!(
        tags(&drain(&mut start_with_kea(&k, true))),
        vec!["callbacks", "sync", "upgrade", "install vim", "release"]
    );
}

#[test]
fn plain_start_prints_help_without_work() {
    assert_eq!(tags(&drain(&mut start(&kea(false, false, false, false, None, 80)))), vec!["help"]);
    assert_eq!(tags(&drain(&mut start(&kea(false, false, false, true, None, 80)))), vec!["upgrade"]);
    assert_eq!(tags(&drain(&mut start(&kea(false, false, false, true, Some("x"), 80)))), vec!["upgrade", "install x"]);
}

#[test]
fn search_asks_aur_when_few_local_matches() {
    let k = kea(false, false, false, false, Some("q"), 2);
    let (mut sel, step) = k.handle_package_selection();
    assert_eq!(step, SelectionStep::SearchCache);
    assert_eq!(sel.cache_found(list(&["l1", "l2"])), SelectionStep::SearchAur);
    assert_eq!(sel.aur_found(list(&["a1"])), SelectionStep::Choose);
    assert_eq!(names(sel.packages()), vec!["a1", "l1", "l2"]);
    assert!(sel.aur_error().is_none());
}

#[test]
fn search_skips_aur_when_many_local_matches() {
    let k = kea(false, false, false, false, Some("q"), 1);
    let (mut sel, _) = k.handle_package_selection();
    assert_eq!(sel.cache_found(list(&["l1", "l2"])), SelectionStep::Choose);
}

#[test]
fn aur_only_search_skips_the_cache() {
    let k = kea(true, false, false, false, Some("q"), 80);
    let (_, step) = k.handle_package_selection();
    assert_eq!(step, SelectionStep::SearchAur);
}

#[test]
fn aur_only_and_local_only_find_nothing() {
    let k = kea(true, true, false, false, Some("q"), 80);
    let (_, step) = k.handle_package_selection();
    assert_eq!(step, SelectionStep::NoPackages);
}

#[test]
fn local_only_never_asks_aur() {
    let k = kea(false, true, false, false, Some("q"), 80);
    let (mut sel, _) = k.handle_package_selection();
    assert_eq!(sel.cache_found(PackageInfoList::default()), SelectionStep::NoPackages);
}

#[test]
fn failed_aur_search_keeps_local_matches() {
    let k = kea(false, false, false, false, Some("q"), 80);
    let (mut sel, _) = k.handle_package_selection();
    sel.cache_found(list(&["l1"]));
    assert_eq!(sel.aur_failed("timeout".to_string()), SelectionStep::Choose);
    assert_eq!(names(sel.packages()), vec!["l1"]);
    assert_eq!(sel.aur_error().as_deref(), Some("timeout"));
}

#[test]
fn numbers_select_counting_down() {
    let pkgs = list(&["a", "b", "c", "d"]);
    // "d" is listed as 1, "c" as 2, "b" as 3, "a" as 4.
    assert_eq!(names(&select_packages(&pkgs, &vec![1, 3])), vec!["d", "b"]);
}

#[test]
fn out_of_range_numbers_select_nothing() {
    let pkgs = list(&["a", "b", "c"]);
    assert_eq!(names(&select_packages(&pkgs, &vec![3, -1, 7])), Vec::<String>::new());
}

#[test]
fn listed_number_selects_listed_package() {
    let pkgs = list(&["a", "b", "c"]);
    for i in 1..3usize {
        let n = (3 - i) as i32;
        assert_eq!(names(&select_packages(&pkgs, &vec![n])), vec![pkgs.pkgs[i].name.clone()]);
    }
}

#[test]
fn selection_through_session() {
    let k = kea(false, false, false, false, Some("q"), 0);
    let (mut sel, _) = k.handle_package_selection();
    sel.cache_found(list(&["x", "y"]));
    assert_eq!(names(&sel.select(&vec![1])), vec!["y"]);
}

#[test]
fn update_report() {
    let r = Kea::update_packages(&list(&["a"]), &PackageInfoList::default());
    assert!(r.show_alpm && !r.show_aur && !r.up_to_date);
    let r = Kea::update_packages(&PackageInfoList::default(), &PackageInfoList::default());
    assert!(!r.show_alpm && !r.show_aur && r.up_to_date);
}

#[test]
fn install_lists_names() {
    assert_eq!(Kea::install(&list(&["a", "b"])), vec!["a", "b"]);
}

#[test]
fn database_update_outcomes() {
    assert_eq!(Kea::update_dbs_outcome(-1), DbUpdate::Failed);
    assert_eq!(Kea::update_dbs_outcome(1), DbUpdate::UpToDate);
    assert_eq!(Kea::update_dbs_outcome(0), DbUpdate::Updated);
}

#[test]
fn upgrade_steps_always_end_false() {
    let s = Kea::update_alpm_packages(None, true);
    assert_eq!(s, UpgradeAction::TransInit);
    assert_eq!(Kea::update_alpm_packages(Some(s), false), UpgradeAction::Finish(false));
    let s2 = Kea::update_alpm_packages(Some(s), true);
    assert_eq!(s2, UpgradeAction::SysUpgrade);
    assert_eq!(Kea::update_alpm_packages(Some(s2), true), UpgradeAction::Finish(false));
    let s3 = Kea::update_alpm_packages(Some(s2), false);
    assert_eq!(s3, UpgradeAction::TransRelease);
    assert_eq!(Kea::update_alpm_packages(Some(s3), true), UpgradeAction::Finish(false));
}

#[test]
fn failed_install_ends_the_run_with_its_error() {
    let k = kea(false, false, true, true, Some("vim"), 80);
    let mut run = start_with_kea(&k, true);
    let mut done = Vec::new();
    while let Some(c) = run.next_step() {
        let is_install = matches!(c, KeaCommand::Install(_));
        done.push(c);
        if is_install {
            run.install_failed("no such package".to_string());
        }
    }
    assert_eq!(tags(&done), vec!["callbacks", "sync", "upgrade", "install vim"]);
    assert_eq!(run.outcome(), Err(StartError::InstallFailed("no such package".to_string())));
}

#[test]
fn plain_run_ends_with_install_error() {
    let mut run = start(&kea(false, false, false, true, Some("q"), 80));
    assert_eq!(tags(&[run.next_step().unwrap()]), vec!["upgrade"]);
    assert_eq!(tags(&[run.next_step().unwrap()]), vec!["install q"]);
    run.install_failed("boom".to_string());
    assert!(run.next_step().is_none());
    assert_eq!(run.outcome(), Err(StartError::InstallFailed("boom".to_string())));
}
