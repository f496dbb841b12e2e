use kea::config::{gen_config, PacmanRepo, PacmanSettings, Sources};

fn settings() -> PacmanSettings {
    PacmanSettings {
        root_dir: "/".to_string(),
        db_path: "/var/lib/pacman/".to_string(),
        architecture: "x86_64".to_string(),
        ignore_pkg: vec!["linux".to_string()],
        ignore_group: vec![],
        repos: vec![
            PacmanRepo { name: "core".to_string(), servers: vec!["https://a/core".to_string()] },
            PacmanRepo {
                name: "extra".to_string(),
                servers: vec!["https://a/extra".to_string(), "https://b/extra".to_string()],
            },
        ],
    }
}

#[test]
fn generated_config_takes_pacman_settings() {
    let cfg = gen_config(settings());
    assert_eq!(cfg.build.build_dir(), "~/.cache/kea");
    assert_eq!(cfg.build.makepkg_path(), "makepkg");
    assert!(!cfg.build.keep_source());
    assert_eq!(cfg.packages.search_aur_local_under, 80);
    assert_eq!(cfg.packages.sync_dbs, vec!["core", "extra"]);
    assert_eq!(cfg.alpm.root_dir, "/");
    assert_eq!(cfg.alpm.db_path, "/var/lib/pacman/");
    assert_eq!(cfg.alpm.architecture, "x86_64");
    assert_eq!(cfg.alpm.ignore_pkg, vec!["linux"]);
    assert!(cfg.alpm.ignore_group.is_empty());
    assert_eq!(cfg.sources.len(), 2);
    assert_eq!(cfg.sources.get(&"extra".to_string()).unwrap(), &vec!["https://a/extra".to_string(), "https://b/extra".to_string()]);
    assert_eq!(cfg.sources.get(&"core".to_string()).unwrap(), &vec!["https://a/core".to_string()]);
    assert!(cfg.sources.get(&"community".to_string()).is_none());
}

#[test]
fn later_repository_of_same_name_wins() {
    let mut s = settings();
    s.repos.push(PacmanRepo { name: "core".to_string(), servers: vec!["https://c/core".to_string()] });
    let cfg = gen_config(s);
    assert_eq!(cfg.packages.sync_dbs, vec!["core", "extra", "core"]);
    assert_eq!(cfg.sources.len(), 2);
    assert_eq!(cfg.sources.get(&"core".to_string()).unwrap(), &vec!["https://c/core".to_string()]);
}

#[test]
fn sources_read_back_what_was_written() {
    let mut s = Sources::new();
    assert_eq!(s.len(), 0);
    s.insert("core".to_string(), vec!["x".to_string()]);
    s.insert("extra".to_string(), vec![]);
    assert_eq!(s.get(&"core".to_string()).unwrap(), &vec!["x".to_string()]);
    s.insert("core".to_string(), vec!["y".to_string(), "z".to_string()]);
    assert_eq!(s.get(&"core".to_string()).unwrap(), &vec!["y".to_string(), "z".to_string()]);
    assert_eq!(s.get(&"extra".to_string()).unwrap().len(), 0);
    assert_eq!(s.len(), 2);
    assert_eq!(s.entries().len(), 2);
    assert_eq!(s.entries()[0].0, "core");
}
