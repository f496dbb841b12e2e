//! The configuration of the tool: where pacman keeps its files, which sync
//! databases to use and the servers of each, and search and build settings.
use vstd::prelude::*;
use vstd::string::StringExecFns;

verus! {

/// The views of a sequence of strings.
pub open spec fn strings_view(s: Seq<String>) -> Seq<Seq<char>> {
    s.map_values(|x: String| x@)
}

/// A copy of a vector of strings.
pub fn clone_strings(v: &Vec<String>) -> (res: Vec<String>)
    ensures
        strings_view(res@) == strings_view(v@),
{
    let mut out: Vec<String> = Vec::new();
    let n = v.len();
    let mut i: usize = 0;
    while i < n
        invariant
            0 <= i <= n,
            n == v.len(),
            strings_view(out@) == strings_view(v@.take(i as int)),
        decreases n - i,
    {
        let ghost before = out@;
        out.push(v[i].clone());
        proof {
            assert(strings_view(out@) =~= strings_view(before).push(v@[i as int]@));
            assert(strings_view(v@.take(i as int + 1)) =~= strings_view(v@.take(i as int)).push(v@[i as int]@));
        }
        i = i + 1;
    }
    proof {
        assert(v@.take(n as int) =~= v@);
    }
    out
}

/// Display settings (none yet).
pub struct DisplayConfig {}

/// Where packages are built and with what.
pub struct BuildConfig {
    build_dir: String,
    makepkg_path: String,
    keep_source: bool,
}

impl BuildConfig {
    pub closed spec fn spec_build_dir(&self) -> Seq<char> {
        self.build_dir@
    }

    pub closed spec fn spec_makepkg_path(&self) -> Seq<char> {
        self.makepkg_path@
    }

    pub closed spec fn spec_keep_source(&self) -> bool {
        self.keep_source
    }

    /// Build settings with the given directory, makepkg program and choice
    /// whether to keep the sources.
    pub fn new(build_dir: String, makepkg_path: String, keep_source: bool) -> (res: BuildConfig)
        ensures
            res.spec_build_dir() == build_dir@,
            res.spec_makepkg_path() == makepkg_path@,
            res.spec_keep_source() == keep_source,
    {
        BuildConfig { build_dir, makepkg_path, keep_source }
    }

    /// The directory packages are built in.
    pub fn build_dir(&self) -> (res: &String)
        ensures
            res@ == self.spec_build_dir(),
    {
        &self.build_dir
    }

    /// The makepkg program.
    pub fn makepkg_path(&self) -> (res: &String)
        ensures
            res@ == self.spec_makepkg_path(),
    {
        &self.makepkg_path
    }

    /// Whether sources are kept after a build.
    pub fn keep_source(&self) -> (res: bool)
        ensures
            res == self.spec_keep_source(),
    {
        self.keep_source
    }
}

/// Package search settings: local results at or under this count make the
/// search ask the AUR too; and the sync databases to register.
pub struct PackagesConfig {
    pub search_aur_local_under: usize,
    pub sync_dbs: Vec<String>,
}

/// pacman's own settings, as the tool reads them.
pub struct AlpmConfig {
    pub root_dir: String,
    pub db_path: String,
    pub architecture: String,
    pub ignore_pkg: Vec<String>,
    pub ignore_group: Vec<String>,
}

/// The servers of each sync database, by database name. No name occurs twice.
pub struct Sources {
    pkg_sources: Vec<(String, Vec<String>)>,
}

/// The map from database name to servers that a sequence of entries with
/// distinct names stands for (a later entry of a name wins).
pub open spec fn entries_map(s: Seq<(String, Vec<String>)>) -> Map<Seq<char>, Seq<Seq<char>>>
    decreases s.len(),
{
    if s.len() == 0 {
        Map::empty()
    } else {
        entries_map(s.drop_last()).insert(s.last().0@, strings_view(s.last().1@))
    }
}

/// No two entries have the same name.
pub open spec fn distinct_names(s: Seq<(String, Vec<String>)>) -> bool {
    forall|i: int, j: int| 0 <= i < s.len() && 0 <= j < s.len() && i != j ==> s[i].0@ != s[j].0@
}

proof fn lemma_entries_map(s: Seq<(String, Vec<String>)>)
    requires
        distinct_names(s),
    ensures
        forall|i: int| 0 <= i < s.len() ==> #[trigger] entries_map(s).contains_key(s[i].0@)
            && entries_map(s)[s[i].0@] == strings_view(s[i].1@),
        forall|k: Seq<char>| #[trigger] entries_map(s).contains_key(k) ==> exists|i: int| 0 <= i < s.len() && s[i].0@ == k,
        entries_map(s).dom().finite(),
        entries_map(s).len() == s.len(),
    decreases s.len(),
{
    if s.len() > 0 {
        let d = s.drop_last();
        assert(distinct_names(d));
        lemma_entries_map(d);
        let l = s.last();
        assert(!entries_map(d).contains_key(l.0@)) by {
            if entries_map(d).contains_key(l.0@) {
                let i = choose|i: int| 0 <= i < d.len() && d[i].0@ == l.0@;
                assert(s[i] == d[i]);
                assert(s[s.len() - 1] == l);
            }
        }
        assert forall|i: int| 0 <= i < s.len() implies #[trigger] entries_map(s).contains_key(s[i].0@)
            && entries_map(s)[s[i].0@] == strings_view(s[i].1@) by {
            if i < d.len() {
                assert(s[i] == d[i]);
                assert(s[s.len() - 1] == l);
            }
        }
        assert forall|k: Seq<char>| #[trigger] entries_map(s).contains_key(k) implies exists|i: int| 0 <= i < s.len() && s[i].0@ == k by {
            if k == l.0@ {
                assert(s[s.len() - 1] == l);
            } else {
                let i = choose|i: int| 0 <= i < d.len() && d[i].0@ == k;
                assert(s[i] == d[i]);
            }
        }
    }
}

proof fn lemma_entries_map_update(s: Seq<(String, Vec<String>)>, i: int, e: (String, Vec<String>))
    requires
        distinct_names(s),
        0 <= i < s.len(),
        s[i].0@ == e.0@,
    ensures
        distinct_names(s.update(i, e)),
        entries_map(s.update(i, e)) == entries_map(s).insert(e.0@, strings_view(e.1@)),
{
    let t = s.update(i, e);
    assert(distinct_names(t));
    lemma_entries_map(s);
    lemma_entries_map(t);
    assert forall|k: Seq<char>| #[trigger] entries_map(t).contains_key(k) <==> entries_map(s).insert(e.0@, strings_view(e.1@)).contains_key(k) by {
        if entries_map(t).contains_key(k) {
            let j = choose|j: int| 0 <= j < t.len() && t[j].0@ == k;
            if j != i {
                assert(s[j] == t[j]);
            }
        }
        if entries_map(s).contains_key(k) {
            let j = choose|j: int| 0 <= j < s.len() && s[j].0@ == k;
            if j != i {
                assert(s[j] == t[j]);
            } else {
                assert(t[i] == e);
            }
        }
        if k == e.0@ {
            assert(t[i] == e);
        }
    }
    assert forall|k: Seq<char>| #[trigger] entries_map(t).contains_key(k) implies entries_map(t)[k] == entries_map(s).insert(e.0@, strings_view(e.1@))[k] by {
        let j = choose|j: int| 0 <= j < t.len() && t[j].0@ == k;
        if j != i {
            assert(s[j] == t[j]);
        } else {
            assert(t[i] == e);
        }
    }
    assert(entries_map(t) =~= entries_map(s).insert(e.0@, strings_view(e.1@)));
}

impl View for Sources {
    type V = Map<Seq<char>, Seq<Seq<char>>>;

    closed spec fn view(&self) -> Map<Seq<char>, Seq<Seq<char>>> {
        entries_map(self.pkg_sources@)
    }
}

impl Sources {
    #[verifier::type_invariant]
    spec fn names_distinct(&self) -> bool {
        distinct_names(self.pkg_sources@)
    }

    /// No servers for any database.
    pub fn new() -> (res: Sources)
        ensures
            res@ == Map::<Seq<char>, Seq<Seq<char>>>::empty(),
    {
        let res = Sources { pkg_sources: Vec::new() };
        proof {
            assert(res@ =~= Map::<Seq<char>, Seq<Seq<char>>>::empty());
        }
        res
    }

    /// The number of databases that have servers.
    pub fn len(&self) -> (n: usize)
        ensures
            n == self@.len(),
            self@.dom().finite(),
    {
        proof {
            use_type_invariant(self);
            lemma_entries_map(self.pkg_sources@);
        }
        self.pkg_sources.len()
    }

    fn position(&self, name: &String) -> (res: Option<usize>)
        ensures
            match res {
                Some(i) => i < self.pkg_sources@.len() && self.pkg_sources@[i as int].0@ == name@,
                None => forall|i: int| 0 <= i < self.pkg_sources@.len() ==> self.pkg_sources@[i].0@ != name@,
            },
    {
        let n = self.pkg_sources.len();
        let mut i: usize = 0;
        while i < n
            invariant
                0 <= i <= n,
                n == self.pkg_sources@.len(),
                forall|j: int| 0 <= j < i ==> self.pkg_sources@[j].0@ != name@,
            decreases n - i,
        {
            if self.pkg_sources[i].0 == *name {
                return Some(i);
            }
            i = i + 1;
        }
        None
    }

    /// The servers of database `name`, if it has any entry.
    pub fn get(&self, name: &String) -> (res: Option<&Vec<String>>)
        ensures
            match res {
                Some(v) => self@.contains_key(name@) && strings_view(v@) == self@[name@],
                None => !self@.contains_key(name@),
            },
    {
        proof {
            use_type_invariant(self);
            lemma_entries_map(self.pkg_sources@);
        }
        match self.position(name) {
            Some(i) => {
                proof {
                    assert(entries_map(self.pkg_sources@).contains_key(self.pkg_sources@[i as int].0@));
                }
                Some(&self.pkg_sources[i].1)
            },
            None => {
                proof {
                    if self@.contains_key(name@) {
                        let j = choose|j: int| 0 <= j < self.pkg_sources@.len() && self.pkg_sources@[j].0@ == name@;
                    }
                }
                None
            },
        }
    }

    /// Sets the servers of database `name`, replacing those it had.
    pub fn insert(&mut self, name: String, servers: Vec<String>)
        ensures
            final(self)@ == old(self)@.insert(name@, strings_view(servers@)),
    {
        proof {
            use_type_invariant(&*self);
            lemma_entries_map(self.pkg_sources@);
        }
        let ghost e = (name, servers);
        match self.position(&name) {
            Some(i) => {
                proof {
                    lemma_entries_map_update(self.pkg_sources@, i as int, e);
                }
                let mut entries = Vec::new();
                std::mem::swap(&mut entries, &mut self.pkg_sources);
                entries.set(i, (name, servers));
                self.pkg_sources = entries;
            },
            None => {
                let mut entries = Vec::new();
                std::mem::swap(&mut entries, &mut self.pkg_sources);
                let ghost before = entries@;
                entries.push((name, servers));
                proof {
                    assert(entries@.drop_last() =~= before);
                    assert forall|i: int, j: int| 0 <= i < entries@.len() && 0 <= j < entries@.len() && i != j
                        implies entries@[i].0@ != entries@[j].0@ by {
                        if i < before.len() && j < before.len() {
                            assert(entries@[i] == before[i] && entries@[j] == before[j]);
                        } else if i < before.len() {
                            assert(entries@[i] == before[i]);
                        } else {
                            assert(entries@[j] == before[j]);
                        }
                    }
                }
                self.pkg_sources = entries;
            },
        }
    }

    /// The entries, one per database name, in the order they were first set.
    pub fn entries(&self) -> (res: &Vec<(String, Vec<String>)>)
        ensures
            distinct_names(res@),
            entries_map(res@) == self@,
    {
        proof {
            use_type_invariant(self);
        }
        &self.pkg_sources
    }
}


/// Law of the server table: after the servers of a database are set, that
/// database reads back exactly those servers, and every other database reads
/// what it read before.
pub proof fn lemma_sources_insert_get(before: Sources, after: Sources, name: Seq<char>, servers: Seq<Seq<char>>)
    requires
        after@ == before@.insert(name, servers),
    ensures
        after@.contains_key(name),
        after@[name] == servers,
        forall|other: Seq<char>| other != name ==> (#[trigger] after@.contains_key(other) == before@.contains_key(other)
            && (before@.contains_key(other) ==> after@[other] == before@[other])),
{
}

/// The whole configuration.
pub struct Config {
    pub display: DisplayConfig,
    pub build: BuildConfig,
    pub packages: PackagesConfig,
    pub alpm: AlpmConfig,
    pub sources: Sources,
}

/// A repository of pacman's configuration: its name and its servers.
pub struct PacmanRepo {
    pub name: String,
    pub servers: Vec<String>,
}

/// The part of pacman's configuration that the tool takes over.
pub struct PacmanSettings {
    pub root_dir: String,
    pub db_path: String,
    pub architecture: String,
    pub ignore_pkg: Vec<String>,
    pub ignore_group: Vec<String>,
    pub repos: Vec<PacmanRepo>,
}

/// The names of the repositories, in order.
pub open spec fn repo_names(repos: Seq<PacmanRepo>) -> Seq<Seq<char>> {
    repos.map_values(|r: PacmanRepo| r.name@)
}

/// The servers of each repository by name; of two repositories with the
/// same name the later one counts.
pub open spec fn repos_map(repos: Seq<PacmanRepo>) -> Map<Seq<char>, Seq<Seq<char>>>
    decreases repos.len(),
{
    if repos.len() == 0 {
        Map::empty()
    } else {
        repos_map(repos.drop_last()).insert(repos.last().name@, strings_view(repos.last().servers@))
    }
}

/// The configuration generated from pacman's settings: builds in
/// "~/.cache/kea" with "makepkg" without keeping sources, asks the AUR when
/// 80 or fewer local packages match, registers pacman's repositories in
/// pacman's order with their servers, and takes pacman's root, database
/// path, architecture and ignore lists.
pub fn gen_config(pm: PacmanSettings) -> (res: Config)
    ensures
        res.build.spec_build_dir() == "~/.cache/kea"@,
        res.build.spec_makepkg_path() == "makepkg"@,
        res.build.spec_keep_source() == false,
        res.packages.search_aur_local_under == 80,
        strings_view(res.packages.sync_dbs@) == repo_names(pm.repos@),
        res.sources@ == repos_map(pm.repos@),
        res.alpm.root_dir@ == pm.root_dir@,
        res.alpm.db_path@ == pm.db_path@,
        res.alpm.architecture@ == pm.architecture@,
        strings_view(res.alpm.ignore_pkg@) == strings_view(pm.ignore_pkg@),
        strings_view(res.alpm.ignore_group@) == strings_view(pm.ignore_group@),
{
    let mut sources = Sources::new();
    let mut sync_dbs: Vec<String> = Vec::new();
    let n = pm.repos.len();
    let mut i: usize = 0;
    while i < n
        invariant
            0 <= i <= n,
            n == pm.repos@.len(),
            sources@ == repos_map(pm.repos@.take(i as int)),
            strings_view(sync_dbs@) == repo_names(pm.repos@.take(i as int)),
        decreases n - i,
    {
        let repo = &pm.repos[i];
        sources.insert(repo.name.clone(), clone_strings(&repo.servers));
        let ghost before = sync_dbs@;
        sync_dbs.push(repo.name.clone());
        proof {
            assert(pm.repos@.take(i as int + 1).drop_last() =~= pm.repos@.take(i as int));
            assert(strings_view(sync_dbs@) =~= strings_view(before).push(repo.name@));
            assert(repo_names(pm.repos@.take(i as int + 1)) =~= repo_names(pm.repos@.take(i as int)).push(repo.name@));
        }
        i = i + 1;
    }
    proof {
        assert(pm.repos@.take(n as int) =~= pm.repos@);
    }
    Config {
        display: DisplayConfig {},
        build: BuildConfig::new(String::from_str("~/.cache/kea"), String::from_str("makepkg"), false),
        packages: PackagesConfig { search_aur_local_under: 80, sync_dbs },
        alpm: AlpmConfig {
            root_dir: pm.root_dir,
            db_path: pm.db_path,
            architecture: pm.architecture,
            ignore_pkg: pm.ignore_pkg,
            ignore_group: pm.ignore_group,
        },
        sources,
    }
}

} // verus!
