//! The decisions of a run of the tool: which steps a command line asks for,
//! how a package search goes on from what each search found, which packages
//! the user's numbers select, and how a system upgrade proceeds.
use vstd::prelude::*;
use crate::config::Config;
use crate::package::{PackageInfo, PackageInfoList, PackageInfoView};

verus! {

/// What the command line asked for: search the AUR only, search the local
/// databases only, sync the databases, upgrade, and the package to look for.
pub struct KeaOptions {
    pub aur: bool,
    pub local: bool,
    pub sync: bool,
    pub upgrade: bool,
    pub package: Option<String>,
}

/// A run of the tool: its options, its configuration and its help text.
pub struct Kea {
    pub options: KeaOptions,
    pub config: Config,
    pub help_string: String,
}

/// A step of a run.
#[derive(Debug)]
pub enum KeaCommand {
    /// Register the log, download and question callbacks with libalpm.
    RegisterCallbacks,
    /// Sync the package databases.
    UpdateDbs,
    /// Report the packages that have newer versions.
    UpdatePackages,
    /// Search for the package and install the ones the user selects.
    Install(String),
    /// Say that there is nothing to do.
    NothingToDo,
    /// Print the help text.
    PrintHelp,
    /// Release the libalpm handle.
    Release,
}

/// Why a run ends with an error.
#[derive(Debug, PartialEq, Eq)]
pub enum StartError {
    /// Syncing the databases (-s, --sync) needs root.
    SyncRequiresRoot,
    /// Installing the package asked for failed, with this message.
    InstallFailed(String),
}

impl Clone for KeaCommand {
    fn clone(&self) -> (res: Self)
        ensures
            res == *self,
    {
        match self {
            KeaCommand::RegisterCallbacks => KeaCommand::RegisterCallbacks,
            KeaCommand::UpdateDbs => KeaCommand::UpdateDbs,
            KeaCommand::UpdatePackages => KeaCommand::UpdatePackages,
            KeaCommand::Install(q) => KeaCommand::Install(q.clone()),
            KeaCommand::NothingToDo => KeaCommand::NothingToDo,
            KeaCommand::PrintHelp => KeaCommand::PrintHelp,
            KeaCommand::Release => KeaCommand::Release,
        }
    }
}

/// A run in progress: its planned steps, how many have been handed out,
/// whether it is refused (a sync without root), and the failure of the
/// install, which ends it.
pub struct KeaRun {
    steps: Vec<KeaCommand>,
    position: usize,
    refused: bool,
    install_error: Option<String>,
}

impl KeaRun {
    pub closed spec fn steps(&self) -> Seq<KeaCommand> {
        self.steps@
    }

    pub closed spec fn position(&self) -> nat {
        self.position as nat
    }

    pub closed spec fn refused(&self) -> bool {
        self.refused
    }

    pub closed spec fn install_error(&self) -> Option<Seq<char>> {
        match self.install_error {
            Some(e) => Some(e@),
            None => None,
        }
    }

    /// The next step to carry out, or `None` when the run is over: all steps
    /// have been handed out, or an install failed.
    pub fn next_step(&mut self) -> (res: Option<KeaCommand>)
        ensures
            old(self).install_error() is Some || old(self).position() >= old(self).steps().len()
                ==> res is None && *final(self) == *old(self),
            !(old(self).install_error() is Some || old(self).position() >= old(self).steps().len()) ==> {
                &&& res == Some(old(self).steps()[old(self).position() as int])
                &&& final(self).position() == old(self).position() + 1
                &&& final(self).steps() == old(self).steps()
                &&& final(self).refused() == old(self).refused()
                &&& final(self).install_error() == old(self).install_error()
            },
    {
        if self.install_error.is_some() || self.position >= self.steps.len() {
            return None;
        }
        let step = self.steps[self.position].clone();
        self.position = self.position + 1;
        Some(step)
    }

    /// Takes note that the install failed with `message`: the run ends, no
    /// later step is carried out, and its outcome is that failure.
    pub fn install_failed(&mut self, message: String)
        ensures
            final(self).install_error() == Some(message@),
            final(self).steps() == old(self).steps(),
            final(self).position() == old(self).position(),
            final(self).refused() == old(self).refused(),
    {
        self.install_error = Some(message);
    }

    /// How the run ends: refused when a sync was asked for without root;
    /// otherwise with the install's failure when it failed; otherwise well.
    pub fn outcome(&self) -> (res: Result<(), StartError>)
        ensures
            self.refused() ==> res == Err::<(), StartError>(StartError::SyncRequiresRoot),
            !self.refused() && self.install_error() is None ==> res == Ok::<(), StartError>(()),
            !self.refused() && self.install_error() is Some ==> (res matches Err(StartError::InstallFailed(m))
                && Some(m@) == self.install_error()),
    {
        if self.refused {
            return Err(StartError::SyncRequiresRoot);
        }
        match &self.install_error {
            Some(e) => Err(StartError::InstallFailed(e.clone())),
            None => Ok(()),
        }
    }
}

/// The steps of a run, as a sequence of tags: 0 register callbacks,
/// 1 sync databases, 2 report upgrades, 3 install the package asked for,
/// 4 nothing to do, 5 print help, 6 release.
pub open spec fn command_tag(c: KeaCommand) -> int {
    match c {
        KeaCommand::RegisterCallbacks => 0,
        KeaCommand::UpdateDbs => 1,
        KeaCommand::UpdatePackages => 2,
        KeaCommand::Install(_) => 3,
        KeaCommand::NothingToDo => 4,
        KeaCommand::PrintHelp => 5,
        KeaCommand::Release => 6,
    }
}

pub open spec fn command_tags(cs: Seq<KeaCommand>) -> Seq<int> {
    cs.map_values(|c: KeaCommand| command_tag(c))
}

/// Every install step of `cmds` installs the package asked for.
pub open spec fn installs_query(cmds: Seq<KeaCommand>, package: Option<String>) -> bool {
    forall|i: int| 0 <= i < cmds.len() ==> match #[trigger] cmds[i] {
        KeaCommand::Install(q) => package is Some && q@ == package->0@,
        _ => true,
    }
}

/// The steps that `start_with_kea` takes: callbacks first; a sync when asked
/// for; an upgrade report when asked for; then the install of the package
/// asked for, or, when there is none and no sync was asked for, the note that
/// there is nothing to do; and last the release of libalpm.
pub open spec fn start_with_kea_tags(sync: bool, upgrade: bool, has_package: bool) -> Seq<int> {
    seq![0int]
        + (if sync { seq![1int] } else { Seq::empty() })
        + (if upgrade { seq![2int] } else { Seq::empty() })
        + (if has_package { seq![3int] } else if !sync { seq![4int] } else { Seq::empty() })
        + seq![6int]
}

/// The run with the options of `kea`, where `is_root` tells whether the tool
/// runs as root: its steps (see [`start_with_kea_tags`]), none handed out
/// yet; a sync asked for without root is refused once the callbacks are
/// registered.
pub fn start_with_kea(kea: &Kea, is_root: bool) -> (run: KeaRun)
    ensures
        run.position() == 0,
        run.install_error() is None,
        run.refused() == (kea.options.sync && !is_root),
        kea.options.sync && !is_root ==> command_tags(run.steps()) == seq![0int],
        !(kea.options.sync && !is_root) ==> command_tags(run.steps()) == start_with_kea_tags(
            kea.options.sync,
            kea.options.upgrade,
            kea.options.package is Some,
        ),
        installs_query(run.steps(), kea.options.package),
        kea.options.package is Some && !run.refused() ==> exists|i: int| 0 <= i < run.steps().len()
            && (#[trigger] run.steps()[i] matches KeaCommand::Install(q) && q@ == kea.options.package->0@),
{
    let (steps, outcome) = plan_start_with_kea(kea, is_root);
    let run = KeaRun { steps, position: 0, refused: outcome.is_err(), install_error: None };
    proof {
        lemma_run_steps(kea.options.sync, kea.options.upgrade, kea.options.package is Some);
        if kea.options.package is Some && !run.refused() {
            let at = 1 + (if kea.options.sync { 1int } else { 0 }) + (if kea.options.upgrade { 1int } else { 0 });
            assert(command_tags(run.steps())[at] == 3);
            assert(command_tag(run.steps()[at]) == 3);
            assert(run.steps()[at] matches KeaCommand::Install(q) && q@ == kea.options.package->0@);
        }
    }
    run
}

fn plan_start_with_kea(kea: &Kea, is_root: bool) -> (res: (Vec<KeaCommand>, Result<(), StartError>))
    ensures
        kea.options.sync && !is_root ==> command_tags(res.0@) == seq![0int]
            && res.1 == Err::<(), StartError>(StartError::SyncRequiresRoot),
        !(kea.options.sync && !is_root) ==> command_tags(res.0@) == start_with_kea_tags(
            kea.options.sync,
            kea.options.upgrade,
            kea.options.package is Some,
        ) && res.1 == Ok::<(), StartError>(()),
        installs_query(res.0@, kea.options.package),
{
    let mut cmds: Vec<KeaCommand> = Vec::new();
    cmds.push(KeaCommand::RegisterCallbacks);
    let mut print_help = true;
    if kea.options.sync {
        if !is_root {
            proof {
                assert(command_tags(cmds@) =~= seq![0int]);
            }
            return (cmds, Err(StartError::SyncRequiresRoot));
        }
        print_help = false;
        cmds.push(KeaCommand::UpdateDbs);
    }
    if kea.options.upgrade {
        cmds.push(KeaCommand::UpdatePackages);
    }
    match &kea.options.package {
        Some(query) => cmds.push(KeaCommand::Install(query.clone())),
        None => {
            if print_help {
                cmds.push(KeaCommand::NothingToDo);
            }
        },
    }
    cmds.push(KeaCommand::Release);
    proof {
        assert(command_tags(cmds@) =~= start_with_kea_tags(
            kea.options.sync,
            kea.options.upgrade,
            kea.options.package is Some,
        ));
    }
    (cmds, Ok(()))
}

/// Law of the steps of a run: the callbacks come first and the release
/// last; a sync is planned exactly when asked for, right after the
/// callbacks; an upgrade report exactly when asked for, after the sync; the
/// install exactly when a package is asked for, after those; "nothing to do"
/// only when no package and no sync are asked for; the help text never.
pub proof fn lemma_run_steps(sync: bool, upgrade: bool, has_package: bool)
    ensures
        ({
            let t = start_with_kea_tags(sync, upgrade, has_package);
            let at = 1 + (if sync { 1int } else { 0 }) + (if upgrade { 1int } else { 0 });
            &&& t.len() >= 2
            &&& t[0] == 0
            &&& t[t.len() - 1] == 6
            &&& sync ==> t[1] == 1
            &&& upgrade ==> t[at - 1] == 2
            &&& has_package ==> at < t.len() && t[at] == 3
            &&& forall|i: int| 0 <= i < t.len() && t[i] == 1 ==> sync
            &&& forall|i: int| 0 <= i < t.len() && t[i] == 2 ==> upgrade
            &&& forall|i: int| 0 <= i < t.len() && t[i] == 3 ==> has_package
            &&& forall|i: int| 0 <= i < t.len() && t[i] == 4 ==> !has_package && !sync
            &&& forall|i: int| 0 <= i < t.len() ==> t[i] != 5
            &&& !has_package && !sync ==> t.contains(4)
        }),
{
    let t = start_with_kea_tags(sync, upgrade, has_package);
    let s1: Seq<int> = if sync { seq![1int] } else { Seq::empty() };
    let s2: Seq<int> = if upgrade { seq![2int] } else { Seq::empty() };
    let s3: Seq<int> = if has_package { seq![3int] } else if !sync { seq![4int] } else { Seq::empty() };
    assert(t =~= seq![0int] + s1 + s2 + s3 + seq![6int]);
    assert forall|i: int| 0 <= i < t.len() implies (t[i] == 0 || t[i] == 6 || s1.contains(t[i]) || s2.contains(t[i]) || s3.contains(t[i])) by {
        let a = 1 + s1.len();
        let b = a + s2.len();
        let c = b + s3.len();
        if i == 0 {
        } else if i < a {
            assert(t[i] == s1[i - 1]);
        } else if i < b {
            assert(t[i] == s2[i - a]);
        } else if i < c {
            assert(t[i] == s3[i - b]);
        } else {
        }
    }
    if !has_package && !sync {
        assert(t[(1 + s1.len() + s2.len()) as int] == 4);
    }
}

/// Law of the steps of a plain run: an upgrade report exactly when asked for,
/// first; the install exactly when a package is asked for, after it; the help
/// text only when neither is asked for; never "nothing to do".
pub proof fn lemma_plain_run_steps(upgrade: bool, has_package: bool)
    ensures
        ({
            let t = start_tags(upgrade, has_package);
            let at = if upgrade { 1int } else { 0 };
            &&& upgrade ==> t[0] == 2
            &&& has_package ==> at < t.len() && t[at] == 3
            &&& !upgrade && !has_package ==> t =~= seq![5int]
            &&& forall|i: int| 0 <= i < t.len() && t[i] == 2 ==> upgrade
            &&& forall|i: int| 0 <= i < t.len() && t[i] == 3 ==> has_package
            &&& forall|i: int| 0 <= i < t.len() && t[i] == 5 ==> !upgrade && !has_package
            &&& forall|i: int| 0 <= i < t.len() ==> t[i] != 4
        }),
{
    let t = start_tags(upgrade, has_package);
    let s2: Seq<int> = if upgrade { seq![2int] } else { Seq::empty() };
    let s3: Seq<int> = if has_package { seq![3int] } else if !upgrade { seq![5int] } else { Seq::empty() };
    assert(t =~= s2 + s3);
    assert forall|i: int| 0 <= i < t.len() implies (s2.contains(t[i]) || s3.contains(t[i])) by {
        if i < s2.len() {
            assert(t[i] == s2[i]);
        } else {
            assert(t[i] == s3[i - s2.len()]);
        }
    }
}

/// The steps that `start` takes: an upgrade when asked for; then the install
/// of the package asked for, or, when there is none and no upgrade was asked
/// for, the help text.
pub open spec fn start_tags(upgrade: bool, has_package: bool) -> Seq<int> {
    (if upgrade { seq![2int] } else { Seq::empty() })
        + (if has_package { seq![3int] } else if !upgrade { seq![5int] } else { Seq::empty() })
}

/// The plain run with the options of `kea`: its steps (see [`start_tags`]),
/// none handed out yet.
pub fn start(kea: &Kea) -> (run: KeaRun)
    ensures
        run.position() == 0,
        run.install_error() is None,
        !run.refused(),
        command_tags(run.steps()) == start_tags(kea.options.upgrade, kea.options.package is Some),
        installs_query(run.steps(), kea.options.package),
        kea.options.package is Some ==> exists|i: int| 0 <= i < run.steps().len()
            && (#[trigger] run.steps()[i] matches KeaCommand::Install(q) && q@ == kea.options.package->0@),
{
    let run = KeaRun { steps: plan_start(kea), position: 0, refused: false, install_error: None };
    proof {
        lemma_plain_run_steps(kea.options.upgrade, kea.options.package is Some);
        if kea.options.package is Some {
            let at = if kea.options.upgrade { 1int } else { 0 };
            assert(command_tags(run.steps())[at] == 3);
            assert(command_tag(run.steps()[at]) == 3);
            assert(run.steps()[at] matches KeaCommand::Install(q) && q@ == kea.options.package->0@);
        }
    }
    run
}

fn plan_start(kea: &Kea) -> (res: Vec<KeaCommand>)
    ensures
        command_tags(res@) == start_tags(kea.options.upgrade, kea.options.package is Some),
        installs_query(res@, kea.options.package),
{
    let mut cmds: Vec<KeaCommand> = Vec::new();
    let mut print_help = true;
    if kea.options.upgrade {
        print_help = false;
        cmds.push(KeaCommand::UpdatePackages);
    }
    match &kea.options.package {
        Some(query) => cmds.push(KeaCommand::Install(query.clone())),
        None => {
            if print_help {
                cmds.push(KeaCommand::PrintHelp);
            }
        },
    }
    proof {
        assert(command_tags(cmds@) =~= start_tags(kea.options.upgrade, kea.options.package is Some));
    }
    cmds
}


/// What a package search does next.
#[derive(Debug, Clone, Copy, PartialEq, Eq)]
pub enum SelectionStep {
    /// Search the local package databases.
    SearchCache,
    /// Search the AUR.
    SearchAur,
    /// Report that no package was found; nothing is selected.
    NoPackages,
    /// Show the packages found and let the user choose.
    Choose,
}

/// The step once all searches are done: with no package found there is
/// nothing to choose from.
pub open spec fn finish_step(found: nat) -> SelectionStep {
    if found < 1 {
        SelectionStep::NoPackages
    } else {
        SelectionStep::Choose
    }
}

/// The step once the local databases have been searched (or skipped): the
/// AUR is searched when at most `threshold` packages were found and the
/// search is not limited to the local databases.
pub open spec fn after_local_step(found: nat, threshold: nat, local_only: bool) -> SelectionStep {
    if found <= threshold && !local_only {
        SelectionStep::SearchAur
    } else {
        finish_step(found)
    }
}

/// Law of the search order: after the local search, the AUR is asked
/// exactly when the search is not limited to the local databases and at most
/// the threshold of packages were found; otherwise the user chooses among
/// what was found, unless nothing was.
pub proof fn lemma_aur_search_rule(found: nat, threshold: nat, local_only: bool)
    ensures
        local_only ==> after_local_step(found, threshold, local_only) != SelectionStep::SearchAur,
        found > threshold ==> after_local_step(found, threshold, local_only) != SelectionStep::SearchAur,
        !local_only && found <= threshold ==> after_local_step(found, threshold, local_only) == SelectionStep::SearchAur,
        after_local_step(found, threshold, local_only) != SelectionStep::SearchCache,
        after_local_step(found, threshold, local_only) == SelectionStep::NoPackages ==> found == 0,
        after_local_step(found, threshold, local_only) != SelectionStep::SearchAur ==> (
            after_local_step(found, threshold, local_only) == SelectionStep::Choose <==> found >= 1),
        finish_step(found) == SelectionStep::Choose <==> found >= 1,
        finish_step(found) != SelectionStep::SearchAur && finish_step(found) != SelectionStep::SearchCache,
{
}

/// A package search in progress: the packages found so far, in the order
/// they are shown, and the failure of the AUR search, if any.
pub struct PackageSelection {
    local_only: bool,
    aur_threshold: usize,
    pkgs: PackageInfoList,
    aur_error: Option<String>,
}

impl PackageSelection {
    pub closed spec fn found(&self) -> Seq<PackageInfoView> {
        self.pkgs@
    }

    pub closed spec fn spec_aur_error(&self) -> Option<Seq<char>> {
        match self.aur_error {
            Some(e) => Some(e@),
            None => None,
        }
    }

    pub closed spec fn spec_local_only(&self) -> bool {
        self.local_only
    }

    pub closed spec fn threshold(&self) -> nat {
        self.aur_threshold as nat
    }

    /// Adds the packages the local databases matched after those found so far.
    pub fn cache_found(&mut self, found: PackageInfoList) -> (step: SelectionStep)
        ensures
            final(self).found() == old(self).found() + found@,
            final(self).spec_aur_error() == old(self).spec_aur_error(),
            final(self).spec_local_only() == old(self).spec_local_only(),
            final(self).threshold() == old(self).threshold(),
            step == after_local_step(final(self).found().len(), final(self).threshold(), final(self).spec_local_only()),
            final(self).spec_local_only() ==> step != SelectionStep::SearchAur,
            !final(self).spec_local_only() && final(self).found().len() <= final(self).threshold() ==> step == SelectionStep::SearchAur,
    {
        self.pkgs.merge(found);
        let step = self.after_local();
        proof {
            lemma_aur_search_rule(self.pkgs@.len(), self.aur_threshold as nat, self.local_only);
        }
        step
    }

    fn after_local(&self) -> (step: SelectionStep)
        ensures
            step == after_local_step(self.found().len(), self.threshold(), self.spec_local_only()),
    {
        if self.pkgs.len() <= self.aur_threshold && !self.local_only {
            SelectionStep::SearchAur
        } else {
            self.finish()
        }
    }

    fn finish(&self) -> (step: SelectionStep)
        ensures
            step == finish_step(self.found().len()),
    {
        if self.pkgs.len() < 1 {
            SelectionStep::NoPackages
        } else {
            SelectionStep::Choose
        }
    }

    /// Puts the packages the AUR found before those found so far, so that the
    /// AUR packages are listed first.
    pub fn aur_found(&mut self, aur_pkgs: PackageInfoList) -> (step: SelectionStep)
        ensures
            final(self).found() == aur_pkgs@ + old(self).found(),
            final(self).spec_aur_error() == old(self).spec_aur_error(),
            final(self).spec_local_only() == old(self).spec_local_only(),
            final(self).threshold() == old(self).threshold(),
            step == finish_step(final(self).found().len()),
    {
        let mut pkgs = PackageInfoList::default();
        std::mem::swap(&mut pkgs, &mut self.pkgs);
        let mut all = aur_pkgs;
        all.merge(pkgs);
        self.pkgs = all;
        self.finish()
    }

    /// Notes that the AUR search failed with `error`; the packages found so
    /// far stay.
    pub fn aur_failed(&mut self, error: String) -> (step: SelectionStep)
        ensures
            final(self).found() == old(self).found(),
            final(self).spec_aur_error() == Some(error@),
            final(self).spec_local_only() == old(self).spec_local_only(),
            final(self).threshold() == old(self).threshold(),
            step == finish_step(final(self).found().len()),
    {
        self.aur_error = Some(error);
        self.finish()
    }

    /// The packages found so far.
    pub fn packages(&self) -> (res: &PackageInfoList)
        ensures
            res@ == self.found(),
    {
        &self.pkgs
    }

    /// The failure of the AUR search, if it failed.
    pub fn aur_error(&self) -> (res: &Option<String>)
        ensures
            match *res {
                Some(e) => self.spec_aur_error() == Some(e@),
                None => self.spec_aur_error() is None,
            },
    {
        &self.aur_error
    }

    /// The packages the user's numbers select, see [`select_packages`].
    pub fn select(&self, indexes: &Vec<i32>) -> (res: PackageInfoList)
        requires
            self.found().len() > 0 ==> forall|i: int| 0 <= i < indexes@.len() ==> indexes@[i] != 0,
        ensures
            res@ == chosen(self.found(), indexes@),
    {
        select_packages(&self.pkgs, indexes)
    }
}

impl Kea {
    /// Starts the package search of this run: the local databases are
    /// searched unless the AUR alone is asked for; when they are not, the
    /// AUR is searched unless the local databases alone are asked for.
    pub fn handle_package_selection(&self) -> (res: (PackageSelection, SelectionStep))
        ensures
            res.0.found() == Seq::<PackageInfoView>::empty(),
            res.0.spec_aur_error() is None,
            res.0.spec_local_only() == self.options.local,
            res.0.threshold() == self.config.packages.search_aur_local_under,
            res.1 == if !self.options.aur {
                SelectionStep::SearchCache
            } else {
                after_local_step(0, self.config.packages.search_aur_local_under as nat, self.options.local)
            },
            self.options.local ==> res.1 != SelectionStep::SearchAur,
            self.options.aur && !self.options.local ==> res.1 == SelectionStep::SearchAur,
    {
        proof {
            lemma_aur_search_rule(0, self.config.packages.search_aur_local_under as nat, self.options.local);
        }
        let sel = PackageSelection {
            local_only: self.options.local,
            aur_threshold: self.config.packages.search_aur_local_under,
            pkgs: PackageInfoList::default(),
            aur_error: None,
        };
        let step = if !self.options.aur {
            SelectionStep::SearchCache
        } else {
            sel.after_local()
        };
        (sel, step)
    }
}

/// The packages that the numbers `indexes` select from `pkgs`, in the order
/// of the numbers: a number `p` from 0 to below the number of packages
/// selects the package at position "number of packages minus `p`"; other
/// numbers select nothing.
pub open spec fn chosen(pkgs: Seq<PackageInfoView>, indexes: Seq<i32>) -> Seq<PackageInfoView>
    decreases indexes.len(),
{
    if indexes.len() == 0 {
        Seq::empty()
    } else {
        let rest = chosen(pkgs, indexes.drop_last());
        let p = indexes.last();
        if 0 <= p && p < pkgs.len() {
            rest.push(pkgs[pkgs.len() - p])
        } else {
            rest
        }
    }
}

/// The packages of `pkgs` that the numbers the user typed select, see
/// [`chosen`]. The number 0 would point past the list, so it is not accepted
/// when there are packages.
pub fn select_packages(pkgs: &PackageInfoList, indexes: &Vec<i32>) -> (res: PackageInfoList)
    requires
        pkgs@.len() > 0 ==> forall|i: int| 0 <= i < indexes@.len() ==> indexes@[i] != 0,
    ensures
        res@ == chosen(pkgs@, indexes@),
{
    let mut selected = PackageInfoList::default();
    let n = indexes.len();
    let mut i: usize = 0;
    while i < n
        invariant
            0 <= i <= n,
            n == indexes@.len(),
            pkgs@.len() > 0 ==> forall|j: int| 0 <= j < indexes@.len() ==> indexes@[j] != 0,
            selected@ == chosen(pkgs@, indexes@.take(i as int)),
        decreases n - i,
    {
        let p = indexes[i];
        proof {
            assert(indexes@.take(i as int + 1).drop_last() =~= indexes@.take(i as int));
        }
        if p >= 0 && (p as usize) < pkgs.len() {
            let pind = p as usize;
            selected.push(pkgs.index(pkgs.len() - pind).clone());
        }
        i = i + 1;
    }
    proof {
        assert(indexes@.take(n as int) =~= indexes@);
    }
    selected
}

/// Law of the selection numbers: the number a package is listed with selects
/// that package, for every package but the first one in the list (its number,
/// the length of the list, points past the accepted numbers).
pub proof fn lemma_listed_number_selects(pkgs: Seq<PackageInfoView>, i: int)
    requires
        0 < i < pkgs.len(),
        pkgs.len() <= i32::MAX,
    ensures
        chosen(pkgs, seq![(pkgs.len() - i) as i32]) == seq![pkgs[i]],
{
    let idx = seq![(pkgs.len() - i) as i32];
    assert(idx.drop_last() =~= Seq::<i32>::empty());
    assert(chosen(pkgs, idx.drop_last()) == Seq::<PackageInfoView>::empty());
    assert(Seq::<PackageInfoView>::empty().push(pkgs[i]) =~= seq![pkgs[i]]);
}

/// Law of the selection order: once the AUR results come in, they are listed
/// first, before the packages the local databases matched, each part in its
/// own order.
pub proof fn lemma_aur_listed_first(before: PackageSelection, after: PackageSelection, aur: Seq<PackageInfoView>)
    requires
        after.found() == aur + before.found(),
    ensures
        after.found().len() == aur.len() + before.found().len(),
        forall|i: int| 0 <= i < aur.len() ==> after.found()[i] == aur[i],
        forall|j: int| 0 <= j < before.found().len() ==> after.found()[aur.len() + j] == before.found()[j],
{
}

/// What the upgrade report shows.
#[derive(Debug, Clone, Copy, PartialEq, Eq)]
pub struct UpdateReport {
    /// List the repository packages with newer versions.
    pub show_alpm: bool,
    /// List the AUR packages with newer versions.
    pub show_aur: bool,
    /// Say that everything is up to date.
    pub up_to_date: bool,
}

impl Kea {
    /// The upgrade report for the outdated repository packages `alpm_pkgs` and
    /// the outdated AUR packages `aur_pkgs`: each list is shown when it is not
    /// empty, and when both are empty everything is up to date.
    pub fn update_packages(alpm_pkgs: &PackageInfoList, aur_pkgs: &PackageInfoList) -> (res: UpdateReport)
        ensures
            res.show_alpm == (alpm_pkgs@.len() > 0),
            res.show_aur == (aur_pkgs@.len() > 0),
            res.up_to_date == (alpm_pkgs@.len() == 0 && aur_pkgs@.len() == 0),
    {
        UpdateReport {
            show_alpm: alpm_pkgs.len() > 0,
            show_aur: aur_pkgs.len() > 0,
            up_to_date: alpm_pkgs.len() == 0 && aur_pkgs.len() == 0,
        }
    }

    /// The names of the selected packages, in order: what an install lists.
    pub fn install(selected: &PackageInfoList) -> (res: Vec<String>)
        ensures
            res@.len() == selected@.len(),
            forall|i: int| 0 <= i < res@.len() ==> (#[trigger] res@[i])@ == selected@[i].name,
    {
        let mut names: Vec<String> = Vec::new();
        let n = selected.len();
        let mut i: usize = 0;
        while i < n
            invariant
                0 <= i <= n,
                n == selected@.len(),
                names@.len() == i,
                forall|j: int| 0 <= j < i ==> (#[trigger] names@[j])@ == selected@[j].name,
            decreases n - i,
        {
            names.push(selected.index(i).name.clone());
            i = i + 1;
        }
        names
    }

    /// What the result `res` of syncing one database means.
    pub fn update_dbs_outcome(res: i32) -> (outcome: DbUpdate)
        ensures
            outcome == if res < 0 {
                DbUpdate::Failed
            } else if res == 1 {
                DbUpdate::UpToDate
            } else {
                DbUpdate::Updated
            },
    {
        if res < 0 {
            DbUpdate::Failed
        } else if res == 1 {
            DbUpdate::UpToDate
        } else {
            DbUpdate::Updated
        }
    }

    /// The next step of a system upgrade, after step `done` (none at the
    /// start) succeeded or not: begin a transaction; when that fails, end
    /// with `false`; otherwise mark the upgrades; when that fails, release
    /// the transaction and end with `false`; otherwise end with `false`.
    pub fn update_alpm_packages(done: Option<UpgradeAction>, succeeded: bool) -> (next: UpgradeAction)
        ensures
            next == upgrade_next(done, succeeded),
    {
        match done {
            None => UpgradeAction::TransInit,
            Some(UpgradeAction::TransInit) => if succeeded {
                UpgradeAction::SysUpgrade
            } else {
                UpgradeAction::Finish(false)
            },
            Some(UpgradeAction::SysUpgrade) => if succeeded {
                UpgradeAction::Finish(false)
            } else {
                UpgradeAction::TransRelease
            },
            Some(UpgradeAction::TransRelease) => UpgradeAction::Finish(false),
            Some(UpgradeAction::Finish(b)) => UpgradeAction::Finish(b),
        }
    }
}

/// What syncing one database came to.
#[derive(Debug, Clone, Copy, PartialEq, Eq)]
pub enum DbUpdate {
    /// The sync failed.
    Failed,
    /// The database was up to date.
    UpToDate,
    /// The database was updated.
    Updated,
}

/// A step of a system upgrade.
#[derive(Debug, Clone, Copy, PartialEq, Eq)]
pub enum UpgradeAction {
    /// Begin a libalpm transaction.
    TransInit,
    /// Add the system upgrade to the transaction.
    SysUpgrade,
    /// Release the transaction.
    TransRelease,
    /// The upgrade is over, with this result.
    Finish(bool),
}

/// Law of the system upgrade: started from nothing, every step sequence ends
/// with `false` after at most three steps, whatever each step's outcome.
pub proof fn lemma_upgrade_ends_false(a: bool, b: bool, c: bool)
    ensures
        ({
            let s1 = UpgradeAction::TransInit;
            let s2 = upgrade_next(Some(s1), a);
            let s3 = upgrade_next(Some(s2), b);
            let s4 = upgrade_next(Some(s3), c);
            s4 == UpgradeAction::Finish(false)
        }),
{
}

/// The step that follows, as [`Kea::update_alpm_packages`] decides it.
pub open spec fn upgrade_next(done: Option<UpgradeAction>, succeeded: bool) -> UpgradeAction {
    match done {
        None => UpgradeAction::TransInit,
        Some(UpgradeAction::TransInit) => if succeeded {
            UpgradeAction::SysUpgrade
        } else {
            UpgradeAction::Finish(false)
        },
        Some(UpgradeAction::SysUpgrade) => if succeeded {
            UpgradeAction::Finish(false)
        } else {
            UpgradeAction::TransRelease
        },
        Some(UpgradeAction::TransRelease) => UpgradeAction::Finish(false),
        Some(UpgradeAction::Finish(b)) => UpgradeAction::Finish(b),
    }
}

} // verus!
