//! Finding the installed packages that have a newer version: those of the
//! sync databases, and those that only the AUR knows.
use vstd::prelude::*;
use crate::package::{PackageInfo, PackageInfoList, PackageInfoView};
use crate::search::{AlpmPackage, AlpmPackageView, AurPackage, alpm_info, aur_info};

verus! {

/// The views of a sequence of database packages.
pub open spec fn alpm_views(s: Seq<AlpmPackage>) -> Seq<AlpmPackageView> {
    s.map_values(|p: AlpmPackage| p@)
}

/// The views of the packages of each database, database by database.
pub open spec fn dbs_views(dbs: Seq<Vec<AlpmPackage>>) -> Seq<Seq<AlpmPackageView>> {
    dbs.map_values(|v: Vec<AlpmPackage>| alpm_views(v@))
}

/// The first package of `db` named `name`, if any.
pub open spec fn find_in_db(db: Seq<AlpmPackageView>, name: Seq<char>) -> Option<AlpmPackageView>
    decreases db.len(),
{
    if db.len() == 0 {
        None
    } else {
        match find_in_db(db.drop_last(), name) {
            Some(p) => Some(p),
            None => if db.last().name == name {
                Some(db.last())
            } else {
                None
            },
        }
    }
}

/// The package named `name` of the first database that has one, if any.
pub open spec fn find_in_dbs(dbs: Seq<Seq<AlpmPackageView>>, name: Seq<char>) -> Option<AlpmPackageView>
    decreases dbs.len(),
{
    if dbs.len() == 0 {
        None
    } else {
        match find_in_dbs(dbs.drop_last(), name) {
            Some(p) => Some(p),
            None => find_in_db(dbs.last(), name),
        }
    }
}

/// The installed packages split in two: for each one that a sync database
/// knows, that database's package (of the first such database); and the
/// installed packages that no sync database knows, which come from the AUR.
/// Both keep the order of the installed packages.
pub open spec fn split_installed(local: Seq<AlpmPackageView>, dbs: Seq<Seq<AlpmPackageView>>) -> (Seq<AlpmPackageView>, Seq<AlpmPackageView>)
    decreases local.len(),
{
    if local.len() == 0 {
        (Seq::empty(), Seq::empty())
    } else {
        let (repo, aur) = split_installed(local.drop_last(), dbs);
        match find_in_dbs(dbs, local.last().name) {
            Some(p) => (repo.push(p), aur),
            None => (repo, aur.push(local.last())),
        }
    }
}

proof fn lemma_find_in_db_prefix(s: Seq<AlpmPackageView>, name: Seq<char>, k: int)
    requires
        0 <= k <= s.len(),
        find_in_db(s.take(k), name) is Some,
    ensures
        find_in_db(s, name) == find_in_db(s.take(k), name),
    decreases s.len(),
{
    if k == s.len() {
        assert(s.take(k) =~= s);
    } else {
        assert(s.drop_last().take(k) =~= s.take(k));
        lemma_find_in_db_prefix(s.drop_last(), name, k);
    }
}

proof fn lemma_find_in_dbs_prefix(s: Seq<Seq<AlpmPackageView>>, name: Seq<char>, k: int)
    requires
        0 <= k <= s.len(),
        find_in_dbs(s.take(k), name) is Some,
    ensures
        find_in_dbs(s, name) == find_in_dbs(s.take(k), name),
    decreases s.len(),
{
    if k == s.len() {
        assert(s.take(k) =~= s);
    } else {
        assert(s.drop_last().take(k) =~= s.take(k));
        lemma_find_in_dbs_prefix(s.drop_last(), name, k);
    }
}

fn find_pkg_in_db(db: &Vec<AlpmPackage>, name: &String) -> (res: Option<AlpmPackage>)
    ensures
        match res {
            Some(p) => find_in_db(alpm_views(db@), name@) == Some(p@),
            None => find_in_db(alpm_views(db@), name@) is None,
        },
{
    let n = db.len();
    let mut i: usize = 0;
    while i < n
        invariant
            0 <= i <= n,
            n == db@.len(),
            find_in_db(alpm_views(db@.take(i as int)), name@) is None,
        decreases n - i,
    {
        let same = db[i].name == *name;
        proof {
            assert(alpm_views(db@.take(i as int + 1)).drop_last() =~= alpm_views(db@.take(i as int)));
        }
        if same {
            proof {
                assert(alpm_views(db@.take(i as int + 1)) =~= alpm_views(db@).take(i as int + 1));
                lemma_find_in_db_prefix(alpm_views(db@), name@, i as int + 1);
            }
            return Some(db[i].clone());
        }
        i = i + 1;
    }
    proof {
        assert(db@.take(n as int) =~= db@);
    }
    None
}

fn find_pkg_in_dbs(dbs: &Vec<Vec<AlpmPackage>>, name: &String) -> (res: Option<AlpmPackage>)
    ensures
        match res {
            Some(p) => find_in_dbs(dbs_views(dbs@), name@) == Some(p@),
            None => find_in_dbs(dbs_views(dbs@), name@) is None,
        },
{
    let n = dbs.len();
    let mut i: usize = 0;
    while i < n
        invariant
            0 <= i <= n,
            n == dbs@.len(),
            find_in_dbs(dbs_views(dbs@.take(i as int)), name@) is None,
        decreases n - i,
    {
        let found = find_pkg_in_db(&dbs[i], name);
        proof {
            assert(dbs_views(dbs@.take(i as int + 1)).drop_last() =~= dbs_views(dbs@.take(i as int)));
        }
        if found.is_some() {
            proof {
                assert(dbs_views(dbs@.take(i as int + 1)) =~= dbs_views(dbs@).take(i as int + 1));
                lemma_find_in_dbs_prefix(dbs_views(dbs@), name@, i as int + 1);
            }
            return found;
        }
        i = i + 1;
    }
    proof {
        assert(dbs@.take(n as int) =~= dbs@);
    }
    None
}

/// Splits the installed packages `local` into the packages that the sync
/// databases `sync_dbs` provide (taken from the first database that has a
/// package of that name) and the installed packages that none of them has.
pub fn get_pkgs(local: &Vec<AlpmPackage>, sync_dbs: &Vec<Vec<AlpmPackage>>) -> (res: (Vec<AlpmPackage>, Vec<AlpmPackage>))
    ensures
        (alpm_views(res.0@), alpm_views(res.1@)) == split_installed(alpm_views(local@), dbs_views(sync_dbs@)),
{
    let ghost dbs = dbs_views(sync_dbs@);
    let mut alpm_pkgs: Vec<AlpmPackage> = Vec::new();
    let mut aur_pkgs: Vec<AlpmPackage> = Vec::new();
    let n = local.len();
    let mut i: usize = 0;
    while i < n
        invariant
            0 <= i <= n,
            n == local@.len(),
            dbs == dbs_views(sync_dbs@),
            (alpm_views(alpm_pkgs@), alpm_views(aur_pkgs@)) == split_installed(alpm_views(local@.take(i as int)), dbs),
        decreases n - i,
    {
        let p = &local[i];
        let found = find_pkg_in_dbs(sync_dbs, &p.name);
        proof {
            assert(alpm_views(local@.take(i as int + 1)).drop_last() =~= alpm_views(local@.take(i as int)));
        }
        let ghost a0 = alpm_pkgs@;
        let ghost u0 = aur_pkgs@;
        match found {
            Some(got) => {
                alpm_pkgs.push(got);
                proof {
                    assert(alpm_views(alpm_pkgs@) =~= alpm_views(a0).push(got@));
                }
            },
            None => {
                aur_pkgs.push(p.clone());
                proof {
                    assert(alpm_views(aur_pkgs@) =~= alpm_views(u0).push(p@));
                }
            },
        }
        i = i + 1;
    }
    proof {
        assert(local@.take(n as int) =~= local@);
    }
    (alpm_pkgs, aur_pkgs)
}


proof fn lemma_find_in_db_name(db: Seq<AlpmPackageView>, name: Seq<char>)
    ensures
        find_in_db(db, name) matches Some(p) ==> p.name == name,
    decreases db.len(),
{
    if db.len() > 0 {
        lemma_find_in_db_name(db.drop_last(), name);
    }
}

proof fn lemma_find_in_dbs_name(dbs: Seq<Seq<AlpmPackageView>>, name: Seq<char>)
    ensures
        find_in_dbs(dbs, name) matches Some(p) ==> p.name == name,
    decreases dbs.len(),
{
    if dbs.len() > 0 {
        lemma_find_in_dbs_name(dbs.drop_last(), name);
        lemma_find_in_db_name(dbs.last(), name);
    }
}

/// Law of the split of installed packages: each installed package lands in
/// exactly one of the two parts; a repository package has the name of an
/// installed package, and an AUR package is an installed package that no
/// sync database has.
pub proof fn lemma_split_installed(local: Seq<AlpmPackageView>, dbs: Seq<Seq<AlpmPackageView>>)
    ensures
        split_installed(local, dbs).0.len() + split_installed(local, dbs).1.len() == local.len(),
        forall|i: int| 0 <= i < split_installed(local, dbs).0.len() ==>
            exists|j: int| 0 <= j < local.len() && (#[trigger] split_installed(local, dbs).0[i]).name == local[j].name,
        forall|i: int| 0 <= i < split_installed(local, dbs).1.len() ==>
            local.contains(#[trigger] split_installed(local, dbs).1[i])
            && find_in_dbs(dbs, split_installed(local, dbs).1[i].name) is None,
    decreases local.len(),
{
    if local.len() > 0 {
        let d = local.drop_last();
        let l = local.last();
        lemma_split_installed(d, dbs);
        lemma_find_in_dbs_name(dbs, l.name);
        let (repo, aur) = split_installed(d, dbs);
        let (r2, a2) = split_installed(local, dbs);
        assert forall|i: int| 0 <= i < r2.len() implies
            exists|j: int| 0 <= j < local.len() && (#[trigger] r2[i]).name == local[j].name by {
            if i < repo.len() {
                assert(r2[i] == repo[i]);
                let j = choose|j: int| 0 <= j < d.len() && repo[i].name == d[j].name;
                assert(local[j] == d[j]);
            } else {
                assert(r2[i].name == local[local.len() - 1].name);
            }
        }
        assert forall|i: int| 0 <= i < a2.len() implies
            local.contains(#[trigger] a2[i]) && find_in_dbs(dbs, a2[i].name) is None by {
            if i < aur.len() {
                assert(a2[i] == aur[i]);
                let j = choose|j: int| 0 <= j < d.len() && d[j] == aur[i];
                assert(local[j] == d[j]);
            } else {
                assert(a2[i] == local[local.len() - 1]);
            }
        }
    }
}

/// The package information of the packages whose flag is set, in order.
pub open spec fn flagged_infos(pkgs: Seq<AlpmPackageView>, flags: Seq<bool>) -> Seq<PackageInfoView>
    decreases pkgs.len(),
{
    if pkgs.len() == 0 {
        Seq::empty()
    } else {
        let rest = flagged_infos(pkgs.drop_last(), flags.take(pkgs.len() - 1));
        if flags[pkgs.len() - 1] {
            rest.push(alpm_info(pkgs.last()))
        } else {
            rest
        }
    }
}

/// The repository packages that have a newer version: `has_newer[i]` tells
/// whether `pkgs[i]` has one in the sync databases.
pub fn outdated_repo_packages(pkgs: &Vec<AlpmPackage>, has_newer: &Vec<bool>) -> (res: PackageInfoList)
    requires
        pkgs.len() == has_newer.len(),
    ensures
        res@ == flagged_infos(alpm_views(pkgs@), has_newer@),
{
    let mut out = PackageInfoList::default();
    let n = pkgs.len();
    let mut i: usize = 0;
    while i < n
        invariant
            0 <= i <= n,
            n == pkgs.len(),
            n == has_newer.len(),
            out@ == flagged_infos(alpm_views(pkgs@.take(i as int)), has_newer@.take(i as int)),
        decreases n - i,
    {
        proof {
            assert(alpm_views(pkgs@.take(i as int + 1)).drop_last() =~= alpm_views(pkgs@.take(i as int)));
            assert(has_newer@.take(i as int + 1).take(i as int) =~= has_newer@.take(i as int));
        }
        if has_newer[i] {
            out.push(PackageInfo::from_alpm(pkgs[i].clone()));
        }
        i = i + 1;
    }
    proof {
        assert(pkgs@.take(n as int) =~= pkgs@);
        assert(has_newer@.take(n as int) =~= has_newer@);
    }
    out
}

/// How many AUR packages one information request asks for at most.
pub const MAX_SEARCH_PKGS: usize = 30;

/// The end that a request starting at `current` of `total` names is given:
/// the start plus the number of names asked for, plus the start once more.
pub open spec fn query_end(current: int, total: int) -> int {
    current + (current + if total - current < 30 { total - current } else { 30 })
}

/// The order in which the names of the installed AUR packages are sent to
/// the AUR, as ranges of positions in that list of names, and the outdated
/// AUR packages found in the answers so far.
pub struct AurQueryPlan {
    current_pkg: usize,
    total: usize,
    outdated: PackageInfoList,
}

impl AurQueryPlan {
    /// The position of the next name to send.
    pub closed spec fn current(&self) -> nat {
        self.current_pkg as nat
    }

    /// The number of names.
    pub closed spec fn total(&self) -> nat {
        self.total as nat
    }

    /// The outdated AUR packages found so far, in the order of the answers.
    pub closed spec fn outdated(&self) -> Seq<PackageInfoView> {
        self.outdated@
    }

    /// The position of the next name to send.
    pub fn current_pkg(&self) -> (res: usize)
        ensures
            res == self.current(),
    {
        self.current_pkg
    }

    /// The number of names.
    pub fn total_pkgs(&self) -> (res: usize)
        ensures
            res == self.total(),
    {
        self.total
    }

    /// Takes note of a failed request (no answer, or an answer that reports
    /// an error): no more requests are made, and the answer adds nothing.
    pub fn request_failed(&mut self)
        ensures
            final(self).current() == old(self).total(),
            final(self).total() == old(self).total(),
            final(self).outdated() == old(self).outdated(),
    {
        self.current_pkg = self.total;
    }

    /// Takes in the packages `remote` that the AUR answered a request with:
    /// those newer than the installed AUR packages `local` are added after the
    /// outdated packages found so far (see [`outdated_aur`], with the installed
    /// versions of [`local_versions`]); the names of those that are not
    /// installed are returned. The plan goes on as it was.
    pub fn request_answered<F: Fn(&String, &String) -> i32>(
        &mut self,
        local: &Vec<AlpmPackage>,
        remote: Vec<AurPackage>,
        compare: F,
    ) -> (missing: Vec<String>)
        requires
            forall|a: &String, b: &String| compare.requires((a, b)),
        ensures
            final(self).current() == old(self).current(),
            final(self).total() == old(self).total(),
            exists|found: Seq<Option<String>>, orders: Seq<i32>| {
                &&& #[trigger] installed_versions(local@, remote@, found)
                &&& #[trigger] compared_with(compare, remote@, found, orders)
                &&& final(self).outdated() == old(self).outdated() + aur_outdated(remote@, found, orders).0
                &&& missing@.map_values(|s: String| s@) == aur_outdated(remote@, found, orders).1
            },
    {
        let ghost input = remote@;
        let found = local_versions(local, &remote);
        let (newer, missing) = outdated_aur(remote, &found, compare);
        let ghost before = self.outdated@;
        self.outdated.merge(newer);
        proof {
            let orders = choose|orders: Seq<i32>| {
                &&& compared_with(compare, input, found@, orders)
                &&& (newer@, missing@.map_values(|s: String| s@)) == aur_outdated(input, found@, orders)
            };
            assert(installed_versions(local@, input, found@));
            assert(compared_with(compare, input, found@, orders));
        }
        missing
    }

    /// The outdated AUR packages found in all answers.
    pub fn into_outdated(self) -> (res: PackageInfoList)
        ensures
            res@ == self.outdated(),
    {
        self.outdated
    }

    /// A plan for `total` names, starting at the first.
    pub fn new(total: usize) -> (res: AurQueryPlan)
        ensures
            res.current() == 0,
            res.total() == total,
            res.outdated() == Seq::<PackageInfoView>::empty(),
    {
        AurQueryPlan { current_pkg: 0, total, outdated: PackageInfoList::default() }
    }

    /// The range of names that the next request asks for, or `None` when all
    /// have been asked for. The range starts at the current position and its
    /// end is given by [`query_end`]; the position then moves on by
    /// [`MAX_SEARCH_PKGS`].
    pub fn next_range(&mut self) -> (res: Option<(usize, usize)>)
        requires
            old(self).current() < old(self).total() ==> query_end(old(self).current() as int, old(self).total() as int) <= old(self).total(),
        ensures
            old(self).current() >= old(self).total() ==> res is None && *final(self) == *old(self),
            old(self).current() < old(self).total() ==> {
                &&& res == Some((old(self).current() as usize, query_end(old(self).current() as int, old(self).total() as int) as usize))
                &&& final(self).current() == old(self).current() + MAX_SEARCH_PKGS
                &&& final(self).total() == old(self).total()
                &&& final(self).outdated() == old(self).outdated()
            },
    {
        if self.current_pkg >= self.total {
            return None;
        }
        let pkgs_left = self.total - self.current_pkg;
        let count = if pkgs_left < MAX_SEARCH_PKGS { pkgs_left } else { MAX_SEARCH_PKGS };
        let end_pkg = count + self.current_pkg;
        let start = self.current_pkg;
        let end = start + end_pkg;
        self.current_pkg = self.current_pkg + MAX_SEARCH_PKGS;
        Some((start, end))
    }
}

/// Law of the request plan: a list of at most [`MAX_SEARCH_PKGS`] names is
/// asked for in one request that covers the whole list, after which the plan
/// is done.
pub proof fn lemma_short_list_one_request(total: nat)
    requires
        0 < total <= 30,
    ensures
        query_end(0, total as int) == total,
        0 + MAX_SEARCH_PKGS >= total,
{
}

/// The version of the first installed package named `name`, if any.
pub open spec fn local_version(local: Seq<AlpmPackageView>, name: Seq<char>) -> Option<Seq<char>> {
    match find_in_db(local, name) {
        Some(p) => Some(p.version),
        None => None,
    }
}

pub open spec fn opt_view(o: Option<String>) -> Option<Seq<char>> {
    match o {
        Some(s) => Some(s@),
        None => None,
    }
}

/// `found` holds, for each package of `remote`, the version of the installed
/// package of that name in `local`, or `None` when there is none.
pub open spec fn installed_versions(local: Seq<AlpmPackage>, remote: Seq<AurPackage>, found: Seq<Option<String>>) -> bool {
    &&& found.len() == remote.len()
    &&& forall|k: int| 0 <= k < remote.len() ==> opt_view(#[trigger] found[k]) == local_version(alpm_views(local), remote[k].name@)
}

/// For each package that the AUR answered with, the version of the installed
/// package of that name (the first one in `local`), or `None` when none is
/// installed.
pub fn local_versions(local: &Vec<AlpmPackage>, remote: &Vec<AurPackage>) -> (res: Vec<Option<String>>)
    ensures
        res.len() == remote.len(),
        forall|i: int| 0 <= i < remote.len() ==>
            opt_view(#[trigger] res@[i]) == local_version(alpm_views(local@), remote@[i].name@),
{
    let mut out: Vec<Option<String>> = Vec::new();
    let n = remote.len();
    let mut i: usize = 0;
    while i < n
        invariant
            0 <= i <= n,
            n == remote.len(),
            out.len() == i,
            forall|j: int| 0 <= j < i ==>
                opt_view(#[trigger] out@[j]) == local_version(alpm_views(local@), remote@[j].name@),
        decreases n - i,
    {
        let found = find_pkg_in_db(local, &remote[i].name);
        let v = match found {
            Some(p) => Some(p.version),
            None => None,
        };
        out.push(v);
        i = i + 1;
    }
    out
}

/// The AUR packages found to be newer than the installed ones, and the
/// names of those the AUR answered with that are not installed: package `i`
/// is newer when an installed version was found for it and the version
/// comparison of the installed version with its version, `version_order[i]`, is
/// negative.
pub open spec fn aur_outdated(remote: Seq<AurPackage>, found: Seq<Option<String>>, version_order: Seq<i32>) -> (Seq<PackageInfoView>, Seq<Seq<char>>)
    decreases remote.len(),
{
    if remote.len() == 0 {
        (Seq::empty(), Seq::empty())
    } else {
        let k = remote.len() - 1;
        let (newer, missing) = aur_outdated(remote.drop_last(), found.take(k), version_order.take(k));
        if found[k] is Some {
            if version_order[k] < 0 {
                (newer.push(aur_info(remote[k]@)), missing)
            } else {
                (newer, missing)
            }
        } else {
            (newer, missing.push(remote[k].name@))
        }
    }
}

proof fn lemma_aur_outdated_prefix(
    remote: Seq<AurPackage>,
    found: Seq<Option<String>>,
    order: Seq<i32>,
    m: int,
    newer_at: spec_fn(int) -> bool,
    missing_at: spec_fn(int) -> bool,
    info_at: spec_fn(int) -> PackageInfoView,
    name_at: spec_fn(int) -> Seq<char>,
)
    requires
        remote.len() == found.len(),
        remote.len() == order.len(),
        0 <= m <= remote.len(),
        forall|k: int| #[trigger] newer_at(k) == (found[k] is Some && order[k] < 0),
        forall|k: int| #[trigger] missing_at(k) == (found[k] is None),
        forall|k: int| #[trigger] info_at(k) == aur_info(remote[k]@),
        forall|k: int| #[trigger] name_at(k) == remote[k].name@,
    ensures
        aur_outdated(remote.take(m), found.take(m), order.take(m)).0
            == Seq::new(m as nat, |k: int| k).filter(newer_at).map_values(info_at),
        aur_outdated(remote.take(m), found.take(m), order.take(m)).1
            == Seq::new(m as nat, |k: int| k).filter(missing_at).map_values(name_at),
    decreases m,
{
    let idx = Seq::new(m as nat, |k: int| k);
    if m == 0 {
        assert(idx.filter(newer_at) =~= Seq::<int>::empty()) by {
            reveal(Seq::filter);
        }
        assert(idx.filter(missing_at) =~= Seq::<int>::empty()) by {
            reveal(Seq::filter);
        }
    } else {
        lemma_aur_outdated_prefix(remote, found, order, m - 1, newer_at, missing_at, info_at, name_at);
        let prev = Seq::new((m - 1) as nat, |k: int| k);
        assert(idx =~= prev.push(m - 1));
        prev.lemma_filter_push(m - 1, newer_at);
        prev.lemma_filter_push(m - 1, missing_at);
        let t = remote.take(m);
        assert(t.drop_last() =~= remote.take(m - 1));
        assert(found.take(m).take(m - 1) =~= found.take(m - 1));
        assert(order.take(m).take(m - 1) =~= order.take(m - 1));
        assert(t[m - 1] == remote[m - 1]);
        assert(found.take(m)[m - 1] == found[m - 1]);
        assert(order.take(m)[m - 1] == order[m - 1]);
        assert(newer_at(m - 1) == (found[m - 1] is Some && order[m - 1] < 0));
        assert(missing_at(m - 1) == (found[m - 1] is None));
        assert(info_at(m - 1) == aur_info(remote[m - 1]@));
        assert(name_at(m - 1) == remote[m - 1].name@);
        assert(prev.filter(newer_at).push(m - 1).map_values(info_at) =~= prev.filter(newer_at).map_values(info_at).push(info_at(m - 1)));
        assert(prev.filter(missing_at).push(m - 1).map_values(name_at) =~= prev.filter(missing_at).map_values(name_at).push(name_at(m - 1)));
    }
}

/// Law of the outdated AUR packages of one answer: they are exactly the
/// answered packages that are installed and whose installed version compares
/// lower, in the order of the answer, as package information; and the names
/// reported missing are exactly those of the answered packages that are not
/// installed, in order.
pub proof fn lemma_aur_outdated_exactly(remote: Seq<AurPackage>, found: Seq<Option<String>>, order: Seq<i32>)
    requires
        remote.len() == found.len(),
        remote.len() == order.len(),
    ensures
        aur_outdated(remote, found, order).0 == Seq::new(remote.len(), |k: int| k)
            .filter(|k: int| found[k] is Some && order[k] < 0)
            .map_values(|k: int| aur_info(remote[k]@)),
        aur_outdated(remote, found, order).1 == Seq::new(remote.len(), |k: int| k)
            .filter(|k: int| found[k] is None)
            .map_values(|k: int| remote[k].name@),
{
    let n = remote.len() as int;
    lemma_aur_outdated_prefix(
        remote,
        found,
        order,
        n,
        |k: int| found[k] is Some && order[k] < 0,
        |k: int| found[k] is None,
        |k: int| aur_info(remote[k]@),
        |k: int| remote[k].name@,
    );
    assert(remote.take(n) =~= remote);
    assert(found.take(n) =~= found);
    assert(order.take(n) =~= order);
}

/// Sorts the AUR's answer, given the version comparisons: the packages newer
/// than the installed ones, as a list, and the names of those that are not
/// installed.
pub fn outdated_aur_by_order(remote: Vec<AurPackage>, found: &Vec<Option<String>>, version_order: &Vec<i32>) -> (res: (PackageInfoList, Vec<String>))
    requires
        remote.len() == found.len(),
        remote.len() == version_order.len(),
    ensures
        (res.0@, res.1@.map_values(|s: String| s@)) == aur_outdated(remote@, found@, version_order@),
        res.0@ == Seq::new(remote@.len(), |k: int| k)
            .filter(|k: int| found@[k] is Some && version_order@[k] < 0)
            .map_values(|k: int| aur_info(remote@[k]@)),
{
    proof {
        lemma_aur_outdated_exactly(remote@, found@, version_order@);
    }
    let ghost input = remote@;
    let mut rest = remote;
    let mut newer = PackageInfoList::default();
    let mut missing: Vec<String> = Vec::new();
    let n = rest.len();
    let mut i: usize = 0;
    while i < n
        invariant
            0 <= i <= n,
            n == input.len(),
            n == found.len(),
            n == version_order.len(),
            rest@ == input.skip(i as int),
            (newer@, missing@.map_values(|s: String| s@)) == aur_outdated(input.take(i as int), found@.take(i as int), version_order@.take(i as int)),
        decreases n - i,
    {
        let p = rest.remove(0);
        proof {
            assert(p == input[i as int]);
            assert(rest@ =~= input.skip(i as int + 1));
            assert(input.take(i as int + 1).drop_last() =~= input.take(i as int));
            assert(found@.take(i as int + 1).take(i as int) =~= found@.take(i as int));
            assert(version_order@.take(i as int + 1).take(i as int) =~= version_order@.take(i as int));
        }
        let ghost m0 = missing@;
        if found[i].is_some() {
            if version_order[i] < 0 {
                newer.push(PackageInfo::from_aur(p));
            }
        } else {
            missing.push(p.name);
            proof {
                assert(missing@.map_values(|s: String| s@) =~= m0.map_values(|s: String| s@).push(input[i as int].name@));
            }
        }
        i = i + 1;
    }
    proof {
        assert(input.take(n as int) =~= input);
        assert(found@.take(n as int) =~= found@);
        assert(version_order@.take(n as int) =~= version_order@);
    }
    (newer, missing)
}


/// The version comparisons `orders` are what `compare` answered for each
/// answered package that is installed: `orders[k]` is a result of `compare`
/// on the installed version `found[k]` and the AUR's version of `remote[k]`.
pub open spec fn compared_with<F: Fn(&String, &String) -> i32>(
    compare: F,
    remote: Seq<AurPackage>,
    found: Seq<Option<String>>,
    orders: Seq<i32>,
) -> bool {
    &&& orders.len() == remote.len()
    &&& forall|k: int| 0 <= k < remote.len() ==> match #[trigger] found[k] {
        Some(v) => call_ensures(compare, (&v, &remote[k].version), orders[k]),
        None => true,
    }
}

/// Sorts the AUR's answer: the packages newer than the installed ones, as a
/// list, and the names of those that are not installed. `compare` is the
/// version comparison (libalpm's): it is asked once for each answered
/// package that is installed, with the installed version first and the
/// AUR's second, and a negative answer makes the package outdated.
pub fn outdated_aur<F: Fn(&String, &String) -> i32>(remote: Vec<AurPackage>, found: &Vec<Option<String>>, compare: F) -> (res: (PackageInfoList, Vec<String>))
    requires
        remote.len() == found.len(),
        forall|a: &String, b: &String| compare.requires((a, b)),
    ensures
        exists|orders: Seq<i32>| {
            &&& compared_with(compare, remote@, found@, orders)
            &&& (res.0@, res.1@.map_values(|s: String| s@)) == aur_outdated(remote@, found@, orders)
        },
{
    let ghost input = remote@;
    let mut order: Vec<i32> = Vec::new();
    let n = remote.len();
    let mut k: usize = 0;
    while k < n
        invariant
            0 <= k <= n,
            n == remote.len(),
            n == found.len(),
            remote@ == input,
            forall|a: &String, b: &String| compare.requires((a, b)),
            order@.len() == k,
            forall|j: int| 0 <= j < k ==> match #[trigger] found@[j] {
                Some(v) => call_ensures(compare, (&v, &remote@[j].version), order@[j]),
                None => true,
            },
        decreases n - k,
    {
        let o = match &found[k] {
            Some(v) => compare(v, &remote[k].version),
            None => 0,
        };
        order.push(o);
        k = k + 1;
    }
    let ghost orders = order@;
    let res = outdated_aur_by_order(remote, found, &order);
    proof {
        assert(compared_with(compare, input, found@, orders));
    }
    res
}

} // verus!
