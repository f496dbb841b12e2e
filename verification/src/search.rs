//! Turning repository and AUR search results into the list shown to the user.
use vstd::prelude::*;
use vstd::string::StringExecFns;
use crate::package::{PackageInfo, PackageInfoList, PackageInfoView, infos_view};

verus! {

broadcast use vstd::seq_lib::group_to_multiset_ensures;

/// A package as the AUR web interface describes it: what the logic reads of it.
/// `popularity` is the order key of the AUR popularity score.
pub struct AurPackage {
    pub name: String,
    pub description: Option<String>,
    pub version: String,
    pub num_votes: i32,
    pub popularity: i64,
}

pub struct AurPackageView {
    pub name: Seq<char>,
    pub description: Option<Seq<char>>,
    pub version: Seq<char>,
    pub num_votes: i32,
    pub popularity: i64,
}

impl View for AurPackage {
    type V = AurPackageView;

    open spec fn view(&self) -> AurPackageView {
        AurPackageView {
            name: self.name@,
            description: match self.description {
                Some(d) => Some(d@),
                None => None,
            },
            version: self.version@,
            num_votes: self.num_votes,
            popularity: self.popularity,
        }
    }
}

/// A package of a pacman database (local or sync): its name, the name of the
/// database it belongs to, its description and its version.
pub struct AlpmPackage {
    pub name: String,
    pub db_name: String,
    pub description: String,
    pub version: String,
}

pub struct AlpmPackageView {
    pub name: Seq<char>,
    pub db_name: Seq<char>,
    pub description: Seq<char>,
    pub version: Seq<char>,
}

impl View for AlpmPackage {
    type V = AlpmPackageView;

    open spec fn view(&self) -> AlpmPackageView {
        AlpmPackageView {
            name: self.name@,
            db_name: self.db_name@,
            description: self.description@,
            version: self.version@,
        }
    }
}

impl Clone for AlpmPackage {
    fn clone(&self) -> (res: Self)
        ensures
            res == *self,
    {
        AlpmPackage {
            name: self.name.clone(),
            db_name: self.db_name.clone(),
            description: self.description.clone(),
            version: self.version.clone(),
        }
    }
}

/// The package information of an AUR package: its source is "aur", and a
/// missing description reads "-".
pub open spec fn aur_info(p: AurPackageView) -> PackageInfoView {
    PackageInfoView {
        name: p.name,
        source: "aur"@,
        description: match p.description {
            Some(d) => d,
            None => "-"@,
        },
        version: p.version,
        votes: p.num_votes,
        poplarity: p.popularity,
    }
}

/// The package information of a database package: its source is its
/// database, and it has no votes and a popularity of zero.
pub open spec fn alpm_info(p: AlpmPackageView) -> PackageInfoView {
    PackageInfoView {
        name: p.name,
        source: p.db_name,
        description: p.description,
        version: p.version,
        votes: 0,
        poplarity: 0,
    }
}

pub open spec fn aur_infos(s: Seq<AurPackage>) -> Seq<PackageInfoView> {
    s.map_values(|p: AurPackage| aur_info(p@))
}

pub open spec fn alpm_infos(s: Seq<AlpmPackage>) -> Seq<PackageInfoView> {
    s.map_values(|p: AlpmPackage| alpm_info(p@))
}

impl PackageInfo {
    /// The package information of an AUR package.
    pub fn from_aur(p: AurPackage) -> (res: PackageInfo)
        ensures
            res@ == aur_info(p@),
    {
        let description = match p.description {
            Some(d) => d,
            None => String::from_str("-"),
        };
        PackageInfo {
            name: p.name,
            source: String::from_str("aur"),
            description,
            version: p.version,
            votes: p.num_votes,
            poplarity: p.popularity,
        }
    }

    /// The package information of a database package.
    pub fn from_alpm(p: AlpmPackage) -> (res: PackageInfo)
        ensures
            res@ == alpm_info(p@),
    {
        PackageInfo {
            name: p.name,
            source: p.db_name,
            description: p.description,
            version: p.version,
            votes: 0,
            poplarity: 0,
        }
    }
}

/// `x` placed in `s` after the last element whose popularity key is not
/// greater than its own (behind every element with a greater key at the end).
pub open spec fn sorted_insert(s: Seq<PackageInfoView>, x: PackageInfoView) -> Seq<PackageInfoView>
    decreases s.len(),
{
    if s.len() == 0 {
        seq![x]
    } else if s.last().poplarity <= x.poplarity {
        s.push(x)
    } else {
        sorted_insert(s.drop_last(), x).push(s.last())
    }
}

/// `s` ordered by ascending popularity key, keeping the order of the
/// elements whose keys are equal (a stable sort).
pub open spec fn sort_by_popularity(s: Seq<PackageInfoView>) -> Seq<PackageInfoView>
    decreases s.len(),
{
    if s.len() == 0 {
        s
    } else {
        sorted_insert(sort_by_popularity(s.drop_last()), s.last())
    }
}

/// Every popularity key in `s` is at most the keys that follow it.
pub open spec fn popularity_sorted(s: Seq<PackageInfoView>) -> bool {
    forall|i: int, j: int| 0 <= i <= j < s.len() ==> s[i].poplarity <= s[j].poplarity
}

/// The elements of `s` whose popularity key is `k`, in order.
pub open spec fn with_popularity(s: Seq<PackageInfoView>, k: i64) -> Seq<PackageInfoView>
    decreases s.len(),
{
    if s.len() == 0 {
        s
    } else if s.last().poplarity == k {
        with_popularity(s.drop_last(), k).push(s.last())
    } else {
        with_popularity(s.drop_last(), k)
    }
}

proof fn lemma_sorted_insert_at(s: Seq<PackageInfoView>, x: PackageInfoView, pos: int)
    requires
        0 <= pos <= s.len(),
        forall|j: int| pos <= j < s.len() ==> s[j].poplarity > x.poplarity,
        pos == 0 || s[pos - 1].poplarity <= x.poplarity,
    ensures
        sorted_insert(s, x) == s.insert(pos, x),
    decreases s.len(),
{
    if s.len() == 0 {
        assert(s.insert(pos, x) =~= seq![x]);
    } else if pos == s.len() {
        assert(s.insert(pos, x) =~= s.push(x));
    } else {
        let d = s.drop_last();
        lemma_sorted_insert_at(d, x, pos);
        assert(s.insert(pos, x) =~= d.insert(pos, x).push(s.last()));
    }
}


proof fn lemma_sorted_insert_shape(s: Seq<PackageInfoView>, x: PackageInfoView)
    ensures
        sorted_insert(s, x).len() == s.len() + 1,
        forall|i: int| 0 <= i < sorted_insert(s, x).len() ==>
            sorted_insert(s, x)[i] == x || s.contains(#[trigger] sorted_insert(s, x)[i]),
        sorted_insert(s, x).to_multiset() == s.to_multiset().insert(x),
        forall|k: i64| #[trigger] with_popularity(sorted_insert(s, x), k) == if x.poplarity == k {
            with_popularity(s, k).push(x)
        } else {
            with_popularity(s, k)
        },
    decreases s.len(),
{
    if s.len() == 0 {
        assert(seq![x] =~= s.push(x));
        assert forall|k: i64| #[trigger] with_popularity(sorted_insert(s, x), k) == if x.poplarity == k {
            with_popularity(s, k).push(x)
        } else {
            with_popularity(s, k)
        } by {
            assert(s.push(x).drop_last() =~= s);
        }
    } else if s.last().poplarity <= x.poplarity {
        assert forall|i: int| 0 <= i < sorted_insert(s, x).len() implies
            sorted_insert(s, x)[i] == x || s.contains(#[trigger] sorted_insert(s, x)[i]) by {
            if i < s.len() {
                assert(s[i] == sorted_insert(s, x)[i]);
            }
        }
        assert forall|k: i64| #[trigger] with_popularity(sorted_insert(s, x), k) == if x.poplarity == k {
            with_popularity(s, k).push(x)
        } else {
            with_popularity(s, k)
        } by {
            assert(s.push(x).drop_last() =~= s);
        }
    } else {
        let d = s.drop_last();
        let l = s.last();
        lemma_sorted_insert_shape(d, x);
        let r = sorted_insert(d, x);
        assert(sorted_insert(s, x) == r.push(l));
        assert forall|i: int| 0 <= i < sorted_insert(s, x).len() implies
            sorted_insert(s, x)[i] == x || s.contains(#[trigger] sorted_insert(s, x)[i]) by {
            if i < r.len() {
                assert(r[i] == sorted_insert(s, x)[i]);
                if r[i] != x {
                    let j = choose|j: int| 0 <= j < d.len() && d[j] == r[i];
                    assert(s[j] == d[j]);
                }
            } else {
                assert(s[s.len() - 1] == l);
            }
        }
        assert(s =~= d.push(l));
        assert(sorted_insert(s, x).to_multiset() =~= s.to_multiset().insert(x));
        assert forall|k: i64| #[trigger] with_popularity(sorted_insert(s, x), k) == if x.poplarity == k {
            with_popularity(s, k).push(x)
        } else {
            with_popularity(s, k)
        } by {
            assert(r.push(l).drop_last() =~= r);
            assert(with_popularity(r, k) == if x.poplarity == k {
                with_popularity(d, k).push(x)
            } else {
                with_popularity(d, k)
            });
        }
    }
}

proof fn lemma_sorted_insert_sorted(s: Seq<PackageInfoView>, x: PackageInfoView)
    requires
        popularity_sorted(s),
    ensures
        popularity_sorted(sorted_insert(s, x)),
    decreases s.len(),
{
    lemma_sorted_insert_shape(s, x);
    if s.len() == 0 {
    } else if s.last().poplarity <= x.poplarity {
        let r = s.push(x);
        assert forall|i: int, j: int| 0 <= i <= j < r.len() implies r[i].poplarity <= r[j].poplarity by {
            if j == s.len() as int && i < j {
                assert(s[i].poplarity <= s[s.len() - 1].poplarity);
            }
        }
    } else {
        let d = s.drop_last();
        let l = s.last();
        assert(popularity_sorted(d));
        lemma_sorted_insert_sorted(d, x);
        lemma_sorted_insert_shape(d, x);
        let r = sorted_insert(d, x);
        let t = r.push(l);
        assert forall|i: int, j: int| 0 <= i <= j < t.len() implies t[i].poplarity <= t[j].poplarity by {
            if j == r.len() as int && i < j {
                assert(t[i] == r[i]);
                if r[i] != x {
                    assert(d.contains(r[i]));
                    let m = choose|m: int| 0 <= m < d.len() && d[m] == r[i];
                    assert(s[m] == d[m]);
                    assert(s[m].poplarity <= s[s.len() - 1].poplarity);
                }
            } else if j < r.len() {
                assert(t[i] == r[i] && t[j] == r[j]);
            }
        }
    }
}

/// Law of the popularity order: sorting by popularity gives a sequence whose
/// keys ascend, holds the same elements as often as the input, and keeps the
/// input order among elements of equal key.
pub proof fn lemma_sort_by_popularity(s: Seq<PackageInfoView>)
    ensures
        popularity_sorted(sort_by_popularity(s)),
        sort_by_popularity(s).to_multiset() == s.to_multiset(),
        sort_by_popularity(s).len() == s.len(),
        forall|k: i64| #[trigger] with_popularity(sort_by_popularity(s), k) == with_popularity(s, k),
    decreases s.len(),
{
    if s.len() > 0 {
        let d = s.drop_last();
        lemma_sort_by_popularity(d);
        lemma_sorted_insert_sorted(sort_by_popularity(d), s.last());
        lemma_sorted_insert_shape(sort_by_popularity(d), s.last());
        assert(s =~= d.push(s.last()));
        assert forall|k: i64| #[trigger] with_popularity(sort_by_popularity(s), k) == with_popularity(s, k) by {
            assert(with_popularity(s, k) == if s.last().poplarity == k {
                with_popularity(d, k).push(s.last())
            } else {
                with_popularity(d, k)
            });
        }
    } else {
        assert(popularity_sorted(s));
    }
}

impl PackageInfoList {
    /// This list ordered by ascending popularity, packages of equal popularity
    /// in their present order.
    pub fn sorted_by_popularity(self) -> (res: PackageInfoList)
        ensures
            res@ == sort_by_popularity(self@),
    {
        let ghost input = self@;
        let pkgs = self.pkgs;
        let n = pkgs.len();
        let mut out: Vec<PackageInfo> = Vec::new();
        let mut i: usize = 0;
        while i < n
            invariant
                n == pkgs.len(),
                0 <= i <= n,
                infos_view(pkgs@) == input,
                infos_view(out@) == sort_by_popularity(input.take(i as int)),
            decreases n - i,
        {
            let x = pkgs[i].clone();
            let key = x.poplarity;
            let ghost cur = infos_view(out@);
            let mut pos = out.len();
            while pos > 0 && out[pos - 1].poplarity > key
                invariant
                    0 <= pos <= out.len(),
                    infos_view(out@) == cur,
                    forall|j: int| pos <= j < out.len() ==> out@[j].poplarity > key,
                decreases pos,
            {
                pos = pos - 1;
            }
            proof {
                lemma_sorted_insert_at(cur, x@, pos as int);
                assert(input.take(i as int + 1).drop_last() =~= input.take(i as int));
                assert(input.take(i as int + 1).last() == x@);
            }
            out.insert(pos, x);
            proof {
                assert(infos_view(out@) =~= cur.insert(pos as int, x@));
            }
            i = i + 1;
        }
        proof {
            assert(input.take(n as int) =~= input);
        }
        PackageInfoList { pkgs: out }
    }
}

/// The list of AUR search results: each result as package information, ordered
/// by ascending popularity (results of equal popularity in the order found).
pub fn search_aur(results: Vec<AurPackage>) -> (res: PackageInfoList)
    ensures
        res@ == sort_by_popularity(aur_infos(results@)),
        res@.len() == results@.len(),
        res@.to_multiset() == results@.map_values(|p: AurPackage| aur_info(p@)).to_multiset(),
        popularity_sorted(res@),
{
    proof {
        lemma_search_aur_lists_every_result(results@);
    }
    let ghost input = results@;
    let mut rest = results;
    let mut list = PackageInfoList::default();
    let n = rest.len();
    let mut i: usize = 0;
    while i < n
        invariant
            0 <= i <= n,
            n == input.len(),
            rest@ == input.skip(i as int),
            list@ == aur_infos(input.take(i as int)),
        decreases n - i,
    {
        let p = rest.remove(0);
        proof {
            assert(p == input[i as int]);
        }
        list.push(PackageInfo::from_aur(p));
        proof {
            assert(rest@ =~= input.skip(i as int + 1));
            assert(aur_infos(input.take(i as int + 1)) =~= aur_infos(input.take(i as int)).push(aur_info(input[i as int]@)));
        }
        i = i + 1;
    }
    proof {
        assert(input.take(n as int) =~= input);
    }
    list.sorted_by_popularity()
}

/// Law of the AUR search list: every AUR result is listed, as its package
/// information, each as often as it was found, in ascending popularity, and
/// results of equal popularity keep the order they were found in.
pub proof fn lemma_search_aur_lists_every_result(results: Seq<AurPackage>)
    ensures
        sort_by_popularity(aur_infos(results)).len() == results.len(),
        sort_by_popularity(aur_infos(results)).to_multiset() == results.map_values(|p: AurPackage| aur_info(p@)).to_multiset(),
        popularity_sorted(sort_by_popularity(aur_infos(results))),
        forall|k: i64| #[trigger] with_popularity(sort_by_popularity(aur_infos(results)), k)
            == with_popularity(results.map_values(|p: AurPackage| aur_info(p@)), k),
{
    let direct = results.map_values(|p: AurPackage| aur_info(p@));
    assert(aur_infos(results) =~= direct);
    lemma_sort_by_popularity(direct);
}

/// The packages of all databases searched, each as package information:
/// the results of the first database first, each database's in its order.
pub open spec fn cache_results(dbs: Seq<Vec<AlpmPackage>>) -> Seq<PackageInfoView>
    decreases dbs.len(),
{
    if dbs.len() == 0 {
        Seq::empty()
    } else {
        cache_results(dbs.drop_last()) + alpm_infos(dbs.last()@)
    }
}

/// The list that a search of the local package databases shows: the matches
/// of each database, in the order of the databases.
pub fn search_pkg_cashe(db_results: Vec<Vec<AlpmPackage>>) -> (res: PackageInfoList)
    ensures
        res@ == cache_results(db_results@),
{
    let ghost dbs = db_results@;
    let mut pkgs = PackageInfoList::default();
    let n = db_results.len();
    let mut d: usize = 0;
    while d < n
        invariant
            0 <= d <= n,
            n == dbs.len(),
            db_results@ == dbs,
            pkgs@ == cache_results(dbs.take(d as int)),
        decreases n - d,
    {
        let db = &db_results[d];
        let m = db.len();
        let ghost base = pkgs@;
        let mut j: usize = 0;
        while j < m
            invariant
                0 <= j <= m,
                m == db@.len(),
                pkgs@ == base + alpm_infos(db@.take(j as int)),
            decreases m - j,
        {
            let p = db[j].clone();
            pkgs.push(PackageInfo::from_alpm(p));
            proof {
                assert(alpm_infos(db@.take(j as int + 1)) =~= alpm_infos(db@.take(j as int)).push(alpm_info(db@[j as int]@)));
                assert(base + alpm_infos(db@.take(j as int + 1)) =~= (base + alpm_infos(db@.take(j as int))).push(alpm_info(db@[j as int]@)));
            }
            j = j + 1;
        }
        proof {
            assert(db@.take(m as int) =~= db@);
            assert(dbs.take(d as int + 1).drop_last() =~= dbs.take(d as int));
            assert(dbs.take(d as int + 1).last() == *db);
        }
        d = d + 1;
    }
    proof {
        assert(dbs.take(n as int) =~= dbs);
    }
    pkgs
}

} // verus!
