//! Package descriptions and the ordered list that search results are kept in.
use vstd::prelude::*;

verus! {

/// What the logic knows of a package: its name, the repository it comes from,
/// a description, its version, the AUR vote count, and an order key for its
/// popularity (the AUR popularity score mapped to an integer that orders as
/// the score does; 0 stands for a score of zero).
pub struct PackageInfo {
    pub name: String,
    pub source: String,
    pub description: String,
    pub version: String,
    pub votes: i32,
    pub poplarity: i64,
}

/// The mathematical value of a [`PackageInfo`].
pub struct PackageInfoView {
    pub name: Seq<char>,
    pub source: Seq<char>,
    pub description: Seq<char>,
    pub version: Seq<char>,
    pub votes: i32,
    pub poplarity: i64,
}

impl View for PackageInfo {
    type V = PackageInfoView;

    open spec fn view(&self) -> PackageInfoView {
        PackageInfoView {
            name: self.name@,
            source: self.source@,
            description: self.description@,
            version: self.version@,
            votes: self.votes,
            poplarity: self.poplarity,
        }
    }
}

impl Clone for PackageInfo {
    fn clone(&self) -> (res: Self)
        ensures
            res == *self,
    {
        PackageInfo {
            name: self.name.clone(),
            source: self.source.clone(),
            description: self.description.clone(),
            version: self.version.clone(),
            votes: self.votes,
            poplarity: self.poplarity,
        }
    }
}

/// An ordered list of packages, as shown to the user for selection.
pub struct PackageInfoList {
    pub pkgs: Vec<PackageInfo>,
}

/// The views of a vector of packages, in order.
pub open spec fn infos_view(v: Seq<PackageInfo>) -> Seq<PackageInfoView> {
    v.map_values(|p: PackageInfo| p@)
}

impl View for PackageInfoList {
    type V = Seq<PackageInfoView>;

    open spec fn view(&self) -> Seq<PackageInfoView> {
        infos_view(self.pkgs@)
    }
}

impl Default for PackageInfoList {
    fn default() -> (res: Self)
        ensures
            res@ == Seq::<PackageInfoView>::empty(),
    {
        PackageInfoList { pkgs: Vec::new() }
    }
}

impl PackageInfoList {
    /// The number of packages in the list.
    pub fn len(&self) -> (n: usize)
        ensures
            n == self@.len(),
    {
        self.pkgs.len()
    }

    /// Appends one package at the end.
    pub fn push(&mut self, p: PackageInfo)
        ensures
            final(self)@ == old(self)@.push(p@),
    {
        self.pkgs.push(p);
        proof {
            assert(final(self)@ =~= old(self)@.push(p@));
        }
    }

    /// Appends all packages of `lst`, in their order, after those already here.
    pub fn merge(&mut self, lst: PackageInfoList)
        ensures
            final(self)@ == old(self)@ + lst@,
    {
        let ghost start = self@;
        let mut rest = lst.pkgs;
        let ghost all = infos_view(rest@);
        let mut i: usize = 0;
        let n = rest.len();
        let mut moved: Vec<PackageInfo> = Vec::new();
        while i < n
            invariant
                n == rest.len(),
                0 <= i <= n,
                infos_view(rest@) == all,
                self@ == start + all.take(i as int),
            decreases n - i,
        {
            let p = rest[i].clone();
            assert(p@ == all[i as int]);
            let ghost before = self.pkgs@;
            self.pkgs.push(p);
            proof {
                assert(self.pkgs@ == before.push(p));
                assert(self@ =~= infos_view(before).push(p@));
                assert(all.take(i as int + 1) =~= all.take(i as int).push(all[i as int]));
                assert(self@ =~= start + all.take(i as int + 1));
            }
            i = i + 1;
        }
        proof {
            assert(all.take(n as int) =~= all);
        }
    }

    /// The first `ammount` packages, as a new list; this list is left as it is.
    pub fn pick(&mut self, ammount: usize) -> (res: PackageInfoList)
        requires
            ammount <= old(self)@.len(),
        ensures
            res@ == old(self)@.take(ammount as int),
            final(self)@ == old(self)@,
    {
        let mut out: Vec<PackageInfo> = Vec::new();
        let mut i: usize = 0;
        while i < ammount
            invariant
                0 <= i <= ammount,
                ammount <= self.pkgs.len(),
                infos_view(out@) == self@.take(i as int),
            decreases ammount - i,
        {
            let p = self.pkgs[i].clone();
            assert(p@ == self@[i as int]);
            let ghost before = out@;
            out.push(p);
            proof {
                assert(infos_view(out@) =~= infos_view(before).push(p@));
                assert(self@.take(i as int + 1) =~= self@.take(i as int).push(self@[i as int]));
            }
            i = i + 1;
        }
        PackageInfoList { pkgs: out }
    }

    /// A copy of the package at `index`.
    pub fn get(&mut self, index: usize) -> (res: PackageInfo)
        requires
            index < old(self)@.len(),
        ensures
            res@ == old(self)@[index as int],
            final(self)@ == old(self)@,
    {
        self.pkgs[index].clone()
    }

    /// The package at position `i`.
    pub fn index(&self, i: usize) -> (res: &PackageInfo)
        requires
            i < self@.len(),
        ensures
            res@ == self@[i as int],
    {
        &self.pkgs[i]
    }
}

} // verus!
