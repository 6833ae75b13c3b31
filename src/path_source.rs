use vstd::prelude::*;

use crate::graph::{Package, PackageId, PkgV};

verus! {

/// Where the packages of a source come from.
#[derive(Debug)]
pub struct SourceId {
    pub url: String,
}

/// Why a path source could not answer.
#[derive(Debug, PartialEq, Eq, Structural)]
pub enum SourceError {
    /// The source has not read its packages yet.
    NotUpdated,
    /// No package of the source has its root at the source's path.
    NoRootPackage,
}

/// A source of packages under one directory, read once when updated.
#[derive(Debug)]
pub struct PathSource {
    id: SourceId,
    path: String,
    updated: bool,
    packages: Vec<Package>,
}

/// The largest of `s`, or zero.
pub open spec fn max_of(s: Seq<u64>) -> u64
    decreases s.len(),
{
    if s.len() == 0 {
        0
    } else if max_of(s.drop_last()) >= s.last() {
        max_of(s.drop_last())
    } else {
        s.last()
    }
}

/// The identifiers of `ps` that occur in `ids`, in order.
pub open spec fn selected(ps: Seq<PkgV>, ids: Seq<PkgV>) -> Seq<PkgV>
    decreases ps.len(),
{
    if ps.len() == 0 {
        seq![]
    } else if ids.contains(ps.last()) {
        selected(ps.drop_last(), ids).push(ps.last())
    } else {
        selected(ps.drop_last(), ids)
    }
}

/// The first package of `ps` from position `i` on whose root is `root`.
pub open spec fn root_from(ps: Seq<Package>, root: Seq<char>, i: int) -> Option<int>
    decreases ps.len() - i,
{
    if i < 0 || i >= ps.len() {
        None
    } else if ps[i].root@ == root {
        Some(i)
    } else {
        root_from(ps, root, i + 1)
    }
}

impl PathSource {
    pub closed spec fn id_view(&self) -> Seq<char> {
        self.id.url@
    }

    pub closed spec fn path_view(&self) -> Seq<char> {
        self.path@
    }

    pub closed spec fn is_updated(&self) -> bool {
        self.updated
    }

    pub closed spec fn packages_view(&self) -> Seq<Package> {
        self.packages@
    }

    /// A source for the directory `path`, which holds a manifest; its
    /// packages are read when it is updated.
    pub fn new(path: &String, id: &SourceId) -> (r: PathSource)
        ensures
            r.path_view() == path@,
            r.id_view() == id.url@,
            !r.is_updated(),
            r.packages_view().len() == 0,
    {
        PathSource {
            id: SourceId { url: id.url.clone() },
            path: path.clone(),
            updated: false,
            packages: Vec::new(),
        }
    }

    /// Takes in the packages read from the source's directory, the first
    /// time only.
    pub fn update(&mut self, read: Vec<Package>)
        ensures
            final(self).is_updated(),
            final(self).path_view() == old(self).path_view(),
            final(self).id_view() == old(self).id_view(),
            !old(self).is_updated() ==> final(self).packages_view() == old(self).packages_view()
                + read@,
            old(self).is_updated() ==> final(self).packages_view() == old(self).packages_view(),
    {
        if !self.updated {
            let mut read = read;
            self.packages.append(&mut read);
            self.updated = true;
        }
    }

    /// The package whose root is the source's own path.
    pub fn get_root_package(&self) -> (r: Result<&Package, SourceError>)
        ensures
            !self.is_updated() ==> r == Err::<&Package, SourceError>(SourceError::NotUpdated),
            self.is_updated() ==> match root_from(self.packages_view(), self.path_view(), 0) {
                None => r == Err::<&Package, SourceError>(SourceError::NoRootPackage),
                Some(i) => r == Ok::<&Package, SourceError>(&self.packages_view()[i]),
            },
    {
        if !self.updated {
            return Err(SourceError::NotUpdated);
        }
        let mut i: usize = 0;
        while i < self.packages.len()
            invariant
                i <= self.packages.len(),
                self.updated,
                root_from(self.packages@, self.path@, 0) == root_from(self.packages@, self.path@, i as int),
            decreases self.packages.len() - i,
        {
            if self.packages[i].root == self.path {
                return Ok(&self.packages[i]);
            }
            i = i + 1;
        }
        Err(SourceError::NoRootPackage)
    }

    /// The packages of the source whose identifier is among `ids`, in the
    /// source's order.
    pub fn get(&self, ids: &Vec<PackageId>) -> (r: Vec<&Package>)
        ensures
            r@.map_values(|p: &Package| p.id@) == selected(
                self.packages_view().map_values(|p: Package| p.id@),
                ids@.map_values(|p: PackageId| p@),
            ),
    {
        let ghost pv = self.packages@.map_values(|p: Package| p.id@);
        let ghost iv = ids@.map_values(|p: PackageId| p@);
        let mut out: Vec<&Package> = Vec::new();
        let mut i: usize = 0;
        proof {
            assert(pv.subrange(0, 0) =~= Seq::<PkgV>::empty());
            assert(out@.map_values(|p: &Package| p.id@) =~= Seq::<PkgV>::empty());
        }
        while i < self.packages.len()
            invariant
                i <= self.packages.len(),
                pv == self.packages@.map_values(|p: Package| p.id@),
                iv == ids@.map_values(|p: PackageId| p@),
                out@.map_values(|p: &Package| p.id@) == selected(pv.subrange(0, i as int), iv),
            decreases self.packages.len() - i,
        {
            let p = &self.packages[i];
            let mut found = false;
            let mut j: usize = 0;
            while j < ids.len()
                invariant
                    j <= ids.len(),
                    iv == ids@.map_values(|p: PackageId| p@),
                    found == exists|k: int| 0 <= k < j && iv[k] == p.id@,
                decreases ids.len() - j,
            {
                let m = ids[j].same(&p.id);
                proof {
                    assert(iv[j as int] == ids@[j as int]@);
                    if found {
                        let k = choose|k: int| 0 <= k < j && iv[k] == p.id@;
                        assert(0 <= k < j + 1 && iv[k] == p.id@);
                    }
                    if !m && !found {
                        assert forall|k: int| 0 <= k < j + 1 implies iv[k] != p.id@ by {
                            if k < j {
                                assert(!(0 <= k < j && iv[k] == p.id@));
                            }
                        }
                    }
                }
                if m {
                    found = true;
                }
                j = j + 1;
            }
            proof {
                assert(pv.subrange(0, i + 1).drop_last() =~= pv.subrange(0, i as int));
                assert(pv.subrange(0, i + 1).last() == p.id@);
                if iv.contains(p.id@) {
                    let k = choose|k: int| 0 <= k < iv.len() && iv[k] == p.id@;
                    assert(found);
                }
                if found {
                    let k = choose|k: int| 0 <= k < j && iv[k] == p.id@;
                    assert(iv.contains(p.id@));
                }
            }
            if found {
                let ghost before = out@;
                out.push(p);
                proof {
                    assert(out@.map_values(|p: &Package| p.id@) =~= before.map_values(
                        |p: &Package| p.id@,
                    ).push(p.id@));
                }
            }
            i = i + 1;
        }
        proof {
            assert(pv.subrange(0, self.packages.len() as int) =~= pv);
        }
        out
    }

    /// The fingerprint of a package of the source: the latest modification
    /// time among its files, or zero when it has none.
    pub fn fingerprint(&self, mtimes: &Vec<u64>) -> (r: Result<u64, SourceError>)
        ensures
            !self.is_updated() ==> r == Err::<u64, SourceError>(SourceError::NotUpdated),
            self.is_updated() ==> r == Ok::<u64, SourceError>(max_of(mtimes@)),
    {
        if !self.updated {
            return Err(SourceError::NotUpdated);
        }
        let mut max: u64 = 0;
        let mut i: usize = 0;
        proof {
            assert(mtimes@.subrange(0, 0) =~= Seq::<u64>::empty());
        }
        while i < mtimes.len()
            invariant
                i <= mtimes.len(),
                max == max_of(mtimes@.subrange(0, i as int)),
            decreases mtimes.len() - i,
        {
            proof {
                assert(mtimes@.subrange(0, i + 1).drop_last() =~= mtimes@.subrange(0, i as int));
            }
            if mtimes[i] > max {
                max = mtimes[i];
            }
            i = i + 1;
        }
        proof {
            assert(mtimes@.subrange(0, mtimes.len() as int) =~= mtimes@);
        }
        Ok(max)
    }
}

} // verus!
