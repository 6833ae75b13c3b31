use vstd::prelude::*;

use crate::graph::{PackageId, PkgV};

verus! {

/// An installed build target: a package name and the package it resolves to.
#[derive(Debug)]
pub struct Target {
    pub name: String,
    pub package_id: PackageId,
}

/// The mathematical value of a [`Target`].
pub open spec fn target_view(t: Target) -> (Seq<char>, PkgV) {
    (t.name@, t.package_id@)
}

/// The position of the first target named `name` in `ts` from position `i` on.
pub open spec fn target_from(ts: Seq<(Seq<char>, PkgV)>, name: Seq<char>, i: int) -> Option<int>
    decreases ts.len() - i,
{
    if i < 0 || i >= ts.len() {
        None
    } else if ts[i].0 == name {
        Some(i)
    } else {
        target_from(ts, name, i + 1)
    }
}

/// The list of targets after installing `pkg`: the first target of that name
/// now points at `pkg`, or a new target is added at the end.
pub open spec fn installed(ts: Seq<(Seq<char>, PkgV)>, pkg: PkgV) -> Seq<(Seq<char>, PkgV)> {
    match target_from(ts, pkg.0, 0) {
        Some(i) => ts.update(i, (pkg.0, pkg)),
        None => ts.push((pkg.0, pkg)),
    }
}

/// Access to the registry of installed build targets, kept in one file of
/// a directory.
#[derive(Debug)]
pub struct BuildTargets {
    dir: String,
}

impl BuildTargets {
    pub closed spec fn dir_view(&self) -> Seq<char> {
        self.dir@
    }

    pub fn new(dir: &String) -> (r: BuildTargets)
        ensures
            r.dir_view() == dir@,
    {
        BuildTargets { dir: dir.clone() }
    }

    /// The directory that holds the registry file.
    pub fn dir(&self) -> (r: &String)
        ensures
            r@ == self.dir_view(),
    {
        &self.dir
    }

    /// Records `pkg` in the registry `content`, replacing the package of the
    /// target with the same name or adding a target.
    pub fn install(&self, targets: Vec<Target>, pkg: &PackageId) -> (r: Vec<Target>)
        ensures
            r@.map_values(|t: Target| target_view(t)) == installed(
                targets@.map_values(|t: Target| target_view(t)),
                pkg@,
            ),
    {
        let ghost tv = targets@.map_values(|t: Target| target_view(t));
        let mut content = targets;
        let mut i: usize = 0;
        while i < content.len()
            invariant
                i <= content.len(),
                tv == content@.map_values(|t: Target| target_view(t)),
                tv == targets@.map_values(|t: Target| target_view(t)),
                target_from(tv, pkg@.0, 0) == target_from(tv, pkg@.0, i as int),
            decreases content.len() - i,
        {
            if content[i].name == pkg.name {
                assert(tv[i as int].0 == pkg@.0);
                assert(target_from(tv, pkg@.0, 0) == Some(i as int));
                let name = content[i].name.clone();
                content.set(i, Target { name, package_id: pkg.copy() });
                proof {
                    assert(content@.map_values(|t: Target| target_view(t)) =~= tv.update(
                        i as int,
                        (pkg@.0, pkg@),
                    ));
                }
                return content;
            }
            i = i + 1;
        }
        content.push(Target { name: pkg.name.clone(), package_id: pkg.copy() });
        proof {
            assert(content@.map_values(|t: Target| target_view(t)) =~= tv.push((pkg@.0, pkg@)));
        }
        content
    }
}

} // verus!
