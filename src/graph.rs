use vstd::prelude::*;

verus! {

/// The stage of a package's build pipeline that a unit of work belongs to.
///
/// Start is the point where upstream freshness first becomes visible, custom
/// build logic runs before the library, and binaries and tests come last.
#[derive(Clone, Copy, Debug, PartialEq, Eq, Structural, Hash)]
pub enum TargetStage {
    Start,
    CustomBuild,
    Libraries,
    Binaries,
    Tests,
}

/// A package identifier: its name and its version.
#[derive(Debug)]
pub struct PackageId {
    pub name: String,
    pub version: String,
}

/// The mathematical value of a [`PackageId`].
pub type PkgV = (Seq<char>, Seq<char>);

/// The mathematical value of a [`Key`].
pub type KeyV = (PkgV, TargetStage);

impl View for PackageId {
    type V = PkgV;

    open spec fn view(&self) -> PkgV {
        (self.name@, self.version@)
    }
}

impl PackageId {
    pub fn new(name: String, version: String) -> (r: PackageId)
        ensures
            r@ == (name@, version@),
    {
        PackageId { name, version }
    }

    pub fn same(&self, other: &PackageId) -> (r: bool)
        ensures
            r == (self@ == other@),
    {
        self.name == other.name && self.version == other.version
    }

    pub fn copy(&self) -> (r: PackageId)
        ensures
            r@ == self@,
    {
        PackageId { name: self.name.clone(), version: self.version.clone() }
    }
}

/// A unit of scheduling: a package at one stage of its pipeline.
#[derive(Debug)]
pub struct Key {
    pub pkg: PackageId,
    pub stage: TargetStage,
}

impl View for Key {
    type V = KeyV;

    open spec fn view(&self) -> KeyV {
        (self.pkg@, self.stage)
    }
}

impl Key {
    pub fn new(pkg: PackageId, stage: TargetStage) -> (r: Key)
        ensures
            r@ == (pkg@, stage),
    {
        Key { pkg, stage }
    }

    pub fn same(&self, other: &Key) -> (r: bool)
        ensures
            r == (self@ == other@),
    {
        self.stage == other.stage && self.pkg.same(&other.pkg)
    }

    pub fn copy(&self) -> (r: Key)
        ensures
            r@ == self@,
    {
        Key { pkg: self.pkg.copy(), stage: self.stage }
    }
}

/// A dependency as a package declares it: the name it asks for, and whether
/// it is needed at run time (transitive) or only to build tests.
#[derive(Debug)]
pub struct DependencyDecl {
    pub name: String,
    pub transitive: bool,
}

/// A package of the build: its identifier, its declared dependencies and
/// the directory its manifest lies in.
#[derive(Debug)]
pub struct Package {
    pub id: PackageId,
    pub dependencies: Vec<DependencyDecl>,
    pub root: String,
}

/// The resolved dependency graph: for each package, the packages it uses.
/// A package without an entry has no dependencies.
#[derive(Debug)]
pub struct Resolve {
    pub edges: Vec<(PackageId, Vec<PackageId>)>,
}

/// The packages taking part in a build.
#[derive(Debug)]
pub struct PackageSet {
    pub packages: Vec<Package>,
}

/// The mathematical value of a [`DependencyDecl`].
pub open spec fn decl_view(d: DependencyDecl) -> (Seq<char>, bool) {
    (d.name@, d.transitive)
}

/// The mathematical value of a [`Package`]: its identifier and declarations.
pub open spec fn package_view(p: Package) -> (PkgV, Seq<(Seq<char>, bool)>) {
    (p.id@, p.dependencies@.map_values(|d: DependencyDecl| decl_view(d)))
}

impl View for Resolve {
    type V = Seq<(PkgV, Seq<PkgV>)>;

    open spec fn view(&self) -> Seq<(PkgV, Seq<PkgV>)> {
        self.edges@.map_values(
            |e: (PackageId, Vec<PackageId>)| (e.0@, e.1@.map_values(|p: PackageId| p@)),
        )
    }
}

impl View for PackageSet {
    type V = Seq<(PkgV, Seq<(Seq<char>, bool)>)>;

    open spec fn view(&self) -> Seq<(PkgV, Seq<(Seq<char>, bool)>)> {
        self.packages@.map_values(|p: Package| package_view(p))
    }
}

/// What can be wrong with the graph around a key.
#[derive(Debug)]
pub enum GraphError {
    /// A key or one of its predecessors names a package outside the package set.
    UnknownPackage(PackageId),
    /// A resolved dependency has no declaration of that name in its dependent.
    MissingDeclaration(PackageId),
}

/// The mathematical value of a [`GraphError`].
pub enum GraphFault {
    UnknownPackage(PkgV),
    MissingDeclaration(PkgV),
}

impl View for GraphError {
    type V = GraphFault;

    open spec fn view(&self) -> GraphFault {
        match self {
            GraphError::UnknownPackage(p) => GraphFault::UnknownPackage(p@),
            GraphError::MissingDeclaration(p) => GraphFault::MissingDeclaration(p@),
        }
    }
}

/// The dependencies that `r` lists for `id` from position `i` on: those of
/// the first entry for `id`, or none.
pub open spec fn resolved_from(r: Seq<(PkgV, Seq<PkgV>)>, id: PkgV, i: int) -> Seq<PkgV>
    decreases r.len() - i,
{
    if i < 0 || i >= r.len() {
        seq![]
    } else if r[i].0 == id {
        r[i].1
    } else {
        resolved_from(r, id, i + 1)
    }
}

/// The dependencies that `r` lists for `id`.
pub open spec fn resolved(r: Seq<(PkgV, Seq<PkgV>)>, id: PkgV) -> Seq<PkgV> {
    resolved_from(r, id, 0)
}

/// The first package of `ps` from position `i` on whose identifier is `id`.
pub open spec fn package_from(ps: Seq<(PkgV, Seq<(Seq<char>, bool)>)>, id: PkgV, i: int) -> Option<
    Seq<(Seq<char>, bool)>,
>
    decreases ps.len() - i,
{
    if i < 0 || i >= ps.len() {
        None
    } else if ps[i].0 == id {
        Some(ps[i].1)
    } else {
        package_from(ps, id, i + 1)
    }
}

/// The declarations of the package `id` in `ps`, if it is there.
pub open spec fn package_decls(ps: Seq<(PkgV, Seq<(Seq<char>, bool)>)>, id: PkgV) -> Option<
    Seq<(Seq<char>, bool)>,
> {
    package_from(ps, id, 0)
}

/// Whether the first declaration named `name` from position `i` on is
/// transitive, if there is one.
pub open spec fn decl_from(decls: Seq<(Seq<char>, bool)>, name: Seq<char>, i: int) -> Option<bool>
    decreases decls.len() - i,
{
    if i < 0 || i >= decls.len() {
        None
    } else if decls[i].0 == name {
        Some(decls[i].1)
    } else {
        decl_from(decls, name, i + 1)
    }
}

/// Whether the declaration of `name` is transitive, if there is one.
pub open spec fn decl_transitive(decls: Seq<(Seq<char>, bool)>, name: Seq<char>) -> Option<bool> {
    decl_from(decls, name, 0)
}

/// The library keys that the dependencies `deps` of package `id` contribute
/// as predecessors: those of transitive dependencies when `dev` is false,
/// those of dev-only ones when it is true. Self-edges are skipped.
pub open spec fn library_preds(
    ps: Seq<(PkgV, Seq<(Seq<char>, bool)>)>,
    decls: Seq<(Seq<char>, bool)>,
    id: PkgV,
    deps: Seq<PkgV>,
    dev: bool,
) -> Result<Seq<KeyV>, GraphFault>
    decreases deps.len(),
{
    if deps.len() == 0 {
        Ok(seq![])
    } else {
        match library_preds(ps, decls, id, deps.drop_last(), dev) {
            Err(e) => Err(e),
            Ok(prev) => {
                let d = deps.last();
                if d == id {
                    Ok(prev)
                } else {
                    match decl_transitive(decls, d.0) {
                        None => Err(GraphFault::MissingDeclaration(d)),
                        Some(t) => if t == dev {
                            Ok(prev)
                        } else if package_decls(ps, d) is None {
                            Err(GraphFault::UnknownPackage(d))
                        } else {
                            Ok(prev.push((d, TargetStage::Libraries)))
                        },
                    }
                }
            },
        }
    }
}

/// The predecessors of key `k` in the stage pipeline.
///
/// Start waits for the library of every transitive dependency; each later
/// stage waits for the previous one of its own package; tests also wait for
/// the library of every dev-only dependency.
pub open spec fn predecessors(
    r: Seq<(PkgV, Seq<PkgV>)>,
    ps: Seq<(PkgV, Seq<(Seq<char>, bool)>)>,
    k: KeyV,
) -> Result<Seq<KeyV>, GraphFault> {
    let id = k.0;
    match package_decls(ps, id) {
        None => Err(GraphFault::UnknownPackage(id)),
        Some(decls) => match k.1 {
            TargetStage::Start => library_preds(ps, decls, id, resolved(r, id), false),
            TargetStage::CustomBuild => Ok(seq![(id, TargetStage::Start)]),
            TargetStage::Libraries => Ok(seq![(id, TargetStage::CustomBuild)]),
            TargetStage::Binaries => Ok(seq![(id, TargetStage::Libraries)]),
            TargetStage::Tests => match library_preds(ps, decls, id, resolved(r, id), true) {
                Err(e) => Err(e),
                Ok(devs) => Ok(seq![(id, TargetStage::Libraries)] + devs),
            },
        },
    }
}

impl Resolve {
    /// The position of the first entry for `id`, if any.
    fn position(&self, id: &PackageId) -> (r: Option<usize>)
        ensures
            match r {
                None => resolved(self@, id@) == Seq::<PkgV>::empty(),
                Some(i) => i < self.edges.len() && resolved(self@, id@) == self@[i as int].1,
            },
    {
        let mut i: usize = 0;
        while i < self.edges.len()
            invariant
                i <= self.edges.len(),
                resolved(self@, id@) == resolved_from(self@, id@, i as int),
            decreases self.edges.len() - i,
        {
            if self.edges[i].0.same(id) {
                return Some(i);
            }
            i = i + 1;
        }
        None
    }
}

impl PackageSet {
    /// The position of the first package whose identifier is `id`, if any.
    pub fn position(&self, id: &PackageId) -> (r: Option<usize>)
        ensures
            match r {
                None => package_decls(self@, id@) is None,
                Some(i) => i < self.packages.len() && self.packages[i as int].id@ == id@
                    && package_decls(self@, id@) == Some(self@[i as int].1),
            },
    {
        let mut i: usize = 0;
        while i < self.packages.len()
            invariant
                i <= self.packages.len(),
                package_decls(self@, id@) == package_from(self@, id@, i as int),
            decreases self.packages.len() - i,
        {
            if self.packages[i].id.same(id) {
                return Some(i);
            }
            i = i + 1;
        }
        None
    }
}

impl Package {
    /// Whether the first declaration named like `dep` is transitive, if any.
    fn declared_transitive(&self, dep: &PackageId) -> (r: Option<bool>)
        ensures
            r == decl_transitive(package_view(*self).1, dep.name@),
    {
        let ghost decls = package_view(*self).1;
        let mut i: usize = 0;
        while i < self.dependencies.len()
            invariant
                i <= self.dependencies.len(),
                decls == self.dependencies@.map_values(|d: DependencyDecl| decl_view(d)),
                decl_transitive(decls, dep.name@) == decl_from(decls, dep.name@, i as int),
            decreases self.dependencies.len() - i,
        {
            if self.dependencies[i].name == dep.name {
                return Some(self.dependencies[i].transitive);
            }
            i = i + 1;
        }
        None
    }
}

/// The library keys contributed by the dependencies `deps` of `pkg`: of the
/// transitive ones when `dev` is false, of the dev-only ones when it is true.
fn library_keys(packages: &PackageSet, pkg: &Package, deps: &Vec<PackageId>, dev: bool) -> (r:
    Result<Vec<Key>, GraphError>)
    ensures
        match (r, library_preds(
            packages@,
            package_view(*pkg).1,
            pkg.id@,
            deps@.map_values(|p: PackageId| p@),
            dev,
        )) {
            (Ok(v), Ok(s)) => v@.map_values(|k: Key| k@) == s,
            (Err(e), Err(f)) => e@ == f,
            _ => false,
        },
{
    let ghost ps = packages@;
    let ghost decls = package_view(*pkg).1;
    let ghost dv = deps@.map_values(|p: PackageId| p@);
    let mut out: Vec<Key> = Vec::new();
    let mut j: usize = 0;
    proof {
        assert(dv.subrange(0, 0) =~= Seq::<PkgV>::empty());
        assert(out@.map_values(|k: Key| k@) =~= Seq::<KeyV>::empty());
    }
    while j < deps.len()
        invariant
            j <= deps.len(),
            ps == packages@,
            decls == package_view(*pkg).1,
            dv == deps@.map_values(|p: PackageId| p@),
            library_preds(ps, decls, pkg.id@, dv.subrange(0, j as int), dev) == Ok::<
                Seq<KeyV>,
                GraphFault,
            >(out@.map_values(|k: Key| k@)),
        decreases deps.len() - j,
    {
        let d = &deps[j];
        proof {
            assert(dv.subrange(0, j + 1).drop_last() =~= dv.subrange(0, j as int));
            assert(dv.subrange(0, j + 1).last() == d@);
        }
        if !d.same(&pkg.id) {
            match pkg.declared_transitive(d) {
                None => {
                    proof {
                        assert(library_preds(ps, decls, pkg.id@, dv.subrange(0, j + 1), dev)
                            == Err::<Seq<KeyV>, GraphFault>(GraphFault::MissingDeclaration(d@)));
                        lemma_library_preds_err(ps, decls, pkg.id@, dv, dev, j + 1);
                    }
                    return Err(GraphError::MissingDeclaration(d.copy()));
                },
                Some(t) => {
                    if t != dev {
                        if packages.position(d).is_none() {
                            proof {
                                lemma_library_preds_err(ps, decls, pkg.id@, dv, dev, j + 1);
                            }
                            return Err(GraphError::UnknownPackage(d.copy()));
                        }
                        let k = Key::new(d.copy(), TargetStage::Libraries);
                        let ghost before = out@;
                        out.push(k);
                        proof {
                            assert(out@.map_values(|k: Key| k@) =~= before.map_values(
                                |k: Key| k@,
                            ).push((d@, TargetStage::Libraries)));
                        }
                    }
                },
            }
        }
        j = j + 1;
    }
    proof {
        assert(dv.subrange(0, deps.len() as int) =~= dv);
    }
    Ok(out)
}

/// Once the fold over a prefix of `deps` has failed, the fold over all of it
/// fails with the same error.
proof fn lemma_library_preds_err(
    ps: Seq<(PkgV, Seq<(Seq<char>, bool)>)>,
    decls: Seq<(Seq<char>, bool)>,
    id: PkgV,
    deps: Seq<PkgV>,
    dev: bool,
    n: int,
)
    requires
        0 <= n <= deps.len(),
        library_preds(ps, decls, id, deps.subrange(0, n), dev) is Err,
    ensures
        library_preds(ps, decls, id, deps, dev) == library_preds(
            ps,
            decls,
            id,
            deps.subrange(0, n),
            dev,
        ),
    decreases deps.len() - n,
{
    if n < deps.len() {
        assert(deps.subrange(0, n + 1).drop_last() =~= deps.subrange(0, n));
        lemma_library_preds_err(ps, decls, id, deps, dev, n + 1);
    } else {
        assert(deps.subrange(0, n) =~= deps);
    }
}

/// Whether the resolve lists package `id` among its own dependencies. Such
/// an edge is skipped by [`dependencies`]; a caller may warn about it.
pub fn self_edge(resolve: &Resolve, id: &PackageId) -> (r: bool)
    ensures
        r == resolved(resolve@, id@).contains(id@),
{
    match resolve.position(id) {
        None => false,
        Some(i) => {
            let deps = &resolve.edges[i].1;
            let ghost dv = deps@.map_values(|p: PackageId| p@);
            assert(resolve@[i as int].1 == dv);
            let mut j: usize = 0;
            while j < deps.len()
                invariant
                    j <= deps.len(),
                    dv == deps@.map_values(|p: PackageId| p@),
                    dv == resolved(resolve@, id@),
                    forall|k: int| 0 <= k < j ==> #[trigger] dv[k] != id@,
                decreases deps.len() - j,
            {
                if deps[j].same(id) {
                    assert(dv[j as int] == id@);
                    return true;
                }
                j = j + 1;
            }
            false
        },
    }
}

/// The predecessors of `key`: the graph adapter of the scheduler.
pub fn dependencies(key: &Key, resolve: &Resolve, packages: &PackageSet) -> (r: Result<
    Vec<Key>,
    GraphError,
>)
    ensures
        match (r, predecessors(resolve@, packages@, key@)) {
            (Ok(v), Ok(s)) => v@.map_values(|k: Key| k@) == s,
            (Err(e), Err(f)) => e@ == f,
            _ => false,
        },
{
    let id = &key.pkg;
    let pi = match packages.position(id) {
        None => {
            return Err(GraphError::UnknownPackage(id.copy()));
        },
        Some(i) => i,
    };
    let pkg = &packages.packages[pi];
    proof {
        assert(packages@[pi as int] == package_view(*pkg));
    }
    let empty: Vec<PackageId> = Vec::new();
    let deps: &Vec<PackageId> = match resolve.position(id) {
        None => &empty,
        Some(i) => {
            proof {
                assert(resolve@[i as int].1 == resolve.edges[i as int].1@.map_values(
                    |p: PackageId| p@,
                ));
            }
            &resolve.edges[i].1
        },
    };
    proof {
        assert(deps@.map_values(|p: PackageId| p@) =~= resolved(resolve@, id@));
    }
    match key.stage {
        TargetStage::Start => library_keys(packages, pkg, deps, false),
        TargetStage::CustomBuild => {
            let r = vec![Key::new(id.copy(), TargetStage::Start)];
            proof {
                assert(r@.map_values(|k: Key| k@) =~= seq![(id@, TargetStage::Start)]);
            }
            Ok(r)
        },
        TargetStage::Libraries => {
            let r = vec![Key::new(id.copy(), TargetStage::CustomBuild)];
            proof {
                assert(r@.map_values(|k: Key| k@) =~= seq![(id@, TargetStage::CustomBuild)]);
            }
            Ok(r)
        },
        TargetStage::Binaries => {
            let r = vec![Key::new(id.copy(), TargetStage::Libraries)];
            proof {
                assert(r@.map_values(|k: Key| k@) =~= seq![(id@, TargetStage::Libraries)]);
            }
            Ok(r)
        },
        TargetStage::Tests => {
            let devs = library_keys(packages, pkg, deps, true)?;
            let mut r = vec![Key::new(id.copy(), TargetStage::Libraries)];
            let ghost first = r@;
            let mut i: usize = 0;
            while i < devs.len()
                invariant
                    i <= devs.len(),
                    r@.len() == 1 + i,
                    r@.map_values(|k: Key| k@) =~= seq![(id@, TargetStage::Libraries)] + devs@.map_values(
                        |k: Key| k@,
                    ).subrange(0, i as int),
                decreases devs.len() - i,
            {
                let ghost before = r@;
                r.push(devs[i].copy());
                i = i + 1;
                proof {
                    assert(r@.map_values(|k: Key| k@) =~= before.map_values(|k: Key| k@).push(
                        devs@[i - 1]@,
                    ));
                    assert(devs@.map_values(|k: Key| k@).subrange(0, i as int) =~= devs@.map_values(
                        |k: Key| k@,
                    ).subrange(0, i - 1).push(devs@[i - 1]@));
                    assert(r@.map_values(|k: Key| k@) =~= seq![(id@, TargetStage::Libraries)]
                        + devs@.map_values(|k: Key| k@).subrange(0, i as int));
                }
            }
            proof {
                assert(devs@.map_values(|k: Key| k@).subrange(0, devs.len() as int) =~= devs@.map_values(
                    |k: Key| k@,
                ));
            }
            Ok(r)
        },
    }
}

} // verus!
