//! Workspace packages: name, local version, manifest location, declared
//! dependencies, and the publishability filter.

use vstd::prelude::*;

use crate::version::{Version, VersionView};

verus! {

/// Which dependency table of a manifest an entry lives in.
#[derive(Debug, PartialEq, Eq, Clone, Copy, Structural)]
pub enum DepKind {
    Normal,
    Dev,
    Build,
}

/// One declared dependency of a package.
pub struct Dependency {
    /// Name of the depended-on package.
    pub name: String,
    /// The declared version requirement, as written in the manifest.
    pub req: String,
    pub kind: DepKind,
}

/// The mathematical value of a [`Dependency`].
#[verifier::ext_equal]
pub struct DependencyView {
    pub name: Seq<char>,
    pub req: Seq<char>,
    pub kind: DepKind,
}

impl View for Dependency {
    type V = DependencyView;

    open spec fn view(&self) -> DependencyView {
        DependencyView { name: self.name@, req: self.req@, kind: self.kind }
    }
}

impl DeepView for Dependency {
    type V = DependencyView;

    open spec fn deep_view(&self) -> DependencyView {
        self.view()
    }
}

/// One member package of the workspace, as the metadata provider reports it.
pub struct Package {
    /// Unique name within the workspace.
    pub name: String,
    /// The current local version.
    pub version: Version,
    /// Path of the package's manifest file.
    pub manifest_path: String,
    /// The manifest's allow-list of registries; `Some` of an empty list marks
    /// the package as not publishable.
    pub publish: Option<Vec<String>>,
    /// Declared dependencies, in manifest order.
    pub dependencies: Vec<Dependency>,
}

/// The mathematical value of a [`Package`].
#[verifier::ext_equal]
pub struct PackageView {
    pub name: Seq<char>,
    pub version: VersionView,
    pub manifest_path: Seq<char>,
    pub publish: Option<Seq<Seq<char>>>,
    pub deps: Seq<DependencyView>,
}

impl View for Package {
    type V = PackageView;

    open spec fn view(&self) -> PackageView {
        PackageView {
            name: self.name@,
            version: self.version@,
            manifest_path: self.manifest_path@,
            publish: self.publish.deep_view(),
            deps: self.dependencies.deep_view(),
        }
    }
}

impl DeepView for Package {
    type V = PackageView;

    open spec fn deep_view(&self) -> PackageView {
        self.view()
    }
}

/// The wildcard version requirement `*`.
pub open spec fn wildcard_req(s: Seq<char>) -> bool {
    s =~= seq!['*']
}

/// A package is a candidate for bumping and publishing unless its manifest
/// carries an empty registry allow-list, or one of its dependency
/// requirements is the wildcard (a workspace convention for "not ready for
/// public release").
pub open spec fn can_publish_spec(p: PackageView) -> bool {
    &&& !(p.publish matches Some(l) && l.len() == 0)
    &&& forall|i: int| 0 <= i < p.deps.len() ==> !wildcard_req((#[trigger] p.deps[i]).req)
}

/// Decides whether a package may be bumped and published at all.
pub fn can_publish(p: &Package) -> (r: bool)
    ensures
        r == can_publish_spec(p@),
{
    match &p.publish {
        Some(l) => {
            if l.len() == 0 {
                return false;
            }
        },
        None => {},
    }
    let mut i: usize = 0;
    while i < p.dependencies.len()
        invariant
            i <= p.dependencies.len(),
            forall|j: int| 0 <= j < i ==> !wildcard_req((#[trigger] p@.deps[j]).req),
            !(p@.publish matches Some(l) && l.len() == 0),
        decreases p.dependencies.len() - i,
    {
        let req = &p.dependencies[i].req;
        if req.as_str().unicode_len() == 1 {
            if req.as_str().get_char(0) == '*' {
                proof {
                    assert(p@.deps[i as int].req =~= seq!['*']);
                }
                return false;
            }
        }
        proof {
            assert(!wildcard_req(p@.deps[i as int].req));
        }
        i = i + 1;
    }
    true
}

/// `name` names a workspace package that passes the publishability filter.
pub open spec fn is_publishable_member(pkgs: Seq<PackageView>, name: Seq<char>) -> bool {
    exists|i: int|
        0 <= i < pkgs.len() && (#[trigger] pkgs[i]).name == name && can_publish_spec(pkgs[i])
}

/// `p` declares a direct dependency (of any kind) on `name`.
pub open spec fn depends_on(p: PackageView, name: Seq<char>) -> bool {
    exists|i: int| 0 <= i < p.deps.len() && (#[trigger] p.deps[i]).name == name
}

/// Package names are pairwise distinct, as workspace membership guarantees.
pub open spec fn distinct_names(pkgs: Seq<PackageView>) -> bool {
    forall|i: int, j: int|
        0 <= i < j < pkgs.len() ==> (#[trigger] pkgs[i]).name != (#[trigger] pkgs[j]).name
}

impl Dependency {
    /// An exact copy of this dependency entry.
    pub fn duplicate(&self) -> (r: Dependency)
        ensures
            r@ == self@,
    {
        Dependency { name: self.name.clone(), req: self.req.clone(), kind: self.kind }
    }
}

impl Package {
    /// An exact copy of this package record.
    pub fn duplicate(&self) -> (r: Package)
        ensures
            r@ == self@,
    {
        let publish = match &self.publish {
            None => None,
            Some(l) => {
                let mut regs: Vec<String> = Vec::new();
                let mut i: usize = 0;
                while i < l.len()
                    invariant
                        i <= l.len(),
                        regs@.len() == i,
                        forall|j: int| 0 <= j < i ==> (#[trigger] regs@[j])@ == l@[j]@,
                    decreases l.len() - i,
                {
                    regs.push(l[i].clone());
                    i = i + 1;
                }
                Some(regs)
            },
        };
        let mut deps: Vec<Dependency> = Vec::new();
        let mut i: usize = 0;
        while i < self.dependencies.len()
            invariant
                i <= self.dependencies.len(),
                deps@.len() == i,
                forall|j: int| 0 <= j < i ==> (#[trigger] deps@[j])@ == self.dependencies@[j]@,
            decreases self.dependencies.len() - i,
        {
            deps.push(self.dependencies[i].duplicate());
            i = i + 1;
        }
        let r = Package {
            name: self.name.clone(),
            version: self.version.duplicate(),
            manifest_path: self.manifest_path.clone(),
            publish,
            dependencies: deps,
        };
        proof {
            assert forall|j: int| 0 <= j < r.dependencies@.len() implies r.dependencies.deep_view()[j]
                == self.dependencies.deep_view()[j] by {
                assert(r.dependencies.deep_view()[j] == r.dependencies@[j].deep_view());
                assert(self.dependencies.deep_view()[j] == self.dependencies@[j].deep_view());
            }
            assert(r.dependencies.deep_view() =~= self.dependencies.deep_view());
            match (&r.publish, &self.publish) {
                (Some(a), Some(b)) => {
                    assert forall|j: int| 0 <= j < a@.len() implies a.deep_view()[j]
                        == b.deep_view()[j] by {
                        assert(a.deep_view()[j] == a@[j]@);
                        assert(b.deep_view()[j] == b@[j]@);
                    }
                    assert(a.deep_view() =~= b.deep_view());
                },
                _ => {},
            }
            assert(r@ =~= self@);
        }
        r
    }
}

/// Keeps exactly the packages that pass the publishability filter, in order.
pub fn filter_publishable(packages: &Vec<Package>) -> (r: Vec<Package>)
    ensures
        r.deep_view() == packages.deep_view().filter(|p: PackageView| can_publish_spec(p)),
{
    let ghost pred = |p: PackageView| can_publish_spec(p);
    let mut out: Vec<Package> = Vec::new();
    let mut i: usize = 0;
    proof {
        reveal(Seq::filter);
        assert(packages.deep_view().take(0).filter(pred) =~= Seq::<PackageView>::empty());
        assert(out.deep_view() =~= Seq::<PackageView>::empty());
    }
    while i < packages.len()
        invariant
            i <= packages.len(),
            out.deep_view() == packages.deep_view().take(i as int).filter(pred),
            pred == (|p: PackageView| can_publish_spec(p)),
        decreases packages.len() - i,
    {
        let ghost prefix = packages.deep_view().take(i as int);
        let ghost next = packages.deep_view().take(i as int + 1);
        proof {
            reveal(Seq::filter);
            assert(next.drop_last() =~= prefix);
            assert(next.last() == packages.deep_view()[i as int]);
        }
        if can_publish(&packages[i]) {
            let ghost out_before = out.deep_view();
            let copy = packages[i].duplicate();
            out.push(copy);
            proof {
                assert forall|j: int| 0 <= j < out@.len() implies out.deep_view()[j]
                    == out_before.push(packages.deep_view()[i as int])[j] by {
                    assert(out.deep_view()[j] == out@[j].deep_view());
                }
                assert(out.deep_view() =~= out_before.push(packages.deep_view()[i as int]));
                assert(next.filter(pred) == prefix.filter(pred).push(next.last()));
            }
        } else {
            proof {
                assert(next.filter(pred) == prefix.filter(pred));
            }
        }
        i = i + 1;
    }
    proof {
        assert(packages.deep_view().take(packages@.len() as int) =~= packages.deep_view());
    }
    out
}

/// Decides whether a package declares a direct dependency on `name`.
pub fn has_dependency_on(p: &Package, name: &String) -> (r: bool)
    ensures
        r == depends_on(p@, name@),
{
    let mut i: usize = 0;
    while i < p.dependencies.len()
        invariant
            i <= p.dependencies.len(),
            forall|j: int| 0 <= j < i ==> (#[trigger] p@.deps[j]).name != name@,
        decreases p.dependencies.len() - i,
    {
        if p.dependencies[i].name == *name {
            proof {
                assert(p@.deps[i as int].name == name@);
            }
            return true;
        }
        i = i + 1;
    }
    false
}

} // verus!
