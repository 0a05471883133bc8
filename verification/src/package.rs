//! The packages of a workspace and their dependencies.

use crate::version::{Version, VersionView};
use vstd::prelude::*;

verus! {

/// What a dependency is needed for.
#[derive(Debug, Clone, Copy, PartialEq, Eq, Structural)]
pub enum DependencyKind {
    Normal,
    Build,
    Development,
    /// A kind that is not known. Such a dependency orders nothing and pins
    /// nothing; its requirement is read like any other.
    Unknown,
}

/// One entry of a package's dependency tables.
#[derive(Debug)]
pub struct Dependency {
    /// The name of the package depended on.
    pub name: String,
    pub kind: DependencyKind,
    /// The version requirement, as written.
    pub req: String,
    /// The directory of the package, where it is a package of the workspace.
    pub path: Option<String>,
    /// The name under which the package is used, where it differs.
    pub rename: Option<String>,
    /// The registry or repository the package comes from, if any.
    pub source: Option<String>,
}

/// Settings that a package's own metadata may carry.
#[derive(Debug, Default, Clone, Copy)]
pub struct PackageConfig {
    /// Whether the package is versioned on its own.
    pub independent: Option<bool>,
}

/// Settings that the workspace's metadata may carry.
#[derive(Debug, Default)]
pub struct WorkspaceConfig {
    pub allow_branch: Option<String>,
    pub no_individual_tags: Option<bool>,
}

/// A package of the workspace.
#[derive(Debug)]
pub struct Package {
    pub id: String,
    pub name: String,
    pub version: Version,
    /// The path of the manifest; no two packages share one.
    pub manifest_path: String,
    pub dependencies: Vec<Dependency>,
    /// The registries the package may be published to, if restricted.
    pub publish: Option<Vec<String>>,
    pub config: PackageConfig,
    pub description: Option<String>,
    pub license: Option<String>,
    pub license_file: Option<String>,
    pub homepage: Option<String>,
    pub documentation: Option<String>,
    pub repository: Option<String>,
    pub keywords: Vec<String>,
}

/// The mathematical value of a [`Dependency`].
pub struct DependencyView {
    pub name: Seq<char>,
    pub kind: DependencyKind,
    pub req: Seq<char>,
    /// Whether the dependency resolves to a path of the workspace.
    pub local: bool,
    /// Whether the dependency comes from a registry or repository.
    pub sourced: bool,
}

/// The mathematical value of a [`Package`], as far as ordering and planning
/// read it.
pub struct PackageView {
    pub name: Seq<char>,
    pub version: VersionView,
    pub manifest_path: Seq<char>,
    pub dependencies: Seq<DependencyView>,
    pub private: bool,
    pub independent: bool,
}

impl View for Dependency {
    type V = DependencyView;

    open spec fn view(&self) -> DependencyView {
        DependencyView {
            name: self.name@,
            kind: self.kind,
            req: self.req@,
            local: self.path is Some,
            sourced: self.source is Some,
        }
    }
}

/// The values of a list of dependencies.
pub open spec fn dependency_views(deps: Seq<Dependency>) -> Seq<DependencyView> {
    deps.map_values(|d: Dependency| d@)
}

impl View for Package {
    type V = PackageView;

    open spec fn view(&self) -> PackageView {
        PackageView {
            name: self.name@,
            version: self.version@,
            manifest_path: self.manifest_path@,
            dependencies: dependency_views(self.dependencies@),
            private: self.publish is Some && self.publish->Some_0@.len() == 0,
            independent: self.config.independent == Some(true),
        }
    }
}

/// The values of a list of packages, each paired with a version text.
pub open spec fn package_views(pkgs: Seq<(Package, String)>) -> Seq<PackageView> {
    pkgs.map_values(|p: (Package, String)| p.0@)
}

/// Whether the package may not be published: its list of registries is
/// there and empty.
pub fn is_private(pkg: &Package) -> (r: bool)
    ensures
        r == pkg@.private,
{
    match &pkg.publish {
        Some(registries) => registries.len() == 0,
        None => false,
    }
}

/// Whether the package is versioned on its own.
pub fn is_independent(pkg: &Package) -> (r: bool)
    ensures
        r == pkg@.independent,
{
    match pkg.config.independent {
        Some(b) => b,
        None => false,
    }
}

/// A copy of an optional text.
pub fn copy_text(text: &Option<String>) -> (r: Option<String>)
    ensures
        r == *text,
{
    match text {
        Some(t) => Some(t.clone()),
        None => None,
    }
}

/// A copy of a list of texts.
pub fn copy_texts(list: &Vec<String>) -> (r: Vec<String>)
    ensures
        r@ == list@,
{
    let mut out: Vec<String> = Vec::new();
    let mut i: usize = 0;
    while i < list.len()
        invariant
            i <= list.len(),
            out@ == list@.take(i as int),
        decreases list.len() - i,
    {
        out.push(list[i].clone());
        assert(out@ =~= list@.take(i + 1));
        i += 1;
    }
    assert(list@.take(list@.len() as int) =~= list@);
    out
}

impl Dependency {
    /// A copy of this dependency.
    pub fn duplicate(&self) -> (r: Dependency)
        ensures
            r@ == self@,
            r.name == self.name,
            r.req == self.req,
            r.path == self.path,
            r.rename == self.rename,
            r.source == self.source,
    {
        Dependency {
            name: self.name.clone(),
            kind: self.kind,
            req: self.req.clone(),
            path: copy_text(&self.path),
            rename: copy_text(&self.rename),
            source: copy_text(&self.source),
        }
    }
}

impl Package {
    /// A copy of this package.
    pub fn duplicate(&self) -> (r: Package)
        ensures
            r@ == self@,
            r.id == self.id,
            r.name == self.name,
            r.manifest_path == self.manifest_path,
            r.config == self.config,
            r.description == self.description,
            r.license == self.license,
            r.license_file == self.license_file,
            r.homepage == self.homepage,
            r.documentation == self.documentation,
            r.repository == self.repository,
            r.keywords@ == self.keywords@,
    {
        let mut dependencies: Vec<Dependency> = Vec::new();
        let mut i: usize = 0;
        while i < self.dependencies.len()
            invariant
                i <= self.dependencies.len(),
                dependency_views(dependencies@) == dependency_views(self.dependencies@).take(
                    i as int,
                ),
            decreases self.dependencies.len() - i,
        {
            let d = self.dependencies[i].duplicate();
            proof {
                assert(dependency_views(dependencies@.push(d)) =~= dependency_views(
                    dependencies@,
                ).push(d@));
                assert(dependency_views(self.dependencies@).take(i + 1) =~= dependency_views(
                    self.dependencies@,
                ).take(i as int).push(self.dependencies@[i as int]@));
            }
            dependencies.push(d);
            i += 1;
        }
        assert(dependency_views(self.dependencies@).take(self.dependencies@.len() as int)
            =~= dependency_views(self.dependencies@));
        let publish = match &self.publish {
            Some(registries) => Some(copy_texts(registries)),
            None => None,
        };
        Package {
            id: self.id.clone(),
            name: self.name.clone(),
            version: self.version.duplicate(),
            manifest_path: self.manifest_path.clone(),
            dependencies,
            publish,
            config: self.config,
            description: copy_text(&self.description),
            license: copy_text(&self.license),
            license_file: copy_text(&self.license_file),
            homepage: copy_text(&self.homepage),
            documentation: copy_text(&self.documentation),
            repository: copy_text(&self.repository),
            keywords: copy_texts(&self.keywords),
        }
    }
}

} // verus!
