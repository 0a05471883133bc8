//! Publishing the packages of a workspace, one after the other in the order
//! of their dependencies: what to ask of cargo and of the registry for each
//! package, and what to make of the answers.

use crate::checks::{basic_checks, problems_of};
use crate::error::{Error, Result};
use crate::lines::texts;
use crate::package::{package_views, Dependency, DependencyKind, Package, PackageView};
use crate::text::{
    contains, find_from, first_from, from_chars, slice, str_contains, str_eq, strip_end,
    strip_start, stripped, to_chars, trim, trimmed,
};
use crate::version::{asks_for_any, is_wildcard};
use crate::versioning::VersionOpt;
use vstd::prelude::*;
use vstd::string::StringExecFns;

verus! {

/// The registry to publish to.
#[derive(Debug)]
pub struct RegistryOpt {
    /// The token that gives access to the registry.
    pub token: Option<String>,
    /// The name of the registry.
    pub registry: Option<String>,
}

/// Publishes the packages of the workspace.
#[derive(Debug)]
pub struct Publish {
    pub version: VersionOpt,
    /// Publish the packages as they are, without new versions.
    pub publish_as_is: bool,
    /// Pass over versions that the registry has already.
    pub skip_published: bool,
    /// Do not build the packages before they are published.
    pub skip_verification: bool,
    /// Publish from a working tree with changes that are not committed.
    pub allow_dirty: bool,
    /// Leave the development dependencies in the manifests.
    pub no_remove_dev_deps: bool,
    /// Go through the motions without publishing.
    pub dry_run: bool,
    pub registry: RegistryOpt,
}

/// Lists the packages in the order in which they would be published.
#[derive(Debug)]
pub struct Plan {
    /// Pass over versions that the registry has already.
    pub skip_published: bool,
    pub registry: RegistryOpt,
    pub list: crate::listing::ListOpt,
}

/// Changes the owners of the packages of the workspace.
#[derive(Debug)]
pub struct Owner {
    /// The user or team to invite as an owner.
    pub add: Option<String>,
    /// The user or team to remove as an owner.
    pub remove: Option<String>,
    /// List the owners of each package.
    pub list: bool,
    pub registry: RegistryOpt,
}

/// What happened last in the publication of one package.
#[derive(Debug)]
pub enum Event {
    /// Nothing yet.
    Begin,
    /// The package was built; cargo printed this to its error stream.
    Built(String),
    /// The registry was asked whether it has the version.
    Queried(bool),
    /// `cargo publish` ran and printed this to its error stream.
    Published(String),
}

/// What to do next in the publication of one package.
#[derive(Debug)]
pub enum Step {
    /// Build the package: run cargo with these arguments.
    Build(Vec<String>),
    /// Ask the registry whether it has the version. `build_failed` says
    /// whether the build that came before failed.
    Query { build_failed: bool },
    /// Go on to the next package: the registry has this version already.
    Skip,
    /// Run cargo with these arguments, with the development dependencies
    /// taken out of the manifest for that time where `remove_dev_deps`.
    Publish { args: Vec<String>, remove_dev_deps: bool },
    /// Go on to the next package. `failed` says whether a rehearsal of the
    /// publication failed.
    Done { failed: bool },
}

/// The text of an optional string.
pub open spec fn optional(s: Option<String>) -> Option<Seq<char>> {
    match s {
        Some(t) => Some(t@),
        None => None,
    }
}

/// `flag` and `value`, where there is a value.
pub open spec fn option_arguments(flag: Seq<char>, value: Option<Seq<char>>) -> Seq<Seq<char>> {
    match value {
        Some(v) => seq![flag, v],
        None => seq![],
    }
}

/// `flag`, where `on`.
pub open spec fn switch(flag: Seq<char>, on: bool) -> Seq<Seq<char>> {
    if on {
        seq![flag]
    } else {
        seq![]
    }
}

/// Whether a dependency is a development dependency on a package of the
/// workspace that comes from no registry and asks for a version.
pub open spec fn pins_member(dep: Dependency, pkgs: Seq<PackageView>) -> bool {
    &&& dep.kind == DependencyKind::Development
    &&& exists|i: int| 0 <= i < pkgs.len() && (#[trigger] pkgs[i]).name == dep.name@
    &&& dep.source is None
    &&& !is_wildcard(dep.req@)
}

/// Whether the development dependencies have to leave the manifest before
/// the package is published: one of them is on a package of the workspace,
/// comes from no registry and asks for a version.
pub fn should_remove_dev_deps(deps: &Vec<Dependency>, pkgs: &Vec<(Package, String)>) -> (r: bool)
    ensures
        r == exists|k: int|
            0 <= k < deps@.len() && pins_member(#[trigger] deps@[k], package_views(pkgs@)),
{
    let ghost all = package_views(pkgs@);
    let mut k: usize = 0;
    while k < deps.len()
        invariant
            k <= deps.len(),
            all == package_views(pkgs@),
            forall|m: int| 0 <= m < k ==> !pins_member(#[trigger] deps@[m], all),
        decreases deps.len() - k,
    {
        let dep = &deps[k];
        let development = match dep.kind {
            DependencyKind::Development => true,
            _ => false,
        };
        if development && dep.source.is_none() && !asks_for_any(dep.req.as_str()) {
            let mut i: usize = 0;
            while i < pkgs.len()
                invariant
                    i <= pkgs.len(),
                    k < deps.len(),
                    *dep == deps@[k as int],
                    dep.kind == DependencyKind::Development,
                    dep.source is None,
                    !is_wildcard(dep.req@),
                    all == package_views(pkgs@),
                    forall|m: int| 0 <= m < i ==> (#[trigger] all[m]).name != dep.name@,
                decreases pkgs.len() - i,
            {
                assert(all[i as int] == pkgs@[i as int].0@);
                if pkgs[i].0.name == dep.name {
                    assert(pins_member(deps@[k as int], all));
                    return true;
                }
                i += 1;
            }
        }
        k += 1;
    }
    false
}

/// The name of the registry that `pkg` goes to: the one given, else the
/// first that the package names.
pub fn registry_name<'a>(registry: &'a Option<String>, pkg: &'a Package) -> (r: Option<
    &'a String,
>)
    ensures
        match registry {
            Some(name) => r == Some(name),
            None => match pkg.publish {
                Some(names) => if names@.len() > 0 {
                    r == Some(&names@[0])
                } else {
                    r is None
                },
                None => r is None,
            },
        },
{
    match registry {
        Some(name) => Some(name),
        None => match &pkg.publish {
            Some(names) => if names.len() > 0 {
                Some(&names[0])
            } else {
                None
            },
            None => None,
        },
    }
}

/// The key under which the configuration of cargo holds the index of the
/// registry `name`.
pub fn index_key(name: &str) -> (r: String)
    ensures
        r@ == "registries."@ + name@ + ".index"@,
{
    let mut out = String::from_str("registries.");
    out.append(name);
    out.append(".index");
    out
}

/// The value in a line `key = "value"` as `cargo config get` prints it: what
/// stands between the first ` = ` and the next, without the white space and
/// the double quotes around it. `None` where the text holds no ` = `.
pub open spec fn config_value(printed: Seq<char>) -> Option<Seq<char>> {
    match first_from(printed, " = "@, 0) {
        None => None,
        Some(a) => {
            let rest = printed.skip(a + 3);
            let token = match first_from(rest, " = "@, 0) {
                Some(b) => rest.take(b),
                None => rest,
            };
            Some(strip_end(strip_start(trim(token), '"'), '"'))
        },
    }
}

/// Reads the value out of what `cargo config get` printed.
pub fn read_config_value(printed: &str) -> (r: Result<String>)
    ensures
        match config_value(printed@) {
            Some(value) => r is Ok && r->Ok_0@ == value,
            None => r is Err && r->Err_0 is BadConfigGetOutput && r->Err_0->BadConfigGetOutput_0@
                == printed@,
        },
{
    let chars = to_chars(printed);
    let sep = to_chars(" = ");
    proof {
        reveal_strlit(" = ");
    }
    assert(sep@.len() == 3);
    match find_from(&chars, &sep, 0) {
        None => Err(Error::BadConfigGetOutput(String::from_str(printed))),
        Some(a) => {
            let n = chars.len();
            assert(a + 3 <= n) by {
                assert(a + sep@.len() <= chars@.len());
            }
            let rest = slice(&chars, a + 3, n);
            assert(rest@ =~= chars@.skip(a + 3));
            let token = match find_from(&rest, &sep, 0) {
                Some(b) => {
                    let t = slice(&rest, 0, b);
                    assert(t@ =~= rest@.take(b as int));
                    t
                },
                None => rest,
            };
            Ok(from_chars(&stripped(&trimmed(&token), '"')))
        },
    }
}

/// Whether `version` is one of `versions`.
pub fn version_listed(versions: &Vec<String>, version: &str) -> (r: bool)
    ensures
        r == texts(versions@).contains(version@),
{
    let mut k: usize = 0;
    while k < versions.len()
        invariant
            k <= versions.len(),
            forall|m: int| 0 <= m < k ==> texts(versions@)[m] != version@,
        decreases versions.len() - k,
    {
        assert(texts(versions@)[k as int] == versions@[k as int]@);
        if str_eq(versions[k].as_str(), version) {
            return true;
        }
        k += 1;
    }
    false
}

/// What to do while waiting for the registry to show a version.
#[derive(Debug, PartialEq, Eq, Structural, Clone, Copy)]
pub enum Poll {
    /// The version is there.
    Confirmed,
    /// Ask again after this many seconds.
    Wait(u64),
}

/// The seconds between two questions to the registry.
pub const POLL_INTERVAL: u64 = 2;

/// The seconds after which the registry is given up on.
pub const POLL_TIMEOUT: u64 = 300;

/// What to do after the registry was asked for a version: done where it has
/// it; an error once more than [`POLL_TIMEOUT`] seconds have passed; else to
/// ask again after [`POLL_INTERVAL`] seconds.
pub fn check_index(published: bool, elapsed: u64) -> (r: Result<Poll>)
    ensures
        published ==> r is Ok && r->Ok_0 == Poll::Confirmed,
        !published && elapsed > POLL_TIMEOUT ==> r is Err && r->Err_0 is PublishTimeout,
        !published && elapsed <= POLL_TIMEOUT ==> r is Ok && r->Ok_0 == Poll::Wait(POLL_INTERVAL),
{
    if published {
        Ok(Poll::Confirmed)
    } else if elapsed > POLL_TIMEOUT {
        Err(Error::PublishTimeout)
    } else {
        Ok(Poll::Wait(POLL_INTERVAL))
    }
}

/// Adds `flag` and `value` to `args`, where there is a value.
fn push_option(args: &mut Vec<String>, flag: &str, value: &Option<String>)
    ensures
        texts(final(args)@) == texts(old(args)@) + option_arguments(flag@, optional(*value)),
{
    let ghost before = texts(args@);
    match value {
        Some(v) => {
            args.push(String::from_str(flag));
            args.push(v.clone());
            assert(texts(args@) =~= before + seq![flag@, v@]);
        },
        None => {
            assert(before + Seq::<Seq<char>>::empty() =~= before);
        },
    }
}

/// Adds `flag` to `args`, where `on`.
fn push_switch(args: &mut Vec<String>, flag: &str, on: bool)
    ensures
        texts(final(args)@) == texts(old(args)@) + switch(flag@, on),
{
    let ghost before = texts(args@);
    if on {
        args.push(String::from_str(flag));
        assert(texts(args@) =~= before + seq![flag@]);
    } else {
        assert(before + Seq::<Seq<char>>::empty() =~= before);
    }
}

impl Publish {
    /// Whether the packages are published as they are: that was asked for,
    /// or this is a rehearsal.
    pub fn as_is(&self) -> (r: bool)
        ensures
            r == (self.publish_as_is || self.dry_run),
    {
        self.publish_as_is || self.dry_run
    }

    /// The arguments of `cargo publish` for the manifest at `manifest_path`.
    pub open spec fn publish_arguments(&self, manifest_path: Seq<char>) -> Seq<Seq<char>> {
        seq!["publish"@] + switch("--dry-run"@, self.dry_run) + switch(
            "--no-verify"@,
            self.skip_verification || self.dry_run,
        ) + switch("--allow-dirty"@, self.allow_dirty) + option_arguments(
            "--registry"@,
            optional(self.registry.registry),
        ) + option_arguments("--token"@, optional(self.registry.token)) + seq![
            "--manifest-path"@,
            manifest_path,
        ]
    }

    /// The arguments of `cargo publish` for the manifest at `manifest_path`.
    pub fn publish_args(&self, manifest_path: &str) -> (r: Vec<String>)
        ensures
            texts(r@) == self.publish_arguments(manifest_path@),
    {
        let mut args: Vec<String> = Vec::new();
        args.push(String::from_str("publish"));
        assert(texts(args@) =~= seq!["publish"@]);
        push_switch(&mut args, "--dry-run", self.dry_run);
        push_switch(&mut args, "--no-verify", self.skip_verification || self.dry_run);
        push_switch(&mut args, "--allow-dirty", self.allow_dirty);
        push_option(&mut args, "--registry", &self.registry.registry);
        push_option(&mut args, "--token", &self.registry.token);
        let ghost before = texts(args@);
        args.push(String::from_str("--manifest-path"));
        args.push(String::from_str(manifest_path));
        assert(texts(args@) =~= before + seq!["--manifest-path"@, manifest_path@]);
        args
    }

    /// The arguments of `cargo build` for the manifest at `manifest_path`.
    pub fn build_args(manifest_path: &str) -> (r: Vec<String>)
        ensures
            texts(r@) == seq!["build"@, "--manifest-path"@, manifest_path@],
    {
        let mut args: Vec<String> = Vec::new();
        args.push(String::from_str("build"));
        args.push(String::from_str("--manifest-path"));
        args.push(String::from_str(manifest_path));
        assert(texts(args@) =~= seq!["build"@, "--manifest-path"@, manifest_path@]);
        args
    }

    /// Whether the build succeeded, going by what cargo printed to its
    /// error stream.
    pub fn build(stderr: &str) -> (r: bool)
        ensures
            r == !contains(stderr@, "could not compile"@),
    {
        !str_contains(stderr, "could not compile")
    }

    /// Whether the publication failed, going by what cargo printed to its
    /// error stream: it did not upload, or it reported an error.
    pub fn publish_failed(stderr: &str) -> (r: bool)
        ensures
            r == (!contains(stderr@, "Uploading"@) || contains(stderr@, "error:"@)),
    {
        !str_contains(stderr, "Uploading") || str_contains(stderr, "error:")
    }

    /// What to do after the build, if there was one: in a rehearsal the
    /// metadata is checked first; then the registry is asked.
    fn checked(&self, pkg: &Package, build_failed: bool) -> (r: Result<Step>)
        ensures
            match r {
                Ok(step) => step == (Step::Query { build_failed }) && (self.dry_run ==> problems_of(
                    *pkg,
                ).len() == 0),
                Err(e) => self.dry_run && problems_of(*pkg).len() > 0 && e is Publish
                    && e->Publish_0@ == pkg.name@,
            },
    {
        if self.dry_run {
            match basic_checks(pkg) {
                Ok(_) => {},
                Err(e) => {
                    return Err(e);
                },
            }
        }
        Ok(Step::Query { build_failed })
    }

    /// The next step in the publication of `pkg`, whose manifest lies at
    /// `manifest_path`, after `event`. `pkgs` are the packages that are
    /// being published.
    pub fn advance(
        &self,
        event: Event,
        pkg: &Package,
        manifest_path: &str,
        pkgs: &Vec<(Package, String)>,
    ) -> (r: Result<Step>)
        ensures
            match event {
                Event::Begin => if self.dry_run && !self.skip_verification {
                    r is Ok && r->Ok_0 is Build && texts(r->Ok_0->Build_0@) == seq![
                        "build"@,
                        "--manifest-path"@,
                        manifest_path@,
                    ]
                } else if self.dry_run && problems_of(*pkg).len() > 0 {
                    r is Err && r->Err_0 is Publish && r->Err_0->Publish_0@ == pkg.name@
                } else {
                    r is Ok && r->Ok_0 == (Step::Query { build_failed: false })
                },
                Event::Built(stderr) => if self.dry_run && problems_of(*pkg).len() > 0 {
                    r is Err && r->Err_0 is Publish && r->Err_0->Publish_0@ == pkg.name@
                } else {
                    r is Ok && r->Ok_0 == (Step::Query {
                        build_failed: contains(stderr@, "could not compile"@),
                    })
                },
                Event::Queried(published) => if published {
                    r is Ok && r->Ok_0 is Skip
                } else {
                    match r {
                        Ok(Step::Publish { args, remove_dev_deps }) => texts(args@)
                            == self.publish_arguments(manifest_path@) && remove_dev_deps == (
                        !self.no_remove_dev_deps && exists|k: int|
                            0 <= k < pkg.dependencies@.len() && pins_member(
                                #[trigger] pkg.dependencies@[k],
                                package_views(pkgs@),
                            )),
                        _ => false,
                    }
                },
                Event::Published(stderr) => {
                    let failed = !contains(stderr@, "Uploading"@) || contains(stderr@, "error:"@);
                    if failed && !self.dry_run {
                        r is Err && r->Err_0 is Publish && r->Err_0->Publish_0@ == pkg.name@
                    } else {
                        r is Ok && r->Ok_0 == (Step::Done { failed })
                    }
                },
            },
    {
        match event {
            Event::Begin => {
                if self.dry_run && !self.skip_verification {
                    Ok(Step::Build(Publish::build_args(manifest_path)))
                } else {
                    self.checked(pkg, false)
                }
            },
            Event::Built(stderr) => self.checked(pkg, !Publish::build(stderr.as_str())),
            Event::Queried(published) => {
                if published {
                    Ok(Step::Skip)
                } else {
                    let remove_dev_deps = !self.no_remove_dev_deps && should_remove_dev_deps(
                        &pkg.dependencies,
                        pkgs,
                    );
                    Ok(Step::Publish { args: self.publish_args(manifest_path), remove_dev_deps })
                }
            },
            Event::Published(stderr) => {
                let failed = Publish::publish_failed(stderr.as_str());
                if failed && !self.dry_run {
                    Err(Error::Publish(pkg.name.clone()))
                } else {
                    Ok(Step::Done { failed })
                }
            },
        }
    }
}

impl Owner {
    /// The arguments of `cargo owner`.
    pub fn args(&self) -> (r: Vec<String>)
        ensures
            texts(r@) == seq!["owner"@] + option_arguments(
                "--registry"@,
                optional(self.registry.registry),
            ) + option_arguments("--token"@, optional(self.registry.token)) + option_arguments(
                "--add"@,
                optional(self.add),
            ) + option_arguments("--remove"@, optional(self.remove)) + switch("--list"@, self.list),
    {
        let mut args: Vec<String> = Vec::new();
        args.push(String::from_str("owner"));
        assert(texts(args@) =~= seq!["owner"@]);
        push_option(&mut args, "--registry", &self.registry.registry);
        push_option(&mut args, "--token", &self.registry.token);
        push_option(&mut args, "--add", &self.add);
        push_option(&mut args, "--remove", &self.remove);
        push_switch(&mut args, "--list", self.list);
        args
    }

    /// Checks what `cargo owner` printed to its error stream for the
    /// package `name`.
    pub fn check(name: &str, stderr: &str) -> (r: Result<()>)
        ensures
            contains(stderr@, "error:"@) ==> r is Err && r->Err_0 is Owner && r->Err_0->Owner_0@
                == name@,
            !contains(stderr@, "error:"@) ==> r is Ok,
    {
        if str_contains(stderr, "error:") {
            return Err(Error::Owner(String::from_str(name)));
        }
        Ok(())
    }
}

/// The index of the first package called `name`, from `from` on.
pub open spec fn named_from(pkgs: Seq<Package>, name: Seq<char>, from: int) -> Option<int>
    decreases pkgs.len() - from,
{
    if from < 0 || from >= pkgs.len() {
        None
    } else if pkgs[from].name@ == name {
        Some(from)
    } else {
        named_from(pkgs, name, from + 1)
    }
}

/// The packages to publish after versioning, each with the text of its
/// new version: for each of the first `upto` new versions, in their order,
/// the first package of that name. A name that no package has is passed
/// over.
pub open spec fn versioned(
    pkgs: Seq<Package>,
    pairs: Seq<(Seq<char>, crate::version::VersionView)>,
    upto: int,
) -> Seq<(PackageView, Seq<char>)>
    decreases upto,
{
    if upto <= 0 || upto > pairs.len() {
        seq![]
    } else {
        match named_from(pkgs, pairs[upto - 1].0, 0) {
            Some(k) => versioned(pkgs, pairs, upto - 1).push(
                (pkgs[k]@, crate::version::version_text(pairs[upto - 1].1)),
            ),
            None => versioned(pkgs, pairs, upto - 1),
        }
    }
}

/// The packages as they are, each with the text of its own version.
pub open spec fn as_they_are(pkgs: Seq<Package>) -> Seq<(PackageView, Seq<char>)> {
    pkgs.map_values(|p: Package| (p@, crate::version::version_text(p.version@)))
}

/// The values of a list of packages with their version texts.
pub open spec fn chosen_views(list: Seq<(Package, String)>) -> Seq<(PackageView, Seq<char>)> {
    list.map_values(|e: (Package, String)| (e.0@, e.1@))
}

/// The first package called `name`.
fn find_named(pkgs: &Vec<Package>, name: &str) -> (r: Option<usize>)
    ensures
        match r {
            Some(k) => k < pkgs.len() && named_from(pkgs@, name@, 0) == Some(k as int),
            None => named_from(pkgs@, name@, 0).is_none(),
        },
{
    let mut k: usize = 0;
    while k < pkgs.len()
        invariant
            k <= pkgs.len(),
            named_from(pkgs@, name@, 0) == named_from(pkgs@, name@, k as int),
        decreases pkgs.len() - k,
    {
        if str_eq(pkgs[k].name.as_str(), name) {
            return Some(k);
        }
        k += 1;
    }
    None
}

/// The packages to publish, each with the text of the version it is
/// published at: with new versions, the packages that got one, in the order
/// of the table; without, all packages at their own versions.
pub fn selected(pkgs: &Vec<Package>, versions: &Option<crate::tables::VersionMap>) -> (r: Vec<
    (Package, String),
>)
    ensures
        chosen_views(r@) == match versions {
            Some(table) => versioned(pkgs@, table.pairs(), table.pairs().len() as int),
            None => as_they_are(pkgs@),
        },
{
    let mut out: Vec<(Package, String)> = Vec::new();
    match versions {
        Some(table) => {
            let ghost pairs = table.pairs();
            let mut i: usize = 0;
            assert(chosen_views(out@) =~= versioned(pkgs@, pairs, 0));
            while i < table.len()
                invariant
                    i <= pairs.len(),
                    pairs == table.pairs(),
                    chosen_views(out@) == versioned(pkgs@, pairs, i as int),
                decreases pairs.len() - i,
            {
                let (name, version) = table.entry(i);
                if let Some(k) = find_named(pkgs, name.as_str()) {
                    let e = (pkgs[k].duplicate(), version.to_string());
                    proof {
                        assert(chosen_views(out@.push(e)) =~= chosen_views(out@).push((e.0@, e.1@)));
                    }
                    out.push(e);
                }
                i += 1;
            }
        },
        None => {
            let mut i: usize = 0;
            assert(chosen_views(out@) =~= as_they_are(pkgs@).take(0));
            while i < pkgs.len()
                invariant
                    i <= pkgs.len(),
                    chosen_views(out@) == as_they_are(pkgs@).take(i as int),
                decreases pkgs.len() - i,
            {
                let e = (pkgs[i].duplicate(), pkgs[i].version.to_string());
                proof {
                    assert(chosen_views(out@.push(e)) =~= chosen_views(out@).push((e.0@, e.1@)));
                    assert(as_they_are(pkgs@).take(i + 1) =~= as_they_are(pkgs@).take(
                        i as int,
                    ).push(as_they_are(pkgs@)[i as int]));
                }
                out.push(e);
                i += 1;
            }
            assert(as_they_are(pkgs@).take(pkgs@.len() as int) =~= as_they_are(pkgs@));
        },
    }
    out
}

} // verus!
