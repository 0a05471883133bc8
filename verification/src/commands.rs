//! The remaining commands on a workspace: listing, running a command in each
//! package, renaming packages, and creating packages and workspaces.

use crate::error::{Error, Result};
use crate::globs::{
    glob_accepts, glob_allows, glob_fits, glob_matches, is_set_apart, plain, plain_option,
    set_apart,
};
use crate::lines::texts;
use crate::listing::{pkg_views, ListOpt, Pkg, PkgView};
use crate::package::Package;
use crate::tables::RenameMap;
use crate::text::{contains, replace, replaced, str_contains, str_eq, to_chars};
use crate::version::{lemma_text_chain, lemma_text_one_way, order_texts, text_before, Order};
use vstd::prelude::*;
use vstd::string::StringExecFns;

verus! {

/// Lists the packages of the workspace.
#[derive(Debug)]
pub struct List {
    pub list: ListOpt,
}

/// Runs a command in each package of the workspace.
#[derive(Debug)]
pub struct Exec {
    /// Go on after the command failed in a package.
    pub no_bail: bool,
    /// Pass over the packages whose name matches this glob.
    pub ignore: Option<String>,
    /// Pass over private packages.
    pub ignore_private: bool,
    /// The command and its arguments.
    pub args: Vec<String>,
}

/// Renames packages of the workspace.
#[derive(Debug)]
pub struct Rename {
    /// Rename private packages too.
    pub all: bool,
    /// Pass over the packages whose name matches this glob.
    pub ignore: Option<String>,
    /// Rename this package only.
    pub from: Option<String>,
    /// The new name; `%n` stands for the old one.
    pub to: String,
}

/// The edition of a new package.
#[derive(Debug, Clone, Copy, PartialEq, Eq, Structural)]
pub enum Edition {
    Fifteen,
    Eighteen,
    TwentyOne,
    TwentyFour,
}

/// Creates a package in the workspace.
#[derive(Debug)]
pub struct Create {
    /// The path of the package, from the workspace root.
    pub path: String,
    pub edition: Option<Edition>,
    /// Make a binary package.
    pub bin: bool,
    /// Make a library package.
    pub lib: bool,
    pub name: Option<String>,
}

/// The version of the feature resolver of a workspace.
#[derive(Debug, Clone, Copy, PartialEq, Eq, Structural)]
pub enum Resolver {
    V1,
    V2,
    V3,
}

/// Makes a directory into a workspace.
#[derive(Debug)]
pub struct Init {
    /// The root of the workspace.
    pub path: String,
    pub resolver: Option<Resolver>,
}

/// Creates a workspace in a new directory.
#[derive(Debug)]
pub struct New {
    /// The root of the workspace.
    pub path: String,
    pub resolver: Option<Resolver>,
}

impl Resolver {
    /// The name of the resolver in a manifest.
    pub fn name(&self) -> (r: &'static str)
        ensures
            r@ == match self {
                Resolver::V1 => "1"@,
                Resolver::V2 => "2"@,
                Resolver::V3 => "3"@,
            },
    {
        match self {
            Resolver::V1 => "1",
            Resolver::V2 => "2",
            Resolver::V3 => "3",
        }
    }
}

impl New {
    /// The resolver of the new workspace: the one given, else the third.
    pub fn resolver(&self) -> (r: Resolver)
        ensures
            r == match self.resolver {
                Some(resolver) => resolver,
                None => Resolver::V3,
            },
    {
        match self.resolver {
            Some(resolver) => resolver,
            None => Resolver::V3,
        }
    }
}

impl Edition {
    /// The name of the edition.
    pub open spec fn year(&self) -> Seq<char> {
        match self {
            Edition::Fifteen => "2015"@,
            Edition::Eighteen => "2018"@,
            Edition::TwentyOne => "2021"@,
            Edition::TwentyFour => "2024"@,
        }
    }

    /// The name of the edition.
    pub fn name(&self) -> (r: &'static str)
        ensures
            r@ == self.year(),
    {
        match self {
            Edition::Fifteen => "2015",
            Edition::Eighteen => "2018",
            Edition::TwentyOne => "2021",
            Edition::TwentyFour => "2024",
        }
    }
}

/// The index of the first package with the id `id`, if there is one.
pub open spec fn position_of(pkgs: Seq<PkgView>, id: Seq<char>) -> Option<int>
    decreases pkgs.len(),
{
    if pkgs.len() == 0 {
        None
    } else {
        match position_of(pkgs.drop_last(), id) {
            Some(k) => Some(k),
            None => if pkgs.last().id == id {
                Some(pkgs.len() - 1)
            } else {
                None
            },
        }
    }
}

/// The packages of `pkgs` in the order of `ids`; an id that no package has
/// is passed over.
pub open spec fn arranged(ids: Seq<Seq<char>>, pkgs: Seq<PkgView>) -> Seq<PkgView>
    decreases ids.len(),
{
    if ids.len() == 0 {
        seq![]
    } else {
        match position_of(pkgs, ids.last()) {
            Some(k) => arranged(ids.drop_last(), pkgs).push(pkgs[k]),
            None => arranged(ids.drop_last(), pkgs),
        }
    }
}

proof fn lemma_position_of_grows(pkgs: Seq<PkgView>, id: Seq<char>, len: int, k: int)
    requires
        0 <= len <= pkgs.len(),
        position_of(pkgs.take(len), id) == Some(k),
    ensures
        position_of(pkgs, id) == Some(k),
    decreases pkgs.len() - len,
{
    if len < pkgs.len() {
        assert(pkgs.take(len + 1).drop_last() =~= pkgs.take(len));
        lemma_position_of_grows(pkgs, id, len + 1, k);
    } else {
        assert(pkgs.take(len) =~= pkgs);
    }
}

/// The first package with the id `id`.
pub fn find_pkg(pkgs: &Vec<Pkg>, id: &str) -> (r: Option<usize>)
    ensures
        match r {
            Some(k) => k < pkgs.len() && position_of(pkg_views(pkgs@), id@) == Some(k as int),
            None => position_of(pkg_views(pkgs@), id@).is_none(),
        },
{
    let ghost all = pkg_views(pkgs@);
    let mut k: usize = 0;
    while k < pkgs.len()
        invariant
            k <= pkgs.len(),
            all == pkg_views(pkgs@),
            position_of(all.take(k as int), id@).is_none(),
        decreases pkgs.len() - k,
    {
        proof {
            assert(all.take(k + 1).drop_last() =~= all.take(k as int));
            assert(all.take(k + 1).last() == pkgs@[k as int]@);
        }
        if str_eq(pkgs[k].id.as_str(), id) {
            proof {
                assert(position_of(all.take(k + 1), id@) == Some(k as int));
                lemma_position_of_grows(all, id@, k + 1, k as int);
            }
            return Some(k);
        }
        k += 1;
    }
    assert(all.take(pkgs@.len() as int) =~= all);
    None
}

/// The packages of `pkgs` in the order of `ids`.
pub fn in_order(ids: &Vec<String>, pkgs: &Vec<Pkg>) -> (r: Vec<Pkg>)
    ensures
        pkg_views(r@) == arranged(texts(ids@), pkg_views(pkgs@)),
{
    let ghost all = pkg_views(pkgs@);
    let mut out: Vec<Pkg> = Vec::new();
    let mut i: usize = 0;
    proof {
        assert(texts(ids@).take(0) =~= Seq::<Seq<char>>::empty());
        assert(pkg_views(out@) =~= arranged(texts(ids@).take(0), all));
    }
    while i < ids.len()
        invariant
            i <= ids.len(),
            all == pkg_views(pkgs@),
            pkg_views(out@) == arranged(texts(ids@).take(i as int), all),
        decreases ids.len() - i,
    {
        proof {
            assert(texts(ids@).take(i + 1).drop_last() =~= texts(ids@).take(i as int));
            assert(texts(ids@).take(i + 1).last() == ids@[i as int]@);
        }
        if let Some(k) = find_pkg(pkgs, ids[i].as_str()) {
            let copy = pkgs[k].duplicate();
            proof {
                assert(all[k as int] == pkgs@[k as int]@);
                assert(pkg_views(out@.push(copy)) =~= pkg_views(out@).push(copy@));
            }
            out.push(copy);
        }
        i += 1;
    }
    assert(texts(ids@).take(ids@.len() as int) =~= texts(ids@));
    out
}

/// The text of an optional string.
pub open spec fn optional(s: Option<String>) -> Option<Seq<char>> {
    match s {
        Some(t) => Some(t@),
        None => None,
    }
}

impl Exec {
    /// Whether the command is not run in the package `name`: the glob of
    /// ignored packages matches it.
    pub fn is_ignored(&self, name: &str) -> (r: bool)
        ensures
            self.ignore is None ==> !r,
            plain_option(optional(self.ignore)) && plain(name@) ==> r == set_apart(
                optional(self.ignore),
                name@,
            ),
    {
        is_set_apart(&self.ignore, name)
    }

    /// The directory in which to run the command for `pkg`: that of its
    /// manifest.
    pub fn directory(pkg: &Package) -> (r: Result<String>)
        ensures
            match r {
                Ok(dir) => contains(pkg.manifest_path@, dir@),
                Err(e) => e is ManifestHasNoParent && e->ManifestHasNoParent_0@ == pkg.name@,
            },
    {
        Exec::directory_from(&pkg.name, crate::paths::parent(pkg.manifest_path.as_str()))
    }

    /// The directory in which to run the command for the package called
    /// `name`, `parent` being the parent of the path of its manifest: that
    /// parent, and an error where the path has none.
    pub fn directory_from(name: &String, parent: Option<String>) -> (r: Result<String>)
        ensures
            match parent {
                Some(dir) => r is Ok && r->Ok_0 == dir,
                None => r is Err && r->Err_0 is ManifestHasNoParent
                    && r->Err_0->ManifestHasNoParent_0@ == name@,
            },
    {
        match parent {
            Some(dir) => Ok(dir),
            None => Err(Error::ManifestHasNoParent(name.clone())),
        }
    }

    /// What to make of the end of the command in one package: `errored`
    /// says whether it failed in a package before. Gives the new value of
    /// `errored`, or the error that ends the run.
    pub fn after(&self, success: bool, errored: bool) -> (r: Result<bool>)
        ensures
            success ==> r is Ok && r->Ok_0 == errored,
            !success && self.no_bail ==> r is Ok && r->Ok_0,
            !success && !self.no_bail ==> r is Err && r->Err_0 is Bail,
    {
        if success {
            Ok(errored)
        } else if self.no_bail {
            Ok(true)
        } else {
            Err(Error::Bail)
        }
    }

    /// The result of the whole run.
    pub fn finish(errored: bool) -> (r: Result<()>)
        ensures
            errored ==> r is Err && r->Err_0 is Bail,
            !errored ==> r is Ok,
    {
        if errored {
            Err(Error::Bail)
        } else {
            Ok(())
        }
    }
}

/// Whether no package has a backslash in its name.
pub open spec fn plain_names(pkgs: Seq<PkgView>) -> bool {
    forall|i: int| 0 <= i < pkgs.len() ==> plain((#[trigger] pkgs[i]).name)
}

/// Whether one of the packages is called `name`.
pub open spec fn has_name(pkgs: Seq<PkgView>, name: Seq<char>) -> bool {
    exists|i: int| 0 <= i < pkgs.len() && (#[trigger] pkgs[i]).name == name
}

/// The new names of the first `upto` packages: each package that the
/// pattern does not set apart gets `to` with its own name in place of `%n`.
pub open spec fn renamed_all(
    pkgs: Seq<PkgView>,
    ignore: Option<Seq<char>>,
    to: Seq<char>,
    upto: int,
) -> Map<Seq<char>, Seq<char>>
    decreases upto,
{
    if upto <= 0 {
        Map::empty()
    } else if set_apart(ignore, pkgs[upto - 1].name) {
        renamed_all(pkgs, ignore, to, upto - 1)
    } else {
        renamed_all(pkgs, ignore, to, upto - 1).insert(
            pkgs[upto - 1].name,
            replaced(to, "%n"@, pkgs[upto - 1].name),
        )
    }
}

impl Rename {
    /// Whether private packages are among those to rename.
    pub fn includes_private(&self) -> (r: bool)
        ensures
            r == (self.all || self.from is Some),
    {
        self.all || self.from.is_some()
    }

    /// The new name of each package that is renamed. With `from` that one
    /// package gets the name `to`; it must be among `pkgs`. Without, every
    /// package that is not ignored gets `to` with its own name in place of
    /// `%n`, which `to` must hold. Which packages are ignored is for the
    /// `globset` crate to say; for a pattern and names without a backslash
    /// the outcome is the named one.
    pub fn rename_map(&self, pkgs: &Vec<Pkg>) -> (r: Result<RenameMap>)
        ensures
            match self.from {
                Some(from) => if has_name(pkg_views(pkgs@), from@) {
                    r is Ok && r->Ok_0@ == Map::<Seq<char>, Seq<char>>::empty().insert(
                        from@,
                        self.to@,
                    )
                } else {
                    r is Err && r->Err_0 is PackageNotFound && r->Err_0->PackageNotFound_id@
                        == from@
                },
                None => if !contains(self.to@, "%n"@) {
                    r is Err && r->Err_0 is MustContainPercentN
                        && r->Err_0->MustContainPercentN_0@ == "<TO>"@
                } else {
                    r is Ok && (plain_option(optional(self.ignore)) && plain_names(
                        pkg_views(pkgs@),
                    ) ==> r->Ok_0@ == renamed_all(
                        pkg_views(pkgs@),
                        optional(self.ignore),
                        self.to@,
                        pkgs@.len() as int,
                    ))
                },
            },
    {
        let ghost all = pkg_views(pkgs@);
        let mut map = RenameMap::new();
        match &self.from {
            Some(from) => {
                let mut i: usize = 0;
                while i < pkgs.len()
                    invariant
                        i <= pkgs.len(),
                        all == pkg_views(pkgs@),
                        map@ == Map::<Seq<char>, Seq<char>>::empty(),
                        self.from == Some(*from),
                        forall|k: int| 0 <= k < i ==> (#[trigger] all[k]).name != from@,
                    decreases pkgs.len() - i,
                {
                    assert(all[i as int] == pkgs@[i as int]@);
                    if pkgs[i].name == *from {
                        assert(has_name(all, from@));
                        map.insert(from.clone(), self.to.clone());

                        return Ok(map);
                    }
                    i += 1;
                }
                Err(Error::PackageNotFound { id: from.clone() })
            },
            None => {
                if !str_contains(self.to.as_str(), "%n") {
                    return Err(Error::MustContainPercentN(String::from_str("<TO>")));
                }
                let mut i: usize = 0;
                while i < pkgs.len()
                    invariant
                        i <= pkgs.len(),
                        all == pkg_views(pkgs@),
                        plain_option(optional(self.ignore)) && plain_names(all) ==> map@
                            == renamed_all(all, optional(self.ignore), self.to@, i as int),
                    decreases pkgs.len() - i,
                {
                    let pkg = &pkgs[i];
                    assert(all[i as int] == pkg@);
                    if !is_set_apart(&self.ignore, pkg.name.as_str()) {
                        let new_name = replace(self.to.as_str(), "%n", pkg.name.as_str());
                        map.insert(pkg.name.clone(), new_name);
                    }
                    i += 1;
                }
                Ok(map)
            },
        }
    }
}

/// Whether the manifest of `pkg` is affected by the new names: the package
/// gets one, or one of its dependencies does.
pub fn needs_rename(pkg: &Package, renames: &RenameMap) -> (r: bool)
    ensures
        r == (renames@.contains_key(pkg.name@) || exists|k: int|
            0 <= k < pkg.dependencies@.len() && renames@.contains_key(
                (#[trigger] pkg.dependencies@[k]).name@,
            )),
{
    if renames.contains_key(pkg.name.as_str()) {
        return true;
    }
    let mut k: usize = 0;
    while k < pkg.dependencies.len()
        invariant
            k <= pkg.dependencies.len(),
            forall|m: int|
                0 <= m < k ==> !renames@.contains_key((#[trigger] pkg.dependencies@[m]).name@),
        decreases pkg.dependencies.len() - k,
    {
        if renames.contains_key(pkg.dependencies[k].name.as_str()) {
            return true;
        }
        k += 1;
    }
    false
}

/// The pattern `pattern` of a manifest, made absolute under `root`.
pub open spec fn rooted(root: Seq<char>, pattern: Seq<char>) -> Seq<char> {
    root + "/"@ + pattern
}

/// Whether neither the root, nor the path, nor any of the patterns holds a
/// backslash, and no pattern is too long when it is made absolute.
pub open spec fn plain_list(root: Seq<char>, patterns: Seq<String>, path: Seq<char>) -> bool {
    &&& plain(root)
    &&& plain(path)
    &&& forall|k: int| 0 <= k < patterns.len() ==> plain((#[trigger] patterns[k])@)
    &&& forall|k: int| 0 <= k < patterns.len() ==> glob_fits(rooted(root, (#[trigger] patterns[k])@))
}

/// Whether the first `upto` patterns are accepted and do not match `path`.
pub open spec fn none_matches(
    root: Seq<char>,
    patterns: Seq<String>,
    path: Seq<char>,
    upto: int,
) -> bool {
    forall|m: int|
        0 <= m < upto ==> glob_accepts(rooted(root, (#[trigger] patterns[m])@)) && !glob_matches(
            rooted(root, patterns[m]@),
            path,
        )
}

/// The first of `patterns` that, made absolute under `root`, matches
/// `path`. Fails where a pattern before it is too long or rejected. What is
/// accepted and what matches is for the `glob` crate to say; for texts
/// without a backslash the outcome is the named one.
pub fn exists_in_glob_list<'a>(root: &str, patterns: &'a Vec<String>, path: &str) -> (r: Result<
    Option<&'a String>,
>)
    ensures
        match r {
            Ok(Some(found)) => exists|k: int|
                0 <= k < patterns@.len() && *found == #[trigger] patterns@[k] && (plain_list(
                    root@,
                    patterns@,
                    path@,
                ) ==> glob_matches(rooted(root@, patterns@[k]@), path@) && none_matches(
                    root@,
                    patterns@,
                    path@,
                    k,
                )),
            Ok(None) => plain_list(root@, patterns@, path@) ==> none_matches(
                root@,
                patterns@,
                path@,
                patterns@.len() as int,
            ),
            Err(e) => if e is PatternTooLong {
                exists|k: int|
                    0 <= k < patterns@.len() && !glob_fits(
                        rooted(root@, (#[trigger] patterns@[k])@),
                    )
            } else {
                e is GlobPattern && (plain_list(root@, patterns@, path@) ==> exists|k: int|
                    0 <= k < patterns@.len() && !glob_accepts(
                        rooted(root@, (#[trigger] patterns@[k])@),
                    ))
            },
        },
{
    let mut k: usize = 0;
    while k < patterns.len()
        invariant
            k <= patterns.len(),
            plain_list(root@, patterns@, path@) ==> none_matches(
                root@,
                patterns@,
                path@,
                k as int,
            ),
        decreases patterns.len() - k,
    {
        let mut full = String::from_str(root);
        full.append("/");
        full.append(patterns[k].as_str());
        proof {
            reveal_strlit("/");
            assert(full@ == rooted(root@, patterns@[k as int]@));
            if plain_list(root@, patterns@, path@) {
                assert(plain(patterns@[k as int]@));
                assert(plain(full@));
                assert(glob_fits(full@));
            }
        }
        match glob_allows(full.as_str(), path) {
            Err(e) => {
                return Err(e);
            },
            Ok(true) => {
                return Ok(Some(&patterns[k]));
            },
            Ok(false) => {},
        }
        k += 1;
    }
    Ok(None)
}

impl Create {
    /// Checks that the new package at `path` is not shut out of the
    /// workspace rooted at `root` by one of the patterns in `exclude`.
    pub fn check_excluded(root: &str, exclude: &Vec<String>, path: &str) -> (r: Result<()>)
        ensures
            match r {
                Ok(_) => plain_list(root@, exclude@, path@) ==> none_matches(
                    root@,
                    exclude@,
                    path@,
                    exclude@.len() as int,
                ),
                Err(Error::InWorkspaceExclude(pattern)) => exists|k: int|
                    0 <= k < exclude@.len() && pattern@ == (#[trigger] exclude@[k])@ && (plain_list(
                        root@,
                        exclude@,
                        path@,
                    ) ==> glob_matches(rooted(root@, exclude@[k]@), path@) && none_matches(
                        root@,
                        exclude@,
                        path@,
                        k,
                    )),
                Err(e) => e is GlobPattern || e is PatternTooLong,
            },
    {
        match exists_in_glob_list(root, exclude, path) {
            Ok(Some(pattern)) => Err(Error::InWorkspaceExclude(pattern.clone())),
            Ok(None) => Ok(()),
            Err(e) => Err(e),
        }
    }

    /// Whether the package at `path` is a member of the workspace rooted
    /// at `root` already: one of the patterns in `members` matches it.
    pub fn is_member(root: &str, members: &Vec<String>, path: &str) -> (r: Result<bool>)
        ensures
            r is Err ==> r->Err_0 is GlobPattern || r->Err_0 is PatternTooLong,
            plain_list(root@, members@, path@) && r is Ok ==> (!r->Ok_0 <==> none_matches(
                root@,
                members@,
                path@,
                members@.len() as int,
            )),
    {
        match exists_in_glob_list(root, members, path) {
            Ok(found) => {
                proof {
                    if plain_list(root@, members@, path@) && found is Some {
                        let k = choose|k: int|
                            0 <= k < members@.len() && *found->Some_0 == #[trigger] members@[k]
                                && glob_matches(rooted(root@, members@[k]@), path@);
                        assert(!none_matches(root@, members@, path@, members@.len() as int));
                    }
                }
                Ok(found.is_some())
            },
            Err(e) => Err(e),
        }
    }

    /// Whether the new package is a library: `lib` says so; else `bin` says
    /// it is not; else `asked` decides.
    pub fn is_library(&self, asked: bool) -> (r: bool)
        ensures
            r == (self.lib || (!self.bin && asked)),
    {
        if self.lib {
            true
        } else if self.bin {
            false
        } else {
            asked
        }
    }

    /// The arguments of `cargo new` for a package called `name` of the
    /// edition `edition` at `path`.
    pub fn new_args(name: &str, edition: Edition, library: bool, path: &str) -> (r: Vec<String>)
        ensures
            texts(r@) == seq![
                "new"@,
                "--name"@,
                name@,
                "--edition"@,
                edition.year(),
                if library {
                    "--lib"@
                } else {
                    "--bin"@
                },
                path@,
            ],
    {
        let mut args: Vec<String> = Vec::new();
        args.push(String::from_str("new"));
        args.push(String::from_str("--name"));
        args.push(String::from_str(name));
        args.push(String::from_str("--edition"));
        args.push(String::from_str(edition.name()));
        if library {
            args.push(String::from_str("--lib"));
        } else {
            args.push(String::from_str("--bin"));
        }
        args.push(String::from_str(path));
        assert(texts(args@) =~= seq![
            "new"@,
            "--name"@,
            name@,
            "--edition"@,
            edition.year(),
            if library {
                "--lib"@
            } else {
                "--bin"@
            },
            path@,
        ]);
        args
    }

    /// Checks what `cargo new` printed: a name that the workspace has
    /// already is an error, and so is the lack of a word of success.
    pub fn check_created(stdout: &str, stderr: &str) -> (r: Result<()>)
        ensures
            if contains(stdout@, "two packages"@) || contains(stderr@, "two packages"@) {
                r is Err && r->Err_0 is DuplicatePackageName
            } else if !contains(stderr@, "Created"@) && !contains(stderr@, "Creating"@) {
                r is Err && r->Err_0 is Create
            } else {
                r is Ok
            },
    {
        if str_contains(stdout, "two packages") || str_contains(stderr, "two packages") {
            return Err(Error::DuplicatePackageName);
        }
        if !str_contains(stderr, "Created") && !str_contains(stderr, "Creating") {
            return Err(Error::Create);
        }
        Ok(())
    }
}

/// Whether the texts stand in order.
pub open spec fn in_text_order(list: Seq<Seq<char>>) -> bool {
    forall|a: int, b: int|
        0 <= a < b < list.len() ==> !text_before(#[trigger] list[b], #[trigger] list[a])
}

/// The place of `text` among `sorted`: before the first that comes after
/// it.
fn place(sorted: &Vec<String>, text: &str) -> (at: usize)
    ensures
        at <= sorted.len(),
        forall|a: int| 0 <= a < at ==> !text_before(text@, #[trigger] texts(sorted@)[a]),
        at < sorted.len() ==> text_before(text@, texts(sorted@)[at as int]),
{
    let chars = to_chars(text);
    let mut at: usize = 0;
    while at < sorted.len()
        invariant
            at <= sorted.len(),
            chars@ == text@,
            forall|a: int| 0 <= a < at ==> !text_before(text@, #[trigger] texts(sorted@)[a]),
        decreases sorted.len() - at,
    {
        let other = to_chars(sorted[at].as_str());
        assert(texts(sorted@)[at as int] == sorted@[at as int]@);
        match order_texts(&chars, &other) {
            Order::Before => {
                return at;
            },
            _ => {},
        }
        at += 1;
    }
    at
}

/// The texts of `list` in order: the same texts, each as often as in
/// `list`.
pub fn sorted(list: &Vec<String>) -> (r: Vec<String>)
    ensures
        in_text_order(texts(r@)),
        texts(r@).to_multiset() == texts(list@).to_multiset(),
        r@.len() == list@.len(),
        forall|i: int| 0 <= i < list@.len() ==> texts(r@).contains(#[trigger] texts(list@)[i]),
        forall|i: int| 0 <= i < r@.len() ==> texts(list@).contains(#[trigger] texts(r@)[i]),
{
    let mut out: Vec<String> = Vec::new();
    let mut i: usize = 0;
    assert(texts(out@) =~= texts(list@).take(0));
    while i < list.len()
        invariant
            i <= list.len(),
            out@.len() == i,
            in_text_order(texts(out@)),
            texts(out@).to_multiset() == texts(list@).take(i as int).to_multiset(),
            forall|k: int| 0 <= k < i ==> texts(out@).contains(#[trigger] texts(list@)[k]),
            forall|k: int| 0 <= k < out@.len() ==> texts(list@).contains(#[trigger] texts(out@)[k]),
        decreases list.len() - i,
    {
        let text = list[i].clone();
        let ghost before = texts(out@);
        let at = place(&out, text.as_str());
        out.insert(at, text);
        proof {
            let after = texts(out@);
            let value = list@[i as int]@;
            assert(texts(list@)[i as int] == value);
            assert(after =~= before.insert(at as int, value));
            vstd::seq_lib::to_multiset_insert(before, at as int, value);
            vstd::seq_lib::to_multiset_build(texts(list@).take(i as int), value);
            assert(texts(list@).take(i + 1) =~= texts(list@).take(i as int).push(value));
            assert forall|a: int, b: int| 0 <= a < b < after.len() implies !text_before(
                #[trigger] after[b],
                #[trigger] after[a],
            ) by {
                if b < at {
                    assert(after[a] == before[a] && after[b] == before[b]);
                } else if b == at {
                    assert(after[a] == before[a]);
                } else if a < at {
                    assert(after[a] == before[a] && after[b] == before[b - 1]);
                    assert(!text_before(before[b - 1], before[a]));
                } else if a == at {
                    assert(after[b] == before[b - 1]);
                    if b - 1 > at {
                        assert(!text_before(before[b - 1], before[at as int]));
                        if text_before(before[b - 1], value) {
                            lemma_text_chain(before[b - 1], value, before[at as int]);
                        }
                    } else {
                        lemma_text_one_way(value, before[at as int]);
                    }
                } else {
                    assert(after[a] == before[a - 1] && after[b] == before[b - 1]);
                }
            }
            assert forall|k: int| 0 <= k < i + 1 implies after.contains(
                #[trigger] texts(list@)[k],
            ) by {
                if k < i {
                    let j = choose|j: int| 0 <= j < before.len() && before[j] == texts(list@)[k];
                    if j < at {
                        assert(after[j] == before[j]);
                    } else {
                        assert(after[j + 1] == before[j]);
                    }
                } else {
                    assert(after[at as int] == value);
                }
            }
            assert forall|k: int| 0 <= k < after.len() implies texts(list@).contains(
                #[trigger] after[k],
            ) by {
                if k < at {
                    assert(after[k] == before[k]);
                } else if k > at {
                    assert(after[k] == before[k - 1]);
                }
            }
        }
        i += 1;
    }
    assert(texts(list@).take(list@.len() as int) =~= texts(list@));
    out
}

/// The texts that are there, in their order.
pub open spec fn present(results: Seq<Option<String>>) -> Seq<Seq<char>>
    decreases results.len(),
{
    if results.len() == 0 {
        seq![]
    } else {
        match results.last() {
            Some(text) => present(results.drop_last()).push(text@),
            None => present(results.drop_last()),
        }
    }
}

/// Whether `stripped` holds, for each of `roots`, nothing or a part of its
/// text.
pub open spec fn stripped_from(roots: Seq<String>, stripped: Seq<Option<String>>) -> bool {
    &&& stripped.len() == roots.len()
    &&& forall|k: int|
        0 <= k < roots.len() && (#[trigger] stripped[k]) is Some ==> contains(
            roots[k]@,
            stripped[k]->Some_0@,
        )
}

pub proof fn lemma_present_is_no_longer(results: Seq<Option<String>>)
    ensures
        present(results).len() <= results.len(),
    decreases results.len(),
{
    if results.len() > 0 {
        lemma_present_is_no_longer(results.drop_last());
    }
}

impl Init {
    /// The members of a workspace, given for each root of a package found
    /// under it the path of that root from the root of the workspace, or
    /// nothing where the package lies elsewhere: the paths that are there,
    /// in order.
    pub fn arranged(stripped: &Vec<Option<String>>) -> (r: Vec<String>)
        ensures
            in_text_order(texts(r@)),
            texts(r@).to_multiset() == present(stripped@).to_multiset(),
    {
        let mut found: Vec<String> = Vec::new();
        let mut i: usize = 0;
        assert(stripped@.take(0) =~= Seq::<Option<String>>::empty());
        assert(texts(found@) =~= present(stripped@.take(0)));
        while i < stripped.len()
            invariant
                i <= stripped.len(),
                texts(found@) == present(stripped@.take(i as int)),
            decreases stripped.len() - i,
        {
            proof {
                assert(stripped@.take(i + 1).drop_last() =~= stripped@.take(i as int));
                assert(stripped@.take(i + 1).last() == stripped@[i as int]);
            }
            if let Some(path) = &stripped[i] {
                proof {
                    assert(texts(found@.push(*path)) =~= texts(found@).push(path@));
                }
                found.push(path.clone());
            }
            i += 1;
        }
        assert(stripped@.take(stripped@.len() as int) =~= stripped@);
        sorted(&found)
    }

    /// The members of the workspace rooted at `root`, given the roots of
    /// the packages found under it: the paths from `root` of the roots that
    /// lie under it, in order. Which roots lie under `root`, and what their
    /// paths from there are, is for the platform to say; each path is a part
    /// of the text of its root.
    pub fn members(roots: &Vec<String>, root: &str) -> (r: Vec<String>)
        ensures
            in_text_order(texts(r@)),
            r@.len() <= roots@.len(),
            exists|stripped: Seq<Option<String>>|
                #![trigger present(stripped)]
                stripped_from(roots@, stripped) && texts(r@).to_multiset() == present(
                    stripped,
                ).to_multiset(),
    {
        let mut stripped: Vec<Option<String>> = Vec::new();
        let mut i: usize = 0;
        while i < roots.len()
            invariant
                i <= roots.len(),
                stripped@.len() == i,
                forall|k: int|
                    0 <= k < i && (#[trigger] stripped@[k]) is Some ==> contains(
                        roots@[k]@,
                        stripped@[k]->Some_0@,
                    ),
            decreases roots.len() - i,
        {
            stripped.push(crate::paths::strip_prefix(roots[i].as_str(), root));
            i += 1;
        }
        let r = Init::arranged(&stripped);
        proof {
            assert(stripped_from(roots@, stripped@));
            lemma_present_is_no_longer(stripped@);
            vstd::seq_lib::to_multiset_len(texts(r@));
            vstd::seq_lib::to_multiset_len(present(stripped@));
            assert(texts(r@).len() == r@.len());
        }
        r
    }

    /// What comes before and after member `i` of `count` in the list of
    /// members: each stands on a line of its own, and the last is followed
    /// by a comma and a line break.
    pub fn decoration(i: usize, count: usize) -> (r: (&'static str, &'static str))
        ensures
            r.0@ == "\n    "@,
            r.1@ == if count > 0 && i == count - 1 {
                ",\n"@
            } else {
                ""@
            },
    {
        let suffix = if count > 0 && i == count - 1 {
            ",\n"
        } else {
            ""
        };
        ("\n    ", suffix)
    }
}

} // verus!
