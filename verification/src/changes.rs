//! Which packages changed since the last release.

use crate::error::{Error, Result};
use crate::globs::{is_set_apart, plain, plain_option, set_apart};
use crate::lines::{pieces, split_pieces, texts};
use crate::listing::{pkg_views, ListOpt, Pkg, PkgView};
use crate::text::{str_eq, to_chars};
use vstd::prelude::*;
use vstd::string::StringExecFns;

verus! {

/// How changes are looked for.
#[derive(Debug)]
pub struct ChangeOpt {
    /// Packages whose name matches this glob count as changed in any case.
    pub force: Option<String>,
    /// Changes in files that match this glob do not count.
    pub ignore_changes: Option<String>,
    /// The git reference to compare with, in place of the last tag.
    pub since: Option<String>,
}

/// What git knows of the last release.
#[derive(Debug, Default)]
pub struct ChangeData {
    /// The tag of the last release, if it has one.
    pub since: Option<String>,
    /// The number of commits since the last release.
    pub count: String,
    /// Whether the working tree has changes that are not committed.
    pub dirty: bool,
}

/// Lists the packages that changed since the last release.
#[derive(Debug)]
pub struct Changed {
    pub list: ListOpt,
    pub change: ChangeOpt,
    /// The git reference to compare with, in place of the last tag.
    pub since: Option<String>,
    /// Whether it is an error that nothing changed.
    pub error_on_empty: bool,
}

/// The text of an optional string.
pub open spec fn optional(s: Option<String>) -> Option<Seq<char>> {
    match s {
        Some(t) => Some(t@),
        None => None,
    }
}

impl ChangeData {
    /// What is known of the last release, from what git printed: `sha` is
    /// the commit of the last tag (empty where there is no tag), `count` the
    /// number of commits since, `since` the name of the tag. Without a tag
    /// everything counts as one commit since the beginning.
    pub fn new(sha: &str, count: String, since: Option<String>) -> (r: ChangeData)
        ensures
            !r.dirty,
            sha@.len() == 0 ==> r.count@ == "1"@ && r.since is None,
            sha@.len() > 0 ==> r.count@ == count@ && r.since == since,
    {
        if sha.unicode_len() == 0 {
            ChangeData { since: None, count: String::from_str("1"), dirty: false }
        } else {
            ChangeData { since, count, dirty: false }
        }
    }

    /// Whether the head commit is the last release itself.
    pub fn is_released(&self) -> (r: bool)
        ensures
            r == (self.count@ == "0"@),
    {
        str_eq(self.count.as_str(), "0")
    }
}

impl Changed {
    /// The result where there is nothing to list: an error if that was
    /// asked for.
    pub fn finish(&self) -> (r: Result<()>)
        ensures
            self.error_on_empty ==> r is Err && r->Err_0 is NoChanges,
            !self.error_on_empty ==> r is Ok,
    {
        if self.error_on_empty {
            return Err(Error::NoChanges);
        }
        Ok(())
    }
}

/// The packages of `pkgs` whose mark in `marks` is `want`, in order.
pub open spec fn picked(pkgs: Seq<PkgView>, marks: Seq<bool>, want: bool) -> Seq<PkgView>
    decreases pkgs.len(),
{
    if pkgs.len() == 0 || marks.len() != pkgs.len() {
        seq![]
    } else if marks.last() == want {
        picked(pkgs.drop_last(), marks.drop_last(), want).push(pkgs.last())
    } else {
        picked(pkgs.drop_last(), marks.drop_last(), want)
    }
}

/// The names of the files in what `git diff --name-only` printed: the
/// pieces between its line feeds, without the empty ones.
pub open spec fn file_names(printed: Seq<char>) -> Seq<Seq<char>> {
    pieces(printed).filter(|name: Seq<char>| name.len() > 0)
}

/// The names of the files in what `git diff --name-only` printed.
pub fn changed_files(printed: &str) -> (r: Vec<String>)
    ensures
        texts(r@) == file_names(printed@),
{
    let all = split_pieces(&to_chars(printed));
    let ghost keep = |name: Seq<char>| name.len() > 0;
    let mut out: Vec<String> = Vec::new();
    let mut i: usize = 0;
    proof {
        assert(texts(all@).take(0) =~= Seq::<Seq<char>>::empty());
        texts(all@).take(0).lemma_filter_len(keep);
        assert(texts(out@) =~= texts(all@).take(0).filter(keep));
    }
    while i < all.len()
        invariant
            i <= all.len(),
            keep == |name: Seq<char>| name.len() > 0,
            texts(out@) == texts(all@).take(i as int).filter(keep),
        decreases all.len() - i,
    {
        let name = &all[i];
        proof {
            assert(texts(all@).take(i + 1) =~= texts(all@).take(i as int).push(name@));
            texts(all@).take(i as int).lemma_filter_push(name@, keep);
        }
        if name.as_str().unicode_len() > 0 {
            proof {
                assert(texts(out@.push(*name)) =~= texts(out@).push(name@));
            }
            out.push(name.clone());
        }
        i += 1;
    }
    assert(texts(all@).take(all@.len() as int) =~= texts(all@));
    out
}

/// Splits `pkgs` by `marks`: the marked packages, and the others.
pub fn partition(pkgs: &Vec<Pkg>, marks: &Vec<bool>) -> (r: (Vec<Pkg>, Vec<Pkg>))
    requires
        marks@.len() == pkgs@.len(),
    ensures
        pkg_views(r.0@) == picked(pkg_views(pkgs@), marks@, true),
        pkg_views(r.1@) == picked(pkg_views(pkgs@), marks@, false),
{
    let ghost all = pkg_views(pkgs@);
    let mut marked: Vec<Pkg> = Vec::new();
    let mut others: Vec<Pkg> = Vec::new();
    let mut i: usize = 0;
    proof {
        assert(pkg_views(marked@) =~= picked(all.take(0), marks@.take(0), true));
        assert(pkg_views(others@) =~= picked(all.take(0), marks@.take(0), false));
    }
    while i < pkgs.len()
        invariant
            i <= pkgs.len(),
            marks@.len() == pkgs@.len(),
            all == pkg_views(pkgs@),
            pkg_views(marked@) == picked(all.take(i as int), marks@.take(i as int), true),
            pkg_views(others@) == picked(all.take(i as int), marks@.take(i as int), false),
        decreases pkgs.len() - i,
    {
        let copy = pkgs[i].duplicate();
        proof {
            assert(all.take(i + 1).drop_last() =~= all.take(i as int));
            assert(marks@.take(i + 1).drop_last() =~= marks@.take(i as int));
            assert(all.take(i + 1).last() == copy@);
        }
        if marks[i] {
            assert(pkg_views(marked@.push(copy)) =~= pkg_views(marked@).push(copy@));
            marked.push(copy);
        } else {
            assert(pkg_views(others@.push(copy)) =~= pkg_views(others@).push(copy@));
            others.push(copy);
        }
        i += 1;
    }
    proof {
        assert(all.take(pkgs@.len() as int) =~= all);
        assert(marks@.take(pkgs@.len() as int) =~= marks@);
    }
    (marked, others)
}

/// Whether neither the glob of forced packages nor the name of any package
/// holds a backslash.
pub open spec fn plain_force(force: Option<String>, pkgs: Seq<Pkg>) -> bool {
    &&& plain_option(optional(force))
    &&& forall|i: int| 0 <= i < pkgs.len() ==> plain((#[trigger] pkgs[i]).name@)
}

/// Whether neither the glob of ignored changes nor the name of any file
/// holds a backslash.
pub open spec fn plain_files(ignore: Option<String>, files: Seq<Seq<char>>) -> bool {
    &&& plain_option(optional(ignore))
    &&& forall|k: int| 0 <= k < files.len() ==> plain(#[trigger] files[k])
}

/// Whether some file is not ignored and lies under the package's path:
/// `ignored` says of each file whether the glob of ignored changes matches
/// it, `under` whether it lies under the path.
pub open spec fn some_counts(ignored: Seq<bool>, under: Seq<bool>) -> bool {
    exists|k: int| 0 <= k < ignored.len() && k < under.len() && !#[trigger] ignored[k] && under[k]
}

/// Whether the glob of ignored changes leaves some file of `files`.
pub open spec fn some_left(ignore: Option<Seq<char>>, files: Seq<Seq<char>>) -> bool {
    exists|k: int| 0 <= k < files.len() && !set_apart(ignore, #[trigger] files[k])
}

/// Whether a package counts as changed: it is forced, or some file that
/// changed is not ignored and lies under its path. `forced` says whether
/// the glob of forced packages matches its name; `ignored` and `under` say
/// of each file that changed whether the glob of ignored changes matches it
/// and whether it lies under the package's path.
pub fn changed_by(forced: bool, ignored: &Vec<bool>, under: &Vec<bool>) -> (r: bool)
    ensures
        r == (forced || some_counts(ignored@, under@)),
{
    if forced {
        return true;
    }
    let mut k: usize = 0;
    while k < ignored.len() && k < under.len()
        invariant
            forall|j: int| 0 <= j < k && j < ignored@.len() && j < under@.len() ==> !(
            !#[trigger] ignored@[j] && under@[j]),
        decreases ignored.len() - k,
    {
        if !ignored[k] && under[k] {
            return true;
        }
        k += 1;
    }
    false
}

impl ChangeOpt {
    /// Whether `pkg` counts as changed, `files` being the files that
    /// changed: its name matches the glob of forced packages, or one of the
    /// files lies under its path and is not matched by the glob of ignored
    /// changes. What the globs match is for the `globset` crate to say, and
    /// what lies under a path for the platform.
    pub fn is_changed(&self, pkg: &Pkg, files: &Vec<String>) -> (r: bool)
        ensures
            plain_option(optional(self.force)) && plain(pkg.name@) ==> (set_apart(
                optional(self.force),
                pkg.name@,
            ) ==> r),
            plain_option(optional(self.force)) && plain(pkg.name@) && plain_files(
                self.ignore_changes,
                texts(files@),
            ) ==> (r ==> set_apart(optional(self.force), pkg.name@) || some_left(
                optional(self.ignore_changes),
                texts(files@),
            )),
            r && self.force is None ==> files@.len() > 0,
    {
        let forced = is_set_apart(&self.force, pkg.name.as_str());
        let mut ignored: Vec<bool> = Vec::new();
        let mut under: Vec<bool> = Vec::new();
        let mut k: usize = 0;
        while k < files.len()
            invariant
                k <= files.len(),
                ignored@.len() == k,
                under@.len() == k,
                plain_files(self.ignore_changes, texts(files@)) ==> forall|j: int|
                    0 <= j < k ==> #[trigger] ignored@[j] == set_apart(
                        optional(self.ignore_changes),
                        files@[j]@,
                    ),
            decreases files.len() - k,
        {
            let file = &files[k];
            assert(texts(files@)[k as int] == file@);
            ignored.push(is_set_apart(&self.ignore_changes, file.as_str()));
            under.push(crate::paths::starts_with(file.as_str(), pkg.path.as_str()));
            k += 1;
        }
        let r = changed_by(forced, &ignored, &under);
        proof {
            if some_counts(ignored@, under@) && plain_files(self.ignore_changes, texts(files@)) {
                let j = choose|j: int|
                    0 <= j < ignored@.len() && j < under@.len() && !#[trigger] ignored@[j]
                        && under@[j];
                assert(!set_apart(optional(self.ignore_changes), texts(files@)[j]));
            }
        }
        r
    }

    /// The packages that changed and those that did not, each list in the
    /// order of `pkgs`. `printed` is what `git diff --name-only` printed
    /// against the last release; without a release to compare with, every
    /// package counts as changed. A package that the glob of forced
    /// packages matches counts as changed in any case; no other does unless
    /// the glob of ignored changes leaves some file that changed.
    pub fn get_changed_pkgs(&self, pkgs: &Vec<Pkg>, printed: &Option<String>) -> (r: (
        Vec<Pkg>,
        Vec<Pkg>,
    ))
        ensures
            exists|marks: Seq<bool>|
                {
                    &&& marks.len() == pkgs@.len()
                    &&& #[trigger] picked(pkg_views(pkgs@), marks, true) == pkg_views(r.0@)
                    &&& picked(pkg_views(pkgs@), marks, false) == pkg_views(r.1@)
                    &&& printed is None ==> forall|i: int|
                        0 <= i < marks.len() ==> #[trigger] marks[i]
                    &&& plain_force(self.force, pkgs@) ==> forall|i: int|
                        0 <= i < marks.len() && set_apart(optional(self.force), pkgs@[i].name@)
                            ==> #[trigger] marks[i]
                    &&& printed is Some && plain_force(self.force, pkgs@) && plain_files(
                        self.ignore_changes,
                        file_names(printed->Some_0@),
                    ) ==> forall|i: int|
                        0 <= i < marks.len() && #[trigger] marks[i] ==> set_apart(
                            optional(self.force),
                            pkgs@[i].name@,
                        ) || some_left(
                            optional(self.ignore_changes),
                            file_names(printed->Some_0@),
                        )
                    &&& printed is Some && self.force is None && file_names(
                        printed->Some_0@,
                    ).len() == 0 ==> forall|i: int| 0 <= i < marks.len() ==> !#[trigger] marks[i]
                },
    {
        let mut marks: Vec<bool> = Vec::new();
        let files = match printed {
            Some(text) => changed_files(text.as_str()),
            None => Vec::new(),
        };
        let mut i: usize = 0;
        while i < pkgs.len()
            invariant
                i <= pkgs.len(),
                marks@.len() == i,
                printed is Some ==> texts(files@) == file_names(printed->Some_0@),
                printed is None ==> forall|k: int| 0 <= k < i ==> #[trigger] marks@[k],
                plain_force(self.force, pkgs@) ==> forall|k: int|
                    0 <= k < i && set_apart(optional(self.force), pkgs@[k].name@)
                        ==> #[trigger] marks@[k],
                printed is Some && plain_force(self.force, pkgs@) && plain_files(
                    self.ignore_changes,
                    texts(files@),
                ) ==> forall|k: int|
                    0 <= k < i && #[trigger] marks@[k] ==> set_apart(
                        optional(self.force),
                        pkgs@[k].name@,
                    ) || some_left(optional(self.ignore_changes), texts(files@)),
                printed is Some && self.force is None && file_names(printed->Some_0@).len() == 0
                    ==> forall|k: int| 0 <= k < i ==> !#[trigger] marks@[k],
            decreases pkgs.len() - i,
        {
            let mark = match printed {
                Some(_) => self.is_changed(&pkgs[i], &files),
                None => true,
            };
            proof {
                assert(texts(files@).len() == files@.len());
            }
            marks.push(mark);
            i += 1;
        }
        partition(pkgs, &marks)
    }
}

} // verus!
