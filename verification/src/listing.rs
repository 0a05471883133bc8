//! The packages of the workspace as they are listed: which ones, in what
//! order, and how a listing is laid out.

use crate::error::{Error, Result};
use crate::package::{is_private, Package, PackageConfig};
use crate::text::{contains, to_chars};
use crate::version::{
    lemma_text_chain, order_texts, text_before, version_text, Order, Version, VersionView,
};
use vstd::prelude::*;
use vstd::string::StringExecFns;

verus! {

/// How to list packages.
#[derive(Debug, Clone, Copy)]
pub struct ListOpt {
    /// Show the version and the path of each package.
    pub long: bool,
    /// Show private packages too.
    pub all: bool,
    /// List the packages as a JSON array.
    pub json: bool,
}

/// A package as it is listed.
#[derive(Debug)]
pub struct Pkg {
    pub id: String,
    pub name: String,
    pub version: Version,
    /// The directory of the package.
    pub location: String,
    /// The directory of the package, from the workspace root.
    pub path: String,
    pub private: bool,
    pub config: PackageConfig,
}

/// What is known of the workspace.
#[derive(Debug)]
pub struct Metadata {
    pub packages: Vec<Package>,
    /// The ids of the packages that are members of the workspace.
    pub workspace_members: Vec<String>,
    pub workspace_root: String,
}

/// The mathematical value of a [`Pkg`].
pub struct PkgView {
    pub id: Seq<char>,
    pub name: Seq<char>,
    pub version: VersionView,
    pub location: Seq<char>,
    pub path: Seq<char>,
    pub private: bool,
    pub independent: bool,
}

impl View for Pkg {
    type V = PkgView;

    open spec fn view(&self) -> PkgView {
        PkgView {
            id: self.id@,
            name: self.name@,
            version: self.version@,
            location: self.location@,
            path: self.path@,
            private: self.private,
            independent: self.config.independent == Some(true),
        }
    }
}

/// The values of a list of listed packages.
pub open spec fn pkg_views(pkgs: Seq<Pkg>) -> Seq<PkgView> {
    pkgs.map_values(|p: Pkg| p@)
}

impl Pkg {
    /// A copy of this package.
    pub fn duplicate(&self) -> (r: Pkg)
        ensures
            r@ == self@,
            r.config == self.config,
    {
        Pkg {
            id: self.id.clone(),
            name: self.name.clone(),
            version: self.version.duplicate(),
            location: self.location.clone(),
            path: self.path.clone(),
            private: self.private,
            config: self.config,
        }
    }
}

/// The index of the first package with the id `id`, if there is one.
pub open spec fn first_with_id(packages: Seq<Package>, id: Seq<char>) -> Option<int>
    decreases packages.len(),
{
    if packages.len() == 0 {
        None
    } else {
        match first_with_id(packages.drop_last(), id) {
            Some(k) => Some(k),
            None => if packages.last().id@ == id {
                Some(packages.len() - 1)
            } else {
                None
            },
        }
    }
}

proof fn lemma_first_with_id_grows(packages: Seq<Package>, id: Seq<char>, len: int, k: int)
    requires
        0 <= len <= packages.len(),
        first_with_id(packages.take(len), id) == Some(k),
    ensures
        first_with_id(packages, id) == Some(k),
    decreases packages.len() - len,
{
    if len < packages.len() {
        assert(packages.take(len + 1).drop_last() =~= packages.take(len));
        lemma_first_with_id_grows(packages, id, len + 1, k);
    } else {
        assert(packages.take(len) =~= packages);
    }
}

/// The first package with the id `id`.
pub fn find_member(packages: &Vec<Package>, id: &str) -> (r: Option<usize>)
    ensures
        match r {
            Some(k) => k < packages.len() && first_with_id(packages@, id@) == Some(k as int),
            None => first_with_id(packages@, id@).is_none(),
        },
{
    let mut k: usize = 0;
    while k < packages.len()
        invariant
            k <= packages.len(),
            first_with_id(packages@.take(k as int), id@).is_none(),
        decreases packages.len() - k,
    {
        proof {
            assert(packages@.take(k + 1).drop_last() =~= packages@.take(k as int));
        }
        if crate::text::str_eq(packages[k].id.as_str(), id) {
            proof {
                assert(first_with_id(packages@.take(k + 1), id@) == Some(k as int));
                lemma_first_with_id_grows(packages@, id@, k + 1, k as int);
            }
            return Some(k);
        }
        k += 1;
    }
    assert(packages@.take(packages@.len() as int) =~= packages@);
    None
}

/// The members of the workspace that are not among its packages.
pub fn missing_members(metadata: &Metadata) -> (r: Vec<String>)
    ensures
        crate::lines::texts(r@) == crate::lines::texts(metadata.workspace_members@).filter(
            |id: Seq<char>| first_with_id(metadata.packages@, id).is_none(),
        ),
{
    let ghost all = crate::lines::texts(metadata.workspace_members@);
    let ghost absent = |id: Seq<char>| first_with_id(metadata.packages@, id).is_none();
    let mut out: Vec<String> = Vec::new();
    let mut i: usize = 0;
    proof {
        assert(all.take(0) =~= Seq::<Seq<char>>::empty());
        all.take(0).lemma_filter_len(absent);
        assert(crate::lines::texts(out@) =~= all.take(0).filter(absent));
    }
    while i < metadata.workspace_members.len()
        invariant
            i <= metadata.workspace_members.len(),
            all == crate::lines::texts(metadata.workspace_members@),
            absent == |id: Seq<char>| first_with_id(metadata.packages@, id).is_none(),
            crate::lines::texts(out@) == all.take(i as int).filter(absent),
        decreases metadata.workspace_members.len() - i,
    {
        let id = &metadata.workspace_members[i];
        proof {
            assert(all.take(i + 1) =~= all.take(i as int).push(id@));
            all.take(i as int).lemma_filter_push(id@, absent);
        }
        if find_member(&metadata.packages, id.as_str()).is_none() {
            proof {
                assert(crate::lines::texts(out@.push(*id)) =~= crate::lines::texts(out@).push(id@));
            }
            out.push(id.clone());
        }
        i += 1;
    }
    assert(all.take(all.len() as int) =~= all);
    out
}

/// Whether the packages stand in the order of their ids.
pub open spec fn ordered_by_id(pkgs: Seq<PkgView>) -> bool {
    forall|a: int, b: int|
        0 <= a < b < pkgs.len() ==> !text_before(#[trigger] pkgs[b].id, #[trigger] pkgs[a].id)
}

/// The place of a package with the id `id` among `sorted`: before the first
/// package whose id comes after `id`.
fn place_by_id(sorted: &Vec<Pkg>, id: &str) -> (at: usize)
    ensures
        at <= sorted.len(),
        forall|a: int| 0 <= a < at ==> !text_before(id@, #[trigger] pkg_views(sorted@)[a].id),
        at < sorted.len() ==> text_before(id@, pkg_views(sorted@)[at as int].id),
{
    let chars = to_chars(id);
    let mut at: usize = 0;
    while at < sorted.len()
        invariant
            at <= sorted.len(),
            chars@ == id@,
            forall|a: int| 0 <= a < at ==> !text_before(id@, #[trigger] pkg_views(sorted@)[a].id),
        decreases sorted.len() - at,
    {
        let other = to_chars(sorted[at].id.as_str());
        assert(pkg_views(sorted@)[at as int] == sorted@[at as int]@);
        match order_texts(&chars, &other) {
            Order::Before => {
                return at;
            },
            _ => {},
        }
        at += 1;
    }
    at
}

/// Puts `pkg` into `sorted` at its place in the order of the ids, after the
/// packages of the same id.
pub fn insert_by_id(sorted: &mut Vec<Pkg>, pkg: Pkg)
    requires
        ordered_by_id(pkg_views(old(sorted)@)),
    ensures
        ordered_by_id(pkg_views(final(sorted)@)),
        exists|at: int|
            0 <= at <= old(sorted)@.len() && pkg_views(final(sorted)@) == pkg_views(
                old(sorted)@,
            ).insert(at, pkg@),
{
    let ghost before = pkg_views(sorted@);
    let at = place_by_id(sorted, pkg.id.as_str());
    let ghost value = pkg@;
    proof {
        if at < sorted.len() {
            assert(before[at as int] == sorted@[at as int]@);
        }
    }
    sorted.insert(at, pkg);
    proof {
        let after = pkg_views(sorted@);
        assert(after =~= before.insert(at as int, value));
        assert forall|a: int, b: int| 0 <= a < b < after.len() implies !text_before(
            #[trigger] after[b].id,
            #[trigger] after[a].id,
        ) by {
            if b < at {
                assert(after[a] == before[a] && after[b] == before[b]);
            } else if b == at {
                assert(after[a] == before[a]);
            } else if a < at {
                assert(after[a] == before[a] && after[b] == before[b - 1]);
                assert(!text_before(before[b - 1].id, before[a].id));
            } else if a == at {
                assert(after[b] == before[b - 1]);
                assert(text_before(value.id, before[at as int].id));
                if b - 1 > at {
                    assert(!text_before(before[b - 1].id, before[at as int].id));
                    if text_before(before[b - 1].id, value.id) {
                        lemma_text_chain(before[b - 1].id, value.id, before[at as int].id);
                    }
                } else {
                    crate::version::lemma_text_one_way(value.id, before[at as int].id);
                }
            } else {
                assert(after[a] == before[a - 1] && after[b] == before[b - 1]);
            }
        }
    }
}

/// A run of `n` spaces.
pub fn spaces(n: usize) -> (r: String)
    ensures
        r@ == Seq::new(n as nat, |i: int| ' '),
{
    let mut out = String::new();
    let mut i: usize = 0;
    while i < n
        invariant
            i <= n,
            out@ == Seq::new(i as nat, |j: int| ' '),
        decreases n - i,
    {
        out.push(' ');
        assert(out@ =~= Seq::new((i + 1) as nat, |j: int| ' '));
        i += 1;
    }
    out
}

impl Pkg {
    /// The listing entry of `pkg` in the workspace rooted at `root`. Its
    /// path is the directory of the manifest, taken from the root, and so a
    /// part of the text of the manifest's path; the package must lie under
    /// the root.
    pub fn from_package(pkg: &Package, root: &str) -> (r: Result<Pkg>)
        ensures
            match r {
                Ok(p) => p.id@ == pkg.id@ && p.name@ == pkg.name@ && p.version@ == pkg.version@
                    && p.private == pkg@.private && p.config == pkg.config && contains(
                    pkg.manifest_path@,
                    p.path@,
                ),
                Err(Error::PackageNotInWorkspace { id, ws }) => id@ == pkg.id@ && ws@ == root@,
                Err(_) => false,
            },
    {
        let place = match crate::paths::strip_prefix(pkg.manifest_path.as_str(), root) {
            None => None,
            Some(manifest) => {
                let ghost rest = manifest@;
                let path = match crate::paths::parent(manifest.as_str()) {
                    Some(directory) => directory,
                    None => manifest,
                };
                proof {
                    if path@ == rest {
                        assert(rest.subrange(0, rest.len() as int) =~= rest);
                        assert(crate::text::occurs_at(rest, rest, 0));
                    }
                    crate::text::lemma_part_of_part(pkg.manifest_path@, rest, path@);
                }
                let location = crate::paths::join(root, path.as_str());
                Some((path, location))
            },
        };
        Pkg::entry(pkg, root, place)
    }

    /// The listing entry of `pkg` in the workspace rooted at `root`, where
    /// `place` holds the directory of the package, first taken from the
    /// root and then in full; without a place the package lies outside the
    /// workspace, which is an error.
    pub fn entry(pkg: &Package, root: &str, place: Option<(String, String)>) -> (r: Result<Pkg>)
        ensures
            match place {
                Some((path, location)) => r is Ok && r->Ok_0.id@ == pkg.id@ && r->Ok_0.name@
                    == pkg.name@ && r->Ok_0.version@ == pkg.version@ && r->Ok_0.private
                    == pkg@.private && r->Ok_0.config == pkg.config && r->Ok_0.path == path
                    && r->Ok_0.location == location,
                None => r is Err && r->Err_0 is PackageNotInWorkspace
                    && r->Err_0->PackageNotInWorkspace_id@ == pkg.id@
                    && r->Err_0->PackageNotInWorkspace_ws@ == root@,
            },
    {
        match place {
            None => Err(
                Error::PackageNotInWorkspace {
                    id: pkg.id.clone(),
                    ws: String::from_str(root),
                },
            ),
            Some((path, location)) => Ok(
                Pkg {
                    id: pkg.id.clone(),
                    name: pkg.name.clone(),
                    version: pkg.version.duplicate(),
                    location,
                    path,
                    private: is_private(pkg),
                    config: pkg.config,
                },
            ),
        }
    }
}

/// Whether the member with the id `id` is listed: it is among the packages,
/// and it is public or private packages are asked for.
pub open spec fn is_listed(metadata: &Metadata, all: bool, id: Seq<char>) -> bool {
    match first_with_id(metadata.packages@, id) {
        Some(k) => all || !metadata.packages@[k]@.private,
        None => false,
    }
}

/// Whether `pkg` is the entry of a member that is listed.
pub open spec fn lists_member(metadata: &Metadata, all: bool, pkg: PkgView) -> bool {
    exists|m: int|
        0 <= m < metadata.workspace_members@.len() && is_listed(
            metadata,
            all,
            (#[trigger] metadata.workspace_members@[m])@,
        ) && pkg.id == metadata.workspace_members@[m]@ && {
            let k = first_with_id(metadata.packages@, pkg.id)->Some_0;
            pkg.name == metadata.packages@[k]@.name && pkg.version
                == metadata.packages@[k]@.version && pkg.private
                == metadata.packages@[k]@.private && contains(
                metadata.packages@[k]@.manifest_path,
                pkg.path,
            )
        }
}

proof fn lemma_first_with_id(packages: Seq<Package>, id: Seq<char>)
    ensures
        match first_with_id(packages, id) {
            Some(k) => 0 <= k < packages.len() && packages[k].id@ == id,
            None => true,
        },
    decreases packages.len(),
{
    if packages.len() > 0 {
        lemma_first_with_id(packages.drop_last(), id);
    }
}

/// The members of the workspace as they are listed, in the order of their
/// ids; private ones only with `all`. Fails where a member lies outside the
/// workspace root, and where no member is left to list.
pub fn get_pkgs(metadata: &Metadata, all: bool) -> (r: Result<Vec<Pkg>>)
    ensures
        match r {
            Ok(pkgs) => {
                &&& pkgs@.len() > 0
                &&& ordered_by_id(pkg_views(pkgs@))
                &&& forall|k: int|
                    0 <= k < pkgs@.len() ==> lists_member(
                        metadata,
                        all,
                        #[trigger] pkg_views(pkgs@)[k],
                    )
                &&& forall|m: int|
                    0 <= m < metadata.workspace_members@.len() && is_listed(
                        metadata,
                        all,
                        (#[trigger] metadata.workspace_members@[m])@,
                    ) ==> exists|k: int|
                        0 <= k < pkgs@.len() && (#[trigger] pkg_views(pkgs@)[k]).id
                            == metadata.workspace_members@[m]@
            },
            Err(Error::EmptyWorkspace) => forall|m: int|
                0 <= m < metadata.workspace_members@.len() ==> !is_listed(
                    metadata,
                    all,
                    (#[trigger] metadata.workspace_members@[m])@,
                ),
            Err(Error::PackageNotInWorkspace { id, ws }) => ws@ == metadata.workspace_root@
                && exists|m: int|
                0 <= m < metadata.workspace_members@.len() && is_listed(
                    metadata,
                    all,
                    (#[trigger] metadata.workspace_members@[m])@,
                ) && metadata.workspace_members@[m]@ == id@,
            Err(_) => false,
        },
{
    let mut pkgs: Vec<Pkg> = Vec::new();
    let mut i: usize = 0;
    while i < metadata.workspace_members.len()
        invariant
            i <= metadata.workspace_members.len(),
            ordered_by_id(pkg_views(pkgs@)),
            forall|k: int|
                0 <= k < pkgs@.len() ==> lists_member(
                    metadata,
                    all,
                    #[trigger] pkg_views(pkgs@)[k],
                ),
            forall|m: int|
                0 <= m < i && is_listed(metadata, all, (#[trigger] metadata.workspace_members@[m])@)
                    ==> exists|k: int|
                    0 <= k < pkgs@.len() && (#[trigger] pkg_views(pkgs@)[k]).id
                        == metadata.workspace_members@[m]@,
        decreases metadata.workspace_members.len() - i,
    {
        let id = &metadata.workspace_members[i];
        let ghost before = pkg_views(pkgs@);
        if let Some(k) = find_member(&metadata.packages, id.as_str()) {
            let pkg = &metadata.packages[k];
            proof {
                lemma_first_with_id(metadata.packages@, id@);
            }
            if all || !is_private(pkg) {
                match Pkg::from_package(pkg, metadata.workspace_root.as_str()) {
                    Err(e) => {
                        return Err(e);
                    },
                    Ok(entry) => {
                        let ghost value = entry@;
                        assert(lists_member(metadata, all, value));
                        insert_by_id(&mut pkgs, entry);
                        proof {
                            let after = pkg_views(pkgs@);
                            let at = choose|at: int|
                                0 <= at <= before.len() && after == before.insert(at, value);
                            assert forall|k: int| 0 <= k < after.len() implies lists_member(
                                metadata,
                                all,
                                #[trigger] after[k],
                            ) by {
                                if k < at {
                                    assert(after[k] == before[k]);
                                } else if k > at {
                                    assert(after[k] == before[k - 1]);
                                }
                            }
                            assert forall|m: int|
                                0 <= m < i + 1 && is_listed(
                                    metadata,
                                    all,
                                    (#[trigger] metadata.workspace_members@[m])@,
                                ) implies exists|k: int|
                                0 <= k < after.len() && (#[trigger] after[k]).id
                                    == metadata.workspace_members@[m]@ by {
                                if m < i {
                                    let k = choose|k: int|
                                        0 <= k < before.len() && (#[trigger] before[k]).id
                                            == metadata.workspace_members@[m]@;
                                    if k < at {
                                        assert(after[k] == before[k]);
                                    } else {
                                        assert(after[k + 1] == before[k]);
                                    }
                                } else {
                                    assert(after[at] == value);
                                }
                            }
                        }
                    },
                }
            }
        }
        i += 1;
    }
    if pkgs.len() == 0 {
        proof {
            assert forall|m: int| 0 <= m < metadata.workspace_members@.len() implies !is_listed(
                metadata,
                all,
                (#[trigger] metadata.workspace_members@[m])@,
            ) by {
                if is_listed(metadata, all, metadata.workspace_members@[m]@) {
                    let k = choose|k: int|
                        0 <= k < pkgs@.len() && (#[trigger] pkg_views(pkgs@)[k]).id
                            == metadata.workspace_members@[m]@;
                }
            }
        }
        return Err(Error::EmptyWorkspace);
    }
    Ok(pkgs)
}

/// The version and the path of a package in a long listing.
#[derive(Debug)]
pub struct Detail {
    /// The spaces between the name and the version.
    pub gap: usize,
    /// The version, after a `v`.
    pub version: String,
    /// The spaces between the version and the path.
    pub pad: usize,
    /// The path from the workspace root, `.` for the root itself.
    pub path: String,
}

/// One line of a listing.
#[derive(Debug)]
pub struct Row {
    pub name: String,
    /// The version and the path, in a long listing.
    pub detail: Option<Detail>,
    /// The spaces before the mark of a private package, where the package
    /// is marked.
    pub private: Option<usize>,
}

/// The greatest of `lens`, zero where there is none.
pub open spec fn widest(lens: Seq<nat>) -> nat
    decreases lens.len(),
{
    if lens.len() == 0 {
        0
    } else if lens.last() > widest(lens.drop_last()) {
        lens.last()
    } else {
        widest(lens.drop_last())
    }
}

pub proof fn lemma_widest(lens: Seq<nat>, i: int)
    requires
        0 <= i < lens.len(),
    ensures
        lens[i] <= widest(lens),
    decreases lens.len(),
{
    if i < lens.len() - 1 {
        lemma_widest(lens.drop_last(), i);
    }
}

/// The length of `text` in bytes.
pub open spec fn width(text: Seq<char>) -> nat {
    vstd::utf8::encode_utf8(text).len()
}

/// The widths of the names.
pub open spec fn name_widths(pkgs: Seq<PkgView>) -> Seq<nat> {
    pkgs.map_values(|p: PkgView| width(p.name))
}

/// The widths of the versions.
pub open spec fn version_widths(pkgs: Seq<PkgView>) -> Seq<nat> {
    pkgs.map_values(|p: PkgView| width(version_text(p.version)))
}

/// The widths of the paths; an empty path counts as one character.
pub open spec fn path_widths(pkgs: Seq<PkgView>) -> Seq<nat> {
    pkgs.map_values(
        |p: PkgView|
            if width(p.path) < 1 {
                1
            } else {
                width(p.path)
            },
    )
}

/// Whether `row` is the line for package `i` of `pkgs`: the name; in a long
/// listing the version and the path, each column as wide as its widest
/// entry; and with `all` the mark of a private package.
pub open spec fn is_row(pkgs: Seq<PkgView>, opt: ListOpt, i: int, row: Row) -> bool {
    let p = pkgs[i];
    &&& row.name@ == p.name
    &&& row.detail is Some == opt.long
    &&& opt.long ==> {
        let d = row.detail->Some_0;
        &&& d.gap == widest(name_widths(pkgs)) - width(p.name)
        &&& d.version@ == "v"@ + version_text(p.version)
        &&& d.pad == widest(version_widths(pkgs)) - width(version_text(p.version))
        &&& d.path@ == if p.path.len() == 0 {
            "."@
        } else {
            p.path
        }
    }
    &&& row.private is Some == (opt.all && p.private)
    &&& opt.all && p.private ==> row.private->Some_0 == if opt.long {
        widest(path_widths(pkgs)) - width(p.path)
    } else {
        widest(name_widths(pkgs)) - width(p.name)
    }
}

/// The byte lengths that a listing is laid out by.
fn column_widths(pkgs: &Vec<Pkg>) -> (r: (usize, usize, usize))
    ensures
        r.0 == widest(name_widths(pkg_views(pkgs@))),
        r.1 == widest(version_widths(pkg_views(pkgs@))),
        r.2 == widest(path_widths(pkg_views(pkgs@))),
{
    let ghost all = pkg_views(pkgs@);
    let mut first: usize = 0;
    let mut second: usize = 0;
    let mut third: usize = 0;
    let mut i: usize = 0;
    proof {
        assert(name_widths(all).take(0) =~= Seq::<nat>::empty());
        assert(version_widths(all).take(0) =~= Seq::<nat>::empty());
        assert(path_widths(all).take(0) =~= Seq::<nat>::empty());
    }
    while i < pkgs.len()
        invariant
            i <= pkgs.len(),
            all == pkg_views(pkgs@),
            first == widest(name_widths(all).take(i as int)),
            second == widest(version_widths(all).take(i as int)),
            third == widest(path_widths(all).take(i as int)),
        decreases pkgs.len() - i,
    {
        let p = &pkgs[i];
        proof {
            assert(all[i as int] == p@);
            assert(name_widths(all).take(i + 1).drop_last() =~= name_widths(all).take(i as int));
            assert(version_widths(all).take(i + 1).drop_last() =~= version_widths(all).take(
                i as int,
            ));
            assert(path_widths(all).take(i + 1).drop_last() =~= path_widths(all).take(i as int));
        }
        let n = p.name.as_str().as_bytes().len();
        if n > first {
            first = n;
        }
        let v = p.version.to_string().as_str().as_bytes().len();
        if v > second {
            second = v;
        }
        let raw = p.path.as_str().as_bytes().len();
        let w = if raw < 1 {
            1
        } else {
            raw
        };
        if w > third {
            third = w;
        }
        i += 1;
    }
    proof {
        assert(name_widths(all).take(pkgs@.len() as int) =~= name_widths(all));
        assert(version_widths(all).take(pkgs@.len() as int) =~= version_widths(all));
        assert(path_widths(all).take(pkgs@.len() as int) =~= path_widths(all));
    }
    (first, second, third)
}

/// The lines of a listing of `pkgs`, one for each package.
pub fn list(pkgs: &Vec<Pkg>, opt: ListOpt) -> (r: Vec<Row>)
    ensures
        r@.len() == pkgs@.len(),
        forall|i: int| 0 <= i < r@.len() ==> is_row(pkg_views(pkgs@), opt, i, #[trigger] r@[i]),
{
    let ghost all = pkg_views(pkgs@);
    let (first, second, third) = column_widths(pkgs);
    let mut out: Vec<Row> = Vec::new();
    let mut i: usize = 0;
    while i < pkgs.len()
        invariant
            i <= pkgs.len(),
            out@.len() == i,
            all == pkg_views(pkgs@),
            first == widest(name_widths(all)),
            second == widest(version_widths(all)),
            third == widest(path_widths(all)),
            forall|k: int| 0 <= k < i ==> is_row(all, opt, k, #[trigger] out@[k]),
        decreases pkgs.len() - i,
    {
        let p = &pkgs[i];
        proof {
            assert(all[i as int] == p@);
            lemma_widest(name_widths(all), i as int);
            lemma_widest(version_widths(all), i as int);
            lemma_widest(path_widths(all), i as int);
        }
        let name_len = p.name.as_str().as_bytes().len();
        let path_len = p.path.as_str().as_bytes().len();
        let mut gap = first - name_len;
        let detail = if opt.long {
            let text = p.version.to_string();
            let mut version = String::from_str("v");
            version.append(text.as_str());
            let path = if p.path.as_str().unicode_len() == 0 {
                String::from_str(".")
            } else {
                p.path.clone()
            };
            let d = Detail { gap, version, pad: second - text.as_str().as_bytes().len(), path };
            gap = third - path_len;
            Some(d)
        } else {
            None
        };
        let private = if opt.all && p.private {
            Some(gap)
        } else {
            None
        };
        let row = Row { name: p.name.clone(), detail, private };
        assert(is_row(all, opt, i as int, row));
        out.push(row);
        i += 1;
    }
    out
}

impl Row {
    /// The text of the line, without colours.
    pub fn text(&self) -> (r: String)
        ensures
            r@ == self.name@ + (match self.detail {
                Some(d) => Seq::new(d.gap as nat, |i: int| ' ') + " "@ + d.version@ + Seq::new(
                    d.pad as nat,
                    |i: int| ' ',
                ) + " "@ + d.path@,
                None => Seq::<char>::empty(),
            }) + (match self.private {
                Some(gap) => Seq::new(gap as nat, |i: int| ' ') + " (PRIVATE)"@,
                None => Seq::<char>::empty(),
            }),
    {
        let mut out = self.name.clone();
        let ghost name = out@;
        if let Some(d) = &self.detail {
            out.append(spaces(d.gap).as_str());
            out.append(" ");
            out.append(d.version.as_str());
            out.append(spaces(d.pad).as_str());
            out.append(" ");
            out.append(d.path.as_str());
            assert(out@ =~= name + (Seq::new(d.gap as nat, |i: int| ' ') + " "@ + d.version@
                + Seq::new(d.pad as nat, |i: int| ' ') + " "@ + d.path@));
        } else {
            assert(out@ =~= name + Seq::<char>::empty());
        }
        let ghost middle = out@;
        if let Some(gap) = self.private {
            out.append(spaces(gap).as_str());
            out.append(" (PRIVATE)");
            assert(out@ =~= middle + (Seq::new(gap as nat, |i: int| ' ') + " (PRIVATE)"@));
        } else {
            assert(out@ =~= middle + Seq::<char>::empty());
        }
        out
    }
}

} // verus!
