//! Giving the packages of a workspace their new versions: the choices that
//! are offered, what each choice means, and which manifests are rewritten.

use crate::bump::{
    can_continue, continued, fresh_pre, inc_major, inc_minor, inc_patch, inc_pre, inc_preid,
    major_bump, minor_bump, next_major, next_minor, next_patch, patch_bump, Bump,
};
use crate::changes::{ChangeData, ChangeOpt};
use crate::error::{Error, Result};
use crate::git::GitOpt;
use crate::package::Package;
use crate::planner::{planned_views, Planned, PlannedView};
use crate::tables::VersionMap;
use crate::text::{contains, str_contains};
use crate::version::{
    identifier_views, version_text, Identifier, IdentifierView, Version, VersionView,
};
use vstd::prelude::*;
use vstd::string::StringExecFns;

verus! {

/// How new versions are chosen and written.
#[derive(Debug)]
pub struct VersionOpt {
    /// The bump to make, in place of asking.
    pub bump: Option<Bump>,
    /// The version to give where the bump is `Custom`.
    pub custom: Option<Version>,
    /// The identifier of pre-releases.
    pub pre_id: Option<String>,
    pub change: ChangeOpt,
    pub git: GitOpt,
    /// Give private packages new versions too.
    pub all: bool,
    /// Write requirements between packages as `=` and the version.
    pub exact: bool,
    /// Do not ask for confirmation.
    pub yes: bool,
}

/// The text of an optional string.
pub open spec fn optional(s: Option<String>) -> Option<Seq<char>> {
    match s {
        Some(t) => Some(t@),
        None => None,
    }
}

/// The version that entry `k` of the menu gives for `v`: patch, minor and
/// major bump, then the pre-release of the next patch, minor and major
/// version.
pub open spec fn menu_version(v: VersionView, preid: Option<Seq<char>>, k: int) -> VersionView {
    if k == 0 {
        patch_bump(v)
    } else if k == 1 {
        minor_bump(v)
    } else if k == 2 {
        major_bump(v)
    } else if k == 3 {
        VersionView { pre: fresh_pre(v.pre, preid), ..next_patch(v) }
    } else if k == 4 {
        VersionView { pre: fresh_pre(v.pre, preid), ..next_minor(v) }
    } else {
        VersionView { pre: fresh_pre(v.pre, preid), ..next_major(v) }
    }
}

/// What entry `k` of the menu is called.
pub open spec fn menu_title(k: int) -> Seq<char> {
    if k == 0 {
        "Patch"@
    } else if k == 1 {
        "Minor"@
    } else if k == 2 {
        "Major"@
    } else if k == 3 {
        "Prepatch"@
    } else if k == 4 {
        "Preminor"@
    } else {
        "Premajor"@
    }
}

/// The label of entry `k` of the menu: its title, and in brackets the
/// version it gives.
pub open spec fn menu_label(v: VersionView, preid: Option<Seq<char>>, k: int) -> Seq<char> {
    menu_title(k) + " ("@ + version_text(menu_version(v, preid, k)) + ")"@
}

/// An entry of the menu: the title with the version in brackets, and the
/// version.
fn item(title: &str, version: Version) -> (r: (String, Option<Version>))
    ensures
        r.0@ == title@ + " ("@ + version_text(version@) + ")"@,
        r.1 == Some(version),
{
    let mut label = String::from_str(title);
    label.append(" (");
    label.append(version.to_string().as_str());
    label.append(")");
    (label, Some(version))
}

/// The versions that can be chosen for a package at `cur_version`, each
/// with its label: the six entries of the menu, in order.
pub fn version_items(cur_version: &Version, preid: &Option<String>) -> (r: Vec<
    (String, Option<Version>),
>)
    requires
        cur_version.major < u64::MAX,
        cur_version.minor < u64::MAX,
        cur_version.patch < u64::MAX,
    ensures
        r@.len() == 6,
        forall|k: int|
            0 <= k < 6 ==> (#[trigger] r@[k]).0@ == menu_label(cur_version@, optional(*preid), k)
                && r@[k].1 is Some && r@[k].1->Some_0@ == menu_version(
                cur_version@,
                optional(*preid),
                k,
            ),
{
    let mut items: Vec<(String, Option<Version>)> = Vec::new();
    items.push(item("Patch", inc_patch(cur_version.duplicate())));
    items.push(item("Minor", inc_minor(cur_version.duplicate())));
    items.push(item("Major", inc_major(cur_version.duplicate())));
    let prepatch = Version {
        major: cur_version.major,
        minor: cur_version.minor,
        patch: cur_version.patch + 1,
        pre: inc_pre(&cur_version.pre, preid),
        build: Vec::new(),
    };
    assert(prepatch@.build =~= seq![]);
    items.push(item("Prepatch", prepatch));
    let preminor = Version {
        major: cur_version.major,
        minor: cur_version.minor + 1,
        patch: 0,
        pre: inc_pre(&cur_version.pre, preid),
        build: Vec::new(),
    };
    assert(preminor@.build =~= seq![]);
    items.push(item("Preminor", preminor));
    let premajor = Version {
        major: cur_version.major + 1,
        minor: 0,
        patch: 0,
        pre: inc_pre(&cur_version.pre, preid),
        build: Vec::new(),
    };
    assert(premajor@.build =~= seq![]);
    items.push(item("Premajor", premajor));
    items
}

/// The new version that the choice `selected` gives for `v`: the entries 0
/// to 5 of the menu; 6 keeps the version (no new version); 7 continues the
/// pre-release under the identifier `preid`; 8 takes the version `custom`.
pub open spec fn chosen(
    v: VersionView,
    pre_id: Option<Seq<char>>,
    selected: int,
    preid: Seq<char>,
    custom: VersionView,
) -> Option<VersionView> {
    if selected == 6 {
        None
    } else if selected == 7 {
        Some(continued(v, IdentifierView::AlphaNumeric(preid)))
    } else if selected == 8 {
        Some(custom)
    } else {
        Some(menu_version(v, pre_id, selected))
    }
}

impl VersionOpt {
    /// The new version for a package at `cur_version` under the choice
    /// `selected`. `preid` is the identifier to continue a pre-release
    /// under, `custom` the version to take, for the choices that need them.
    pub fn ask_version(
        &self,
        cur_version: &Version,
        selected: usize,
        preid: &str,
        custom: &Version,
    ) -> (r: Option<Version>)
        requires
            selected <= 8,
            selected < 6 ==> cur_version.major < u64::MAX && cur_version.minor < u64::MAX
                && cur_version.patch < u64::MAX,
            selected == 7 ==> can_continue(cur_version@, IdentifierView::AlphaNumeric(preid@)),
        ensures
            crate::planner::optional_view(r) == chosen(
                cur_version@,
                optional(self.pre_id),
                selected as int,
                preid@,
                custom@,
            ),
    {
        if selected == 6 {
            None
        } else if selected == 7 {
            Some(inc_preid(cur_version, Identifier::AlphaNumeric(String::from_str(preid))))
        } else if selected == 8 {
            Some(custom.duplicate())
        } else {
            let items = version_items(cur_version, &self.pre_id);
            match &items[selected].1 {
                Some(v) => Some(v.duplicate()),
                None => None,
            }
        }
    }

    /// Whether there is nothing to version: the head commit is the last
    /// release, the working tree is clean, and no package is forced.
    pub fn is_released(&self, change_data: &ChangeData) -> (r: bool)
        ensures
            r == (self.change.force is None && change_data.count@ == "0"@ && !change_data.dirty),
    {
        self.change.force.is_none() && change_data.is_released() && !change_data.dirty
    }
}

/// Whether one of the dependencies of `pkg` is among the new versions.
pub open spec fn depends_on_new(pkg: Package, versions: Map<Seq<char>, VersionView>) -> bool {
    exists|k: int|
        0 <= k < pkg.dependencies@.len() && versions.contains_key(
            (#[trigger] pkg.dependencies@[k]).name@,
        )
}

/// Whether the manifest of `pkg` is affected by the new versions: the
/// package gets one, or one of its dependencies does.
pub fn needs_rewrite(pkg: &Package, versions: &VersionMap) -> (r: bool)
    ensures
        r == (versions@.contains_key(pkg.name@) || depends_on_new(*pkg, versions@)),
{
    if versions.contains_key(pkg.name.as_str()) {
        return true;
    }
    let mut k: usize = 0;
    while k < pkg.dependencies.len()
        invariant
            k <= pkg.dependencies.len(),
            forall|m: int|
                0 <= m < k ==> !versions@.contains_key((#[trigger] pkg.dependencies@[m]).name@),
        decreases pkg.dependencies.len() - k,
    {
        if versions.contains_key(pkg.dependencies[k].name.as_str()) {
            return true;
        }
        k += 1;
    }
    false
}

/// The table of the versions in `plan`: each name with the version of its
/// last entry.
pub open spec fn table_of(plan: Seq<PlannedView>) -> Map<Seq<char>, VersionView>
    decreases plan.len(),
{
    if plan.len() == 0 {
        Map::empty()
    } else {
        table_of(plan.drop_last()).insert(plan.last().name, plan.last().version)
    }
}

/// The new versions by package name, in the order of the names.
pub fn confirm_versions(versions: &Vec<Planned>) -> (r: VersionMap)
    ensures
        r@ == table_of(planned_views(versions@)),
        r.is_ordered(),
{
    let ghost all = planned_views(versions@);
    let mut out = VersionMap::new();
    let mut i: usize = 0;
    assert(all.take(0) =~= Seq::<PlannedView>::empty());
    while i < versions.len()
        invariant
            i <= versions.len(),
            all == planned_views(versions@),
            out@ == table_of(all.take(i as int)),
            out.is_ordered(),
        decreases versions.len() - i,
    {
        proof {
            assert(all.take(i + 1).drop_last() =~= all.take(i as int));
            assert(all.take(i + 1).last() == versions@[i as int]@);
        }
        out.insert(versions[i].name.clone(), versions[i].version.duplicate());
        i += 1;
    }
    assert(all.take(versions@.len() as int) =~= all);
    out
}

/// The line that shows one new version: the name, the old version and the
/// new one.
pub fn change_line(entry: &Planned) -> (r: String)
    ensures
        r@ == " - "@ + entry.name@ + ": "@ + version_text(entry.previous@) + " => "@
            + version_text(entry.version@),
{
    let mut out = String::from_str(" - ");
    out.append(entry.name.as_str());
    out.append(": ");
    out.append(entry.previous.to_string().as_str());
    out.append(" => ");
    out.append(entry.version.to_string().as_str());
    out
}

/// The versions to write into the manifest of the workspace root: the new
/// versions, and under the empty name the common version, where there is
/// one.
pub fn root_versions(versions: &VersionMap, new_version: &Option<Version>) -> (r: VersionMap)
    ensures
        r@ == match new_version {
            Some(v) => versions@.insert(""@, v@),
            None => versions@,
        },
        versions.is_ordered() ==> r.is_ordered(),
{
    let mut out = versions.duplicate();
    if let Some(v) = new_version {
        out.insert(String::from_str(""), v.duplicate());
    }
    out
}

/// Checks what `cargo update` printed to its error stream.
pub fn check_update(stderr: &str) -> (r: Result<()>)
    ensures
        contains(stderr@, "error:"@) ==> r is Err && r->Err_0 is Update,
        !contains(stderr@, "error:"@) ==> r is Ok,
{
    if str_contains(stderr, "error:") {
        return Err(Error::Update);
    }
    Ok(())
}

} // verus!
