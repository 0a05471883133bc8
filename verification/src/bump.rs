//! The rules by which a version is raised: patch, minor and major bumps, the
//! pre-release forms of each, and the continuation of a pre-release.

use crate::text::to_chars;
use crate::version::{
    decimal, duplicate_identifiers, identifier_text, identifier_views, Identifier, IdentifierView,
    Version, VersionView,
};
use vstd::prelude::*;
use vstd::string::StringExecFns;

verus! {

/// The kind of bump asked for.
#[derive(Debug, Clone, Copy)]
pub enum Bump {
    Major,
    Minor,
    Patch,
    Premajor,
    Preminor,
    Prepatch,
    Skip,
    Prerelease,
    Custom,
}

impl Bump {
    /// The position of this bump in the menu of choices.
    pub fn selected(&self) -> (r: usize)
        ensures
            r == match self {
                Bump::Major => 2usize,
                Bump::Minor => 1usize,
                Bump::Patch => 0usize,
                Bump::Premajor => 5usize,
                Bump::Preminor => 4usize,
                Bump::Prepatch => 3usize,
                Bump::Skip => 6usize,
                Bump::Prerelease => 7usize,
                Bump::Custom => 8usize,
            },
    {
        match self {
            Bump::Major => 2,
            Bump::Minor => 1,
            Bump::Patch => 0,
            Bump::Premajor => 5,
            Bump::Preminor => 4,
            Bump::Prepatch => 3,
            Bump::Skip => 6,
            Bump::Prerelease => 7,
            Bump::Custom => 8,
        }
    }
}

/// `v` with the patch number raised by one and nothing after it.
pub open spec fn next_patch(v: VersionView) -> VersionView {
    VersionView { major: v.major, minor: v.minor, patch: v.patch + 1, pre: seq![], build: seq![] }
}

/// `v` with the minor number raised by one, patch zero and nothing after it.
pub open spec fn next_minor(v: VersionView) -> VersionView {
    VersionView { major: v.major, minor: v.minor + 1, patch: 0, pre: seq![], build: seq![] }
}

/// `v` with the major number raised by one, minor and patch zero and nothing
/// after them.
pub open spec fn next_major(v: VersionView) -> VersionView {
    VersionView { major: v.major + 1, minor: 0, patch: 0, pre: seq![], build: seq![] }
}

/// `v` released: the same numbers and build metadata, without pre-release.
pub open spec fn released(v: VersionView) -> VersionView {
    VersionView { major: v.major, minor: v.minor, patch: v.patch, pre: seq![], build: v.build }
}

/// The patch bump: a pre-release is released, any other version gets the
/// next patch number.
pub open spec fn patch_bump(v: VersionView) -> VersionView {
    if v.pre.len() > 0 {
        released(v)
    } else {
        next_patch(v)
    }
}

/// The minor bump: a pre-release of a minor version (patch zero) is
/// released, any other version gets the next minor number.
pub open spec fn minor_bump(v: VersionView) -> VersionView {
    if v.pre.len() > 0 && v.patch == 0 {
        released(v)
    } else {
        next_minor(v)
    }
}

/// The major bump: a pre-release of a major version (minor and patch zero)
/// is released, any other version gets the next major number.
pub open spec fn major_bump(v: VersionView) -> VersionView {
    if v.pre.len() > 0 && v.patch == 0 && v.minor == 0 {
        released(v)
    } else {
        next_major(v)
    }
}

/// The pre-release that a pre-bump attaches: the leading identifier of the
/// old pre-release if it is alphanumeric, else `preid` (or `alpha`), then a
/// counter at zero; a numeric leading identifier gives the counter alone.
pub open spec fn fresh_pre(pre: Seq<IdentifierView>, preid: Option<Seq<char>>) -> Seq<
    IdentifierView,
> {
    if pre.len() == 0 {
        seq![
            IdentifierView::AlphaNumeric(
                match preid {
                    Some(p) => p,
                    None => "alpha"@,
                },
            ),
            IdentifierView::Numeric(0),
        ]
    } else {
        match pre[0] {
            IdentifierView::AlphaNumeric(id) => seq![
                IdentifierView::AlphaNumeric(id),
                IdentifierView::Numeric(0),
            ],
            IdentifierView::Numeric(_) => seq![IdentifierView::Numeric(0)],
        }
    }
}

/// The index of the last numeric identifier of `pre`, or -1 if it has none.
pub open spec fn last_numeric(pre: Seq<IdentifierView>) -> int
    decreases pre.len(),
{
    if pre.len() == 0 {
        -1
    } else if pre.last() is Numeric {
        pre.len() - 1
    } else {
        last_numeric(pre.drop_last())
    }
}

/// `pre` with its last numeric identifier raised by one.
pub open spec fn raise_last_numeric(pre: Seq<IdentifierView>) -> Seq<IdentifierView> {
    let i = last_numeric(pre);
    if 0 <= i < pre.len() {
        match pre[i] {
            IdentifierView::Numeric(n) => pre.update(i, IdentifierView::Numeric(n + 1)),
            IdentifierView::AlphaNumeric(_) => pre,
        }
    } else {
        pre
    }
}

/// The continuation of a pre-release under the identifier `preid`.
///
/// A release gets the next patch number and the pre-release `preid.0`. A
/// pre-release that leads with an alphanumeric identifier whose text is that
/// of `preid` keeps it and raises the counter after it (or starts one at
/// zero); one that leads with a number whose text is that of `preid` has its
/// last numeric identifier raised. Any other pre-release is replaced by
/// `preid.0`.
pub open spec fn continued(v: VersionView, preid: IdentifierView) -> VersionView {
    if v.pre.len() == 0 {
        VersionView { pre: seq![preid, IdentifierView::Numeric(0)], ..next_patch(v) }
    } else {
        match v.pre[0] {
            IdentifierView::AlphaNumeric(id) => {
                if identifier_text(preid) == id {
                    if v.pre.len() > 1 && v.pre[1] is Numeric {
                        VersionView {
                            pre: seq![preid, IdentifierView::Numeric(v.pre[1]->Numeric_0 + 1)],
                            ..v
                        }
                    } else {
                        VersionView { pre: seq![preid, IdentifierView::Numeric(0)], ..v }
                    }
                } else {
                    VersionView { pre: seq![preid, IdentifierView::Numeric(0)], ..v }
                }
            },
            IdentifierView::Numeric(n) => {
                if identifier_text(preid) == decimal(n) {
                    VersionView { pre: raise_last_numeric(v.pre), ..v }
                } else {
                    VersionView { pre: seq![preid, IdentifierView::Numeric(0)], ..v }
                }
            },
        }
    }
}

/// Whether continuing the pre-release of `v` under `preid` stays within the
/// range of the numbers.
pub open spec fn can_continue(v: VersionView, preid: IdentifierView) -> bool {
    if v.pre.len() == 0 {
        v.patch < u64::MAX
    } else {
        match v.pre[0] {
            IdentifierView::AlphaNumeric(id) => identifier_text(preid) == id && v.pre.len() > 1
                && v.pre[1] is Numeric ==> v.pre[1]->Numeric_0 < u64::MAX,
            IdentifierView::Numeric(n) => identifier_text(preid) == decimal(n) ==> {
                let i = last_numeric(v.pre);
                0 <= i < v.pre.len() && v.pre[i] is Numeric ==> v.pre[i]->Numeric_0 < u64::MAX
            },
        }
    }
}

/// The identifier under which the pre-release of `v` is continued when none
/// is given: its leading identifier, or `alpha`.
pub open spec fn default_preid(v: VersionView) -> IdentifierView {
    if v.pre.len() > 0 {
        v.pre[0]
    } else {
        IdentifierView::AlphaNumeric("alpha"@)
    }
}

/// The patch bump of `cur_version`.
pub fn inc_patch(cur_version: Version) -> (r: Version)
    requires
        cur_version@.pre.len() == 0 ==> cur_version.patch < u64::MAX,
    ensures
        r@ == patch_bump(cur_version@),
{
    let mut v = cur_version;
    if v.pre.len() > 0 {
        v.pre = Vec::new();
        assert(v@.pre =~= seq![]);
        v
    } else {
        Version::new(v.major, v.minor, v.patch + 1)
    }
}

/// The minor bump of `cur_version`.
pub fn inc_minor(cur_version: Version) -> (r: Version)
    requires
        !(cur_version@.pre.len() > 0 && cur_version.patch == 0) ==> cur_version.minor < u64::MAX,
    ensures
        r@ == minor_bump(cur_version@),
{
    let mut v = cur_version;
    if v.pre.len() > 0 && v.patch == 0 {
        v.pre = Vec::new();
        assert(v@.pre =~= seq![]);
        v
    } else {
        Version::new(v.major, v.minor + 1, 0)
    }
}

/// The major bump of `cur_version`.
pub fn inc_major(cur_version: Version) -> (r: Version)
    requires
        !(cur_version@.pre.len() > 0 && cur_version.patch == 0 && cur_version.minor == 0)
            ==> cur_version.major < u64::MAX,
    ensures
        r@ == major_bump(cur_version@),
{
    let mut v = cur_version;
    if v.pre.len() > 0 && v.patch == 0 && v.minor == 0 {
        v.pre = Vec::new();
        assert(v@.pre =~= seq![]);
        v
    } else {
        Version::new(v.major + 1, 0, 0)
    }
}

/// The pre-release that a pre-bump puts in place of `pre`.
pub fn inc_pre(pre: &Vec<Identifier>, preid: &Option<String>) -> (r: Vec<Identifier>)
    ensures
        identifier_views(r@) == fresh_pre(
            identifier_views(pre@),
            match preid {
                Some(p) => Some(p@),
                None => None,
            },
        ),
{
    let mut out: Vec<Identifier> = Vec::new();
    if pre.len() == 0 {
        let id = match preid {
            Some(p) => p.clone(),
            None => String::from_str("alpha"),
        };
        out.push(Identifier::AlphaNumeric(id));
        out.push(Identifier::Numeric(0));
    } else {
        match &pre[0] {
            Identifier::AlphaNumeric(id) => {
                out.push(Identifier::AlphaNumeric(id.clone()));
                out.push(Identifier::Numeric(0));
            },
            Identifier::Numeric(_) => {
                out.push(Identifier::Numeric(0));
            },
        }
    }
    assert(identifier_views(out@) =~= fresh_pre(
        identifier_views(pre@),
        match preid {
            Some(p) => Some(p@),
            None => None,
        },
    ));
    out
}

proof fn lemma_last_numeric_is(pre: Seq<IdentifierView>, i: int)
    requires
        0 <= i < pre.len(),
        pre[i] is Numeric,
        forall|j: int| i < j < pre.len() ==> !(pre[j] is Numeric),
    ensures
        last_numeric(pre) == i,
    decreases pre.len(),
{
    if i < pre.len() - 1 {
        lemma_last_numeric_is(pre.drop_last(), i);
    }
}

/// `pre` with its last numeric identifier raised by one.
fn raised(pre: &Vec<Identifier>) -> (r: Vec<Identifier>)
    requires
        pre.len() > 0,
        pre@[0] is Numeric,
        ({
            let i = last_numeric(identifier_views(pre@));
            0 <= i < pre.len() && pre@[i]@ is Numeric ==> pre@[i]@->Numeric_0 < u64::MAX
        }),
    ensures
        identifier_views(r@) == raise_last_numeric(identifier_views(pre@)),
{
    let ghost views = identifier_views(pre@);
    let mut i: usize = pre.len() - 1;
    while !pre[i].is_numeric()
        invariant
            i < pre.len(),
            pre@[0] is Numeric,
            views == identifier_views(pre@),
            forall|j: int| i < j < pre.len() ==> !(views[j] is Numeric),
        decreases i,
    {
        assert(views[i as int] == pre@[i as int]@);
        i -= 1;
    }
    proof {
        assert(views[i as int] == pre@[i as int]@);
        lemma_last_numeric_is(views, i as int);
    }
    let mut out = duplicate_identifiers(pre);
    let n: u64 = match &pre[i] {
        Identifier::Numeric(n) => *n,
        Identifier::AlphaNumeric(_) => 0,
    };
    out.set(i, Identifier::Numeric(n + 1));
    assert(identifier_views(out@) =~= views.update(i as int, IdentifierView::Numeric(n as nat + 1)));
    out
}

/// The continuation of the pre-release of `cur_version` under `preid`.
pub fn inc_preid(cur_version: &Version, preid: Identifier) -> (r: Version)
    requires
        can_continue(cur_version@, preid@),
    ensures
        r@ == continued(cur_version@, preid@),
{
    let mut pre: Vec<Identifier> = Vec::new();
    if cur_version.pre.len() == 0 {
        pre.push(preid);
        pre.push(Identifier::Numeric(0));
        let r = Version {
            major: cur_version.major,
            minor: cur_version.minor,
            patch: cur_version.patch + 1,
            pre,
            build: Vec::new(),
        };
        assert(r@.pre =~= seq![preid@, IdentifierView::Numeric(0)]);
        assert(r@.build =~= seq![]);
        return r;
    }
    assert(cur_version@.pre[0] == cur_version.pre@[0]@);
    let text = preid.to_string();
    match &cur_version.pre[0] {
        Identifier::AlphaNumeric(id) => {
            let mut counter: u64 = 0;
            if text == *id && cur_version.pre.len() > 1 {
                assert(cur_version@.pre[1] == cur_version.pre@[1]@);
                if let Identifier::Numeric(n) = &cur_version.pre[1] {
                    counter = *n + 1;
                }
            }
            let ghost p = preid@;
            pre.push(preid);
            pre.push(Identifier::Numeric(counter));
            assert(identifier_views(pre@) =~= seq![p, IdentifierView::Numeric(counter as nat)]);
        },
        Identifier::Numeric(n) => {
            let mut digits = String::new();
            crate::version::push_decimal(&mut digits, *n);
            assert(digits@ =~= decimal(*n as nat));
            if text == digits {
                pre = raised(&cur_version.pre);
            } else {
                let ghost p = preid@;
                pre.push(preid);
                pre.push(Identifier::Numeric(0));
                assert(identifier_views(pre@) =~= seq![p, IdentifierView::Numeric(0)]);
            }
        },
    }
    Version {
        major: cur_version.major,
        minor: cur_version.minor,
        patch: cur_version.patch,
        pre,
        build: duplicate_identifiers(&cur_version.build),
    }
}

/// The identifier under which the pre-release of `cur_version` is continued
/// when none is given, and the version that this gives.
pub fn custom_pre(cur_version: &Version) -> (r: (Identifier, Version))
    requires
        can_continue(cur_version@, default_preid(cur_version@)),
    ensures
        r.0@ == default_preid(cur_version@),
        r.1@ == continued(cur_version@, default_preid(cur_version@)),
{
    let id = if cur_version.pre.len() > 0 {
        assert(cur_version@.pre[0] == cur_version.pre@[0]@);
        cur_version.pre[0].duplicate()
    } else {
        Identifier::AlphaNumeric(String::from_str("alpha"))
    };
    let v = inc_preid(cur_version, id.duplicate());
    (id, v)
}

/// The continuation of a pre-release depends on the values of the version
/// and of the identifier alone: two calls on equal values give equal
/// versions.
pub proof fn lemma_continuation_is_a_function(
    v: Version,
    w: Version,
    p: Identifier,
    q: Identifier,
    r: Version,
    s: Version,
)
    requires
        v@ == w@,
        p@ == q@,
        call_ensures(inc_preid, (&v, p), r),
        call_ensures(inc_preid, (&w, q), s),
    ensures
        r@ == s@,
{
}

/// A fresh pre-release depends on the values of the old one and of the
/// identifier alone: two calls on equal values give equal identifiers.
pub proof fn lemma_fresh_pre_is_a_function(
    a: Vec<Identifier>,
    b: Vec<Identifier>,
    p: Option<String>,
    q: Option<String>,
    r: Vec<Identifier>,
    s: Vec<Identifier>,
)
    requires
        identifier_views(a@) == identifier_views(b@),
        p is Some <==> q is Some,
        p is Some ==> p->Some_0@ == q->Some_0@,
        call_ensures(inc_pre, (&a, &p), r),
        call_ensures(inc_pre, (&b, &q), s),
    ensures
        identifier_views(r@) == identifier_views(s@),
{
}

} // verus!
