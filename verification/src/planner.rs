//! Deciding which packages get a new version, and which one.
//!
//! Planning starts from the packages that changed. Packages that share the
//! common version get one new version between them; independent packages
//! are decided one by one. A package whose requirement on a planned package
//! no longer admits the planned version is drawn into the plan in turn, until
//! no such package is left.

use crate::error::{Error, Result};
use crate::package::{dependency_views, Dependency, DependencyView, Package, PackageView};
use crate::version::{precedes, requirement_admits, requirement_reads, Version, VersionView};
use vstd::prelude::*;

verus! {

/// One package in the plan: where it stands in the workspace, its name, the
/// version it gets and the version it had.
#[derive(Debug)]
pub struct Planned {
    pub index: usize,
    pub name: String,
    pub version: Version,
    pub previous: Version,
}

/// The mathematical value of a [`Planned`].
pub struct PlannedView {
    pub index: int,
    pub name: Seq<char>,
    pub version: VersionView,
    pub previous: VersionView,
}

impl View for Planned {
    type V = PlannedView;

    open spec fn view(&self) -> PlannedView {
        PlannedView {
            index: self.index as int,
            name: self.name@,
            version: self.version@,
            previous: self.previous@,
        }
    }
}

/// The values of a list of planned packages.
pub open spec fn planned_views(plan: Seq<Planned>) -> Seq<PlannedView> {
    plan.map_values(|p: Planned| p@)
}

/// The values of a list of packages.
pub open spec fn views(pkgs: Seq<Package>) -> Seq<PackageView> {
    pkgs.map_values(|p: Package| p@)
}

/// The version that the plan gives to the package called `name`: that of
/// the first entry of that name, if there is one.
pub open spec fn planned_version(plan: Seq<PlannedView>, name: Seq<char>) -> Option<VersionView>
    decreases plan.len(),
{
    if plan.len() == 0 {
        None
    } else if plan[0].name == name {
        Some(plan[0].version)
    } else {
        planned_version(plan.drop_first(), name)
    }
}

/// Whether the dependency asks for something that the plan no longer gives:
/// the plan holds a version for the package it names, and its requirement
/// does not admit that version.
pub open spec fn broken(d: DependencyView, plan: Seq<PlannedView>) -> bool {
    match planned_version(plan, d.name) {
        Some(v) => !requirement_admits(d.req, v),
        None => false,
    }
}

/// Whether one of the dependencies is broken by the plan.
pub open spec fn violated(deps: Seq<DependencyView>, plan: Seq<PlannedView>) -> bool {
    exists|k: int| 0 <= k < deps.len() && broken(#[trigger] deps[k], plan)
}

/// Whether the requirement of every dependency of every package can be read.
pub open spec fn requirements_read(pkgs: Seq<PackageView>) -> bool {
    forall|i: int, k: int|
        0 <= i < pkgs.len() && 0 <= k < pkgs[i].dependencies.len() ==> requirement_reads(
            #[trigger] pkgs[i].dependencies[k].req,
        )
}

/// Whether the plan holds an entry for package `i`.
pub open spec fn is_planned(plan: Seq<PlannedView>, i: int) -> bool {
    exists|k: int| 0 <= k < plan.len() && #[trigger] plan[k].index == i
}

/// Whether each entry of the plan names a package of the workspace with its
/// present version, and every entry for a package on the common version
/// holds the version `common`.
pub open spec fn consistent(
    pkgs: Seq<PackageView>,
    plan: Seq<PlannedView>,
    common: Option<VersionView>,
) -> bool {
    forall|k: int|
        0 <= k < plan.len() ==> {
            let e = #[trigger] plan[k];
            &&& 0 <= e.index < pkgs.len()
            &&& e.name == pkgs[e.index].name
            &&& e.previous == pkgs[e.index].version
            &&& !pkgs[e.index].independent ==> common == Some(e.version)
        }
}

/// The value of an optional version.
pub open spec fn optional_view(v: Option<Version>) -> Option<VersionView> {
    match v {
        Some(x) => Some(x@),
        None => None,
    }
}

/// The version that the plan holds for the package called `name`.
pub fn lookup<'a>(plan: &'a Vec<Planned>, name: &String) -> (r: Option<&'a Version>)
    ensures
        match r {
            Some(v) => planned_version(planned_views(plan@), name@) == Some(v@),
            None => planned_version(planned_views(plan@), name@).is_none(),
        },
{
    let ghost all = planned_views(plan@);
    let mut k: usize = 0;
    proof {
        assert(all.skip(0) =~= all);
    }
    while k < plan.len()
        invariant
            k <= plan.len(),
            all == planned_views(plan@),
            planned_version(all, name@) == planned_version(all.skip(k as int), name@),
        decreases plan.len() - k,
    {
        proof {
            assert(all.skip(k as int).drop_first() =~= all.skip(k + 1));
            assert(all.skip(k as int)[0] == plan@[k as int]@);
        }
        if plan[k].name == *name {
            return Some(&plan[k].version);
        }
        k += 1;
    }
    None
}

/// Whether the package must get a new version because of the plan: one of
/// its dependencies names a planned package and does not admit the planned
/// version.
pub fn needs_new_version(pkg: &Package, plan: &Vec<Planned>) -> (r: bool)
    requires
        forall|k: int|
            0 <= k < pkg@.dependencies.len() ==> requirement_reads(
                #[trigger] pkg@.dependencies[k].req,
            ),
    ensures
        r == violated(pkg@.dependencies, planned_views(plan@)),
{
    let ghost deps = pkg@.dependencies;
    let ghost all = planned_views(plan@);
    let mut k: usize = 0;
    while k < pkg.dependencies.len()
        invariant
            k <= pkg.dependencies.len(),
            deps == pkg@.dependencies,
            all == planned_views(plan@),
            forall|m: int| 0 <= m < deps.len() ==> requirement_reads(#[trigger] deps[m].req),
            forall|m: int| 0 <= m < k ==> !broken(#[trigger] deps[m], all),
        decreases pkg.dependencies.len() - k,
    {
        let d = &pkg.dependencies[k];
        assert(deps[k as int] == d@);
        if let Some(v) = lookup(plan, &d.name) {
            match v.meets(d.req.as_str()) {
                Ok(admitted) => {
                    if !admitted {
                        assert(broken(deps[k as int], all));
                        return true;
                    }
                },
                Err(_) => {
                    assert(requirement_reads(deps[k as int].req));
                },
            }
        }
        k += 1;
    }
    false
}

/// Checks that every requirement of every package can be read.
pub fn check_requirements(pkgs: &Vec<Package>) -> (r: Result<()>)
    ensures
        match r {
            Ok(_) => requirements_read(views(pkgs@)),
            Err(e) => (e is Semver || e is NumberTooLarge) && !requirements_read(views(pkgs@)),
        },
{
    let probe = Version::new(0, 0, 0);
    let ghost all = views(pkgs@);
    let mut i: usize = 0;
    while i < pkgs.len()
        invariant
            i <= pkgs.len(),
            all == views(pkgs@),
            forall|a: int, k: int|
                0 <= a < i && 0 <= k < all[a].dependencies.len() ==> requirement_reads(
                    #[trigger] all[a].dependencies[k].req,
                ),
        decreases pkgs.len() - i,
    {
        let ghost deps = all[i as int].dependencies;
        assert(all[i as int] == pkgs@[i as int]@);
        let mut k: usize = 0;
        while k < pkgs[i].dependencies.len()
            invariant
                i < pkgs.len(),
                k <= pkgs[i as int].dependencies.len(),
                all == views(pkgs@),
                deps == all[i as int].dependencies,
                deps == pkgs@[i as int]@.dependencies,
                forall|m: int| 0 <= m < k ==> requirement_reads(#[trigger] deps[m].req),
            decreases pkgs[i as int].dependencies.len() - k,
        {
            let d = &pkgs[i].dependencies[k];
            assert(deps[k as int] == d@);
            match probe.meets(d.req.as_str()) {
                Ok(_) => {},
                Err(e) => {
                    assert(!requirement_reads(all[i as int].dependencies[k as int].req));
                    return Err(e);
                },
            }
            k += 1;
        }
        i += 1;
    }
    Ok(())
}

/// Whether every index in `list` names a package.
pub open spec fn in_range(list: Seq<usize>, n: int) -> bool {
    forall|k: int| 0 <= k < list.len() ==> #[trigger] list[k] < n
}

/// Whether package `m` can stand for the packages of `pending` that share
/// the common version: it is one of them, and none of them has a version of
/// higher precedence.
pub open spec fn is_reference(pkgs: Seq<PackageView>, pending: Seq<usize>, m: int) -> bool {
    &&& 0 <= m < pkgs.len()
    &&& pending.contains(m as usize)
    &&& !pkgs[m].independent
    &&& forall|k: int|
        0 <= k < pending.len() && !pkgs[#[trigger] pending[k] as int].independent ==> !precedes(
            pkgs[m].version,
            pkgs[pending[k] as int].version,
        )
}

/// Whether `pending` holds a package on the common version.
pub open spec fn has_common(pkgs: Seq<PackageView>, pending: Seq<usize>) -> bool {
    exists|k: int| 0 <= k < pending.len() && !pkgs[#[trigger] pending[k] as int].independent
}

/// The package of `pending` whose version stands for those on the common
/// version: the last one among those of highest precedence.
pub fn reference(pkgs: &Vec<Package>, pending: &Vec<usize>) -> (r: Option<usize>)
    requires
        in_range(pending@, pkgs@.len() as int),
    ensures
        match r {
            Some(m) => is_reference(views(pkgs@), pending@, m as int),
            None => !has_common(views(pkgs@), pending@),
        },
{
    let ghost all = views(pkgs@);
    let mut best: Option<usize> = None;
    let mut k: usize = 0;
    while k < pending.len()
        invariant
            k <= pending.len(),
            all == views(pkgs@),
            in_range(pending@, pkgs@.len() as int),
            match best {
                Some(m) => is_reference(all, pending@.take(k as int), m as int),
                None => !has_common(all, pending@.take(k as int)),
            },
        decreases pending.len() - k,
    {
        let i = pending[k];
        let ghost seen = pending@.take(k as int);
        let ghost next = pending@.take(k + 1);
        proof {
            assert(all[i as int] == pkgs@[i as int]@);
            assert(next =~= seen.push(i));
            assert(next[k as int] == i);
            assert forall|a: int| 0 <= a < seen.len() implies seen[a] == next[a] by {}
        }
        if !crate::package::is_independent(&pkgs[i]) {
            let replace = match best {
                Some(m) => {
                    assert(all[m as int] == pkgs@[m as int]@);
                    !pkgs[i].version.less_than(&pkgs[m].version)
                },
                None => true,
            };
            if replace {
                proof {
                    assert forall|a: int|
                        0 <= a < next.len() && !all[#[trigger] next[a] as int].independent implies !precedes(
                        all[i as int].version,
                        all[next[a] as int].version,
                    ) by {
                        if a < seen.len() {
                            assert(seen[a] == next[a]);
                            match best {
                                Some(m) => {
                                    crate::version::lemma_precedence_ranks(
                                        all[i as int].version,
                                        all[m as int].version,
                                        all[next[a] as int].version,
                                    );
                                },
                                None => {
                                    assert(has_common(all, seen));
                                },
                            }
                        } else {
                            if precedes(all[i as int].version, all[i as int].version) {
                                crate::version::lemma_precedence_one_way(
                                    all[i as int].version,
                                    all[i as int].version,
                                );
                            }
                        }
                    }
                }
                best = Some(i);
            } else {
                proof {
                    let m = best.unwrap();
                    let j = choose|j: int| 0 <= j < seen.len() && seen[j] == m;
                    assert(next[j] == m);
                    crate::version::lemma_precedence_one_way(
                        all[i as int].version,
                        all[m as int].version,
                    );
                }
            }
        } else {
            proof {
                match best {
                    Some(m) => {
                        let j = choose|j: int| 0 <= j < seen.len() && seen[j] == m;
                        assert(next[j] == m);
                    },
                    None => {
                        if has_common(all, next) {
                            let j = choose|j: int|
                                0 <= j < next.len() && !all[#[trigger] next[j] as int].independent;
                            assert(seen[j] == next[j]);
                        }
                    },
                }
            }
        }
        k += 1;
    }
    assert(pending@.take(pending@.len() as int) =~= pending@);
    best
}

/// Whether the entries of `plan` from `from` on are for packages of
/// `pending`.
pub open spec fn drawn_from(plan: Seq<Planned>, from: int, pending: Seq<usize>) -> bool {
    forall|k: int| from <= k < plan.len() ==> pending.contains(#[trigger] plan[k].index)
}

/// Whether the entries of `skipped` from `from` on are packages of
/// `pending`.
pub open spec fn passed_from(skipped: Seq<usize>, from: int, pending: Seq<usize>) -> bool {
    forall|k: int| from <= k < skipped.len() ==> pending.contains(#[trigger] skipped[k])
}

/// Whether every package among the first `upto` of `pending` that is of the
/// given kind is in the plan or was passed over.
pub open spec fn settled(
    pkgs: Seq<PackageView>,
    pending: Seq<usize>,
    upto: int,
    independent: bool,
    plan: Seq<PlannedView>,
    skipped: Seq<usize>,
) -> bool {
    forall|k: int|
        0 <= k < upto && pkgs[#[trigger] pending[k] as int].independent == independent
            ==> is_planned(plan, pending[k] as int) || skipped.contains(pending[k])
}

/// Whether each independent package that the plan holds from `from` on got
/// its version from `decide`, asked with the package's name and version.
pub open spec fn decided<F: Fn(&String, &Version, bool) -> Option<Version>>(
    pkgs: Seq<Package>,
    plan: Seq<Planned>,
    from: int,
    decide: &F,
) -> bool {
    forall|k: int|
        from <= k < plan.len() && 0 <= (#[trigger] plan[k]).index < pkgs.len()
            && pkgs[plan[k].index as int]@.independent ==> call_ensures(
            decide,
            (&pkgs[plan[k].index as int].name, &pkgs[plan[k].index as int].version, true),
            Some(plan[k].version),
        )
}

/// Whether `decide` gave no version when asked with the name and the
/// version of some package on the common version.
pub open spec fn declined_common<F: Fn(&String, &Version, bool) -> Option<Version>>(
    pkgs: Seq<Package>,
    decide: &F,
) -> bool {
    exists|m: int|
        #![trigger pkgs[m]]
        0 <= m < pkgs.len() && !pkgs[m]@.independent && call_ensures(
            decide,
            (&pkgs[m].name, &pkgs[m].version, false),
            None::<Version>,
        )
}

/// Whether each package that `skipped` holds from `from` on was passed over
/// on the word of `decide`: an independent package because `decide` gave no
/// version for it, a package on the common version because `decide` gave no
/// common version.
pub open spec fn refused<F: Fn(&String, &Version, bool) -> Option<Version>>(
    pkgs: Seq<Package>,
    skipped: Seq<usize>,
    from: int,
    decide: &F,
) -> bool {
    forall|k: int|
        0 <= from <= k < skipped.len() && (#[trigger] skipped[k]) < pkgs.len() ==> if pkgs[skipped[k] as int]@
            .independent {
            call_ensures(
                decide,
                (&pkgs[skipped[k] as int].name, &pkgs[skipped[k] as int].version, true),
                None::<Version>,
            )
        } else {
            declined_common(pkgs, decide)
        }
}

/// Whether no package has two entries in the plan.
pub open spec fn once_each(plan: Seq<PlannedView>) -> bool {
    forall|a: int, b: int|
        0 <= a < b < plan.len() ==> (#[trigger] plan[a]).index != (#[trigger] plan[b]).index
}

/// Whether `pending` names no package twice and none that the plan holds,
/// and the plan holds no package twice.
pub open spec fn fresh(plan: Seq<PlannedView>, pending: Seq<usize>) -> bool {
    &&& once_each(plan)
    &&& pending.no_duplicates()
    &&& forall|k: int| 0 <= k < pending.len() ==> !is_planned(plan, #[trigger] pending[k] as int)
}

/// Whether `index` is among the first `upto` of `pending`.
spec fn among(pending: Seq<usize>, upto: int, index: usize) -> bool {
    exists|j: int| 0 <= j < upto && j < pending.len() && #[trigger] pending[j] == index
}

/// Whether the entries of `plan` from `from` on are for packages among the
/// first `upto` of `pending`.
spec fn taken_before(plan: Seq<Planned>, from: int, pending: Seq<usize>, upto: int) -> bool {
    forall|a: int| 0 <= from <= a < plan.len() ==> among(pending, upto, (#[trigger] plan[a]).index)
}

proof fn lemma_taken_later(plan: Seq<Planned>, from: int, pending: Seq<usize>, upto: int)
    requires
        taken_before(plan, from, pending, upto),
    ensures
        taken_before(plan, from, pending, upto + 1),
{
    assert forall|a: int| 0 <= from <= a < plan.len() implies among(
        pending,
        upto + 1,
        (#[trigger] plan[a]).index,
    ) by {
        assert(among(pending, upto, plan[a].index));
        let j = choose|j: int|
            0 <= j < upto && j < pending.len() && #[trigger] pending[j] == plan[a].index;
        assert(pending[j] == plan[a].index);
    }
}

proof fn lemma_fresh_entry(
    plan: Seq<Planned>,
    from: int,
    pending: Seq<usize>,
    k: int,
    e: Planned,
)
    requires
        once_each(planned_views(plan)),
        0 <= from <= plan.len(),
        0 <= k < pending.len(),
        pending.no_duplicates(),
        e.index == pending[k],
        taken_before(plan, from, pending, k),
        forall|a: int| 0 <= a < from ==> (#[trigger] plan[a]).index != pending[k],
    ensures
        once_each(planned_views(plan.push(e))),
        taken_before(plan.push(e), from, pending, k + 1),
{
    let next = plan.push(e);
    lemma_plan_grows(plan, e);
    assert forall|a: int, b: int| 0 <= a < b < planned_views(next).len() implies (
    #[trigger] planned_views(next)[a]).index != (#[trigger] planned_views(next)[b]).index by {
        if b < plan.len() {
            assert(planned_views(next)[a] == planned_views(plan)[a]);
            assert(planned_views(next)[b] == planned_views(plan)[b]);
        } else {
            assert(planned_views(next)[a] == plan[a]@);
            assert(planned_views(next)[b] == e@);
            if a >= from {
                assert(among(pending, k, plan[a].index));
                let j = choose|j: int|
                    0 <= j < k && j < pending.len() && #[trigger] pending[j] == plan[a].index;
                assert(pending[j] != pending[k]);
            }
        }
    }
    assert forall|a: int| 0 <= from <= a < next.len() implies among(
        pending,
        k + 1,
        (#[trigger] next[a]).index,
    ) by {
        if a < plan.len() {
            assert(next[a] == plan[a]);
            assert(among(pending, k, plan[a].index));
            let j = choose|j: int|
                0 <= j < k && j < pending.len() && #[trigger] pending[j] == plan[a].index;
            assert(pending[j] == next[a].index);
        } else {
            assert(pending[k] == next[a].index);
        }
    }
}

proof fn lemma_plan_grows(plan: Seq<Planned>, e: Planned)
    ensures
        planned_views(plan.push(e)) == planned_views(plan).push(e@),
{
    assert(planned_views(plan.push(e)) =~= planned_views(plan).push(e@));
}

/// One round of decisions. The packages of `pending` that share the common
/// version get the version in `new_version`; where none is chosen yet,
/// `decide` is asked once, with the package that [`reference`] names. Each
/// independent package of `pending` is put to `decide` by itself. A package
/// for which the answer is `None` goes to `skipped`, the others to
/// `new_versions`.
pub fn get_new_versions<F: Fn(&String, &Version, bool) -> Option<Version>>(
    pkgs: &Vec<Package>,
    pending: &Vec<usize>,
    decide: &F,
    new_version: &mut Option<Version>,
    new_versions: &mut Vec<Planned>,
    skipped: &mut Vec<usize>,
)
    requires
        in_range(pending@, pkgs@.len() as int),
        forall|n: &String, v: &Version, i: bool| call_requires(decide, (n, v, i)),
        consistent(
            views(pkgs@),
            planned_views(old(new_versions)@),
            optional_view(*old(new_version)),
        ),
    ensures
        consistent(
            views(pkgs@),
            planned_views(final(new_versions)@),
            optional_view(*final(new_version)),
        ),
        old(new_versions)@.is_prefix_of(final(new_versions)@),
        old(skipped)@.is_prefix_of(final(skipped)@),
        drawn_from(final(new_versions)@, old(new_versions)@.len() as int, pending@),
        passed_from(final(skipped)@, old(skipped)@.len() as int, pending@),
        settled(
            views(pkgs@),
            pending@,
            pending@.len() as int,
            false,
            planned_views(final(new_versions)@),
            final(skipped)@,
        ),
        settled(
            views(pkgs@),
            pending@,
            pending@.len() as int,
            true,
            planned_views(final(new_versions)@),
            final(skipped)@,
        ),
        decided(pkgs@, final(new_versions)@, old(new_versions)@.len() as int, decide),
        refused(pkgs@, final(skipped)@, old(skipped)@.len() as int, decide),
        fresh(planned_views(old(new_versions)@), pending@) ==> once_each(
            planned_views(final(new_versions)@),
        ),
        *old(new_version) is Some || !has_common(views(pkgs@), pending@) ==> *final(new_version)
            == *old(new_version),
        *old(new_version) is None && has_common(views(pkgs@), pending@) ==> exists|m: int|
            #![trigger is_reference(views(pkgs@), pending@, m)]
            is_reference(views(pkgs@), pending@, m) && call_ensures(
                decide,
                (&pkgs@[m].name, &pkgs@[m].version, false),
                *final(new_version),
            ),
{
    let ghost all = views(pkgs@);
    let ghost plan0 = new_versions@;
    let ghost skipped0 = skipped@;
    match reference(pkgs, pending) {
        Some(m) => {
            assert(has_common(all, pending@)) by {
                let j = choose|j: int| 0 <= j < pending@.len() && pending@[j] == m;
                assert(!all[pending@[j] as int].independent);
            }
            if new_version.is_none() {
                let answer = decide(&pkgs[m].name, &pkgs[m].version, false);
                *new_version = answer;
                assert(is_reference(all, pending@, m as int));
                proof {
                    if *new_version is None {
                        assert(all[m as int] == pkgs@[m as int]@);
                        assert(declined_common(pkgs@, decide));
                    }
                }
                assert(consistent(all, planned_views(plan0), optional_view(*new_version))) by {
                    assert forall|k: int| 0 <= k < planned_views(plan0).len() implies {
                        let e = #[trigger] planned_views(plan0)[k];
                        !all[e.index].independent ==> optional_view(*new_version) == Some(
                            e.version,
                        )
                    } by {}
                }
            }
        },
        None => {},
    }
    let ghost chosen = *new_version;
    assert(chosen is None && has_common(all, pending@) ==> declined_common(pkgs@, decide));
    let mut k: usize = 0;
    while k < pending.len()
        invariant
            k <= pending.len(),
            all == views(pkgs@),
            in_range(pending@, pkgs@.len() as int),
            *new_version == chosen,
            chosen is None && has_common(all, pending@) ==> declined_common(pkgs@, decide),
            refused(pkgs@, skipped@, skipped0.len() as int, decide),
            consistent(all, planned_views(new_versions@), optional_view(chosen)),
            plan0.is_prefix_of(new_versions@),
            skipped0.is_prefix_of(skipped@),
            drawn_from(new_versions@, plan0.len() as int, pending@),
            passed_from(skipped@, skipped0.len() as int, pending@),
            settled(all, pending@, k as int, false, planned_views(new_versions@), skipped@),
            forall|a: int|
                plan0.len() <= a < new_versions@.len() ==> !all[(
                #[trigger] new_versions@[a]).index as int].independent,
            fresh(planned_views(plan0), pending@) ==> once_each(planned_views(new_versions@))
                && taken_before(new_versions@, plan0.len() as int, pending@, k as int),
        decreases pending.len() - k,
    {
        let i = pending[k];
        assert(all[i as int] == pkgs@[i as int]@);
        proof {
            if fresh(planned_views(plan0), pending@) {
                lemma_taken_later(new_versions@, plan0.len() as int, pending@, k as int);
            }
        }
        if !crate::package::is_independent(&pkgs[i]) {
            let ghost plan = new_versions@;
            let ghost passed = skipped@;
            match &*new_version {
                Some(v) => {
                    let e = Planned {
                        index: i,
                        name: pkgs[i].name.clone(),
                        version: v.duplicate(),
                        previous: pkgs[i].version.duplicate(),
                    };
                    proof {
                        lemma_plan_grows(plan, e);
                        if fresh(planned_views(plan0), pending@) {
                            assert forall|a: int| 0 <= a < plan0.len() implies (
                            #[trigger] plan[a]).index != pending@[k as int] by {
                                assert(plan[a] == plan0[a]);
                                assert(planned_views(plan0)[a].index == plan0[a].index);
                                assert(!is_planned(planned_views(plan0), pending@[k as int] as int));
                            }
                            lemma_fresh_entry(plan, plan0.len() as int, pending@, k as int, e);
                        }
                    }
                    new_versions.push(e);
                    proof {
                        lemma_added(all, pending@, k as int, false, plan, e, passed, chosen);
                    }
                },
                None => {
                    skipped.push(i);
                    proof {
                        lemma_passed(all, pending@, k as int, false, planned_views(plan), passed);
                        assert(has_common(all, pending@)) by {
                            assert(!all[pending@[k as int] as int].independent);
                        }
                        assert(refused(pkgs@, skipped@, skipped0.len() as int, decide)) by {
                            assert forall|n: int|
                                0 <= skipped0.len() <= n < skipped@.len() && (
                                #[trigger] skipped@[n]) < pkgs@.len() implies if pkgs@[skipped@[n] as int]@
                                .independent {
                                call_ensures(
                                    decide,
                                    (
                                        &pkgs@[skipped@[n] as int].name,
                                        &pkgs@[skipped@[n] as int].version,
                                        true,
                                    ),
                                    None::<Version>,
                                )
                            } else {
                                declined_common(pkgs@, decide)
                            } by {
                                if n < passed.len() {
                                    assert(skipped@[n] == passed[n]);
                                }
                            }
                        }
                    }
                },
            }
        } else {
            assert(settled(all, pending@, k + 1, false, planned_views(new_versions@), skipped@));
        }
        k += 1;
    }
    let ghost plan1 = new_versions@;
    k = 0;
    while k < pending.len()
        invariant
            k <= pending.len(),
            all == views(pkgs@),
            in_range(pending@, pkgs@.len() as int),
            forall|n: &String, v: &Version, i: bool| call_requires(decide, (n, v, i)),
            *new_version == chosen,
            consistent(all, planned_views(new_versions@), optional_view(chosen)),
            plan0.is_prefix_of(new_versions@),
            plan1.is_prefix_of(new_versions@),
            plan0.len() <= plan1.len(),
            skipped0.is_prefix_of(skipped@),
            drawn_from(new_versions@, plan0.len() as int, pending@),
            passed_from(skipped@, skipped0.len() as int, pending@),
            settled(
                all,
                pending@,
                pending@.len() as int,
                false,
                planned_views(new_versions@),
                skipped@,
            ),
            settled(all, pending@, k as int, true, planned_views(new_versions@), skipped@),
            forall|a: int|
                plan0.len() <= a < plan1.len() ==> !all[(
                #[trigger] new_versions@[a]).index as int].independent,
            decided(pkgs@, new_versions@, plan1.len() as int, decide),
            refused(pkgs@, skipped@, skipped0.len() as int, decide),
            fresh(planned_views(plan0), pending@) ==> once_each(planned_views(new_versions@))
                && taken_before(new_versions@, plan1.len() as int, pending@, k as int),
        decreases pending.len() - k,
    {
        let i = pending[k];
        assert(all[i as int] == pkgs@[i as int]@);
        proof {
            if fresh(planned_views(plan0), pending@) {
                lemma_taken_later(new_versions@, plan1.len() as int, pending@, k as int);
            }
        }
        if crate::package::is_independent(&pkgs[i]) {
            let ghost plan = new_versions@;
            let ghost passed = skipped@;
            match decide(&pkgs[i].name, &pkgs[i].version, true) {
                Some(v) => {
                    let e = Planned {
                        index: i,
                        name: pkgs[i].name.clone(),
                        version: v,
                        previous: pkgs[i].version.duplicate(),
                    };
                    proof {
                        lemma_plan_grows(plan, e);
                        if fresh(planned_views(plan0), pending@) {
                            assert forall|a: int| 0 <= a < plan1.len() implies (
                            #[trigger] plan[a]).index != pending@[k as int] by {
                                if a < plan0.len() {
                                    assert(plan[a] == plan0[a]);
                                    assert(planned_views(plan0)[a].index == plan0[a].index);
                                    assert(!is_planned(
                                        planned_views(plan0),
                                        pending@[k as int] as int,
                                    ));
                                } else {
                                    assert(!all[plan[a].index as int].independent);
                                }
                            }
                            lemma_fresh_entry(plan, plan1.len() as int, pending@, k as int, e);
                        }
                    }
                    new_versions.push(e);
                    proof {
                        lemma_added(all, pending@, k as int, true, plan, e, passed, chosen);
                        lemma_added_keeps(
                            all,
                            pending@,
                            pending@.len() as int,
                            false,
                            planned_views(plan),
                            e@,
                            passed,
                        );
                        assert forall|a: int|
                            plan0.len() <= a < plan1.len() implies !all[(
                        #[trigger] new_versions@[a]).index as int].independent by {
                            assert(new_versions@[a] == plan[a]);
                        }
                        assert(decided(pkgs@, new_versions@, plan1.len() as int, decide)) by {
                            assert forall|a: int|
                                plan1.len() <= a < new_versions@.len() && 0 <= (
                                #[trigger] new_versions@[a]).index < pkgs@.len()
                                    && pkgs@[new_versions@[a].index as int]@.independent implies call_ensures(
                                decide,
                                (
                                    &pkgs@[new_versions@[a].index as int].name,
                                    &pkgs@[new_versions@[a].index as int].version,
                                    true,
                                ),
                                Some(new_versions@[a].version),
                            ) by {
                                if a < plan.len() {
                                    assert(new_versions@[a] == plan[a]);
                                }
                            }
                        }
                    }
                },
                None => {
                    skipped.push(i);
                    proof {
                        assert(refused(pkgs@, skipped@, skipped0.len() as int, decide)) by {
                            assert forall|n: int|
                                0 <= skipped0.len() <= n < skipped@.len() && (
                                #[trigger] skipped@[n]) < pkgs@.len() implies if pkgs@[skipped@[n] as int]@
                                .independent {
                                call_ensures(
                                    decide,
                                    (
                                        &pkgs@[skipped@[n] as int].name,
                                        &pkgs@[skipped@[n] as int].version,
                                        true,
                                    ),
                                    None::<Version>,
                                )
                            } else {
                                declined_common(pkgs@, decide)
                            } by {
                                if n < passed.len() {
                                    assert(skipped@[n] == passed[n]);
                                }
                            }
                        }
                        lemma_passed(all, pending@, k as int, true, planned_views(plan), passed);
                        lemma_passed_keeps(
                            all,
                            pending@,
                            pending@.len() as int,
                            false,
                            planned_views(plan),
                            passed,
                            i,
                        );
                    }
                },
            }
        } else {
            assert(settled(all, pending@, k + 1, true, planned_views(new_versions@), skipped@));
        }
        k += 1;
    }
    proof {
        assert(decided(pkgs@, new_versions@, plan0.len() as int, decide)) by {
            assert forall|a: int|
                plan0.len() <= a < new_versions@.len() && 0 <= (#[trigger] new_versions@[a]).index
                    < pkgs@.len() && pkgs@[new_versions@[a].index as int]@.independent implies call_ensures(
                decide,
                (
                    &pkgs@[new_versions@[a].index as int].name,
                    &pkgs@[new_versions@[a].index as int].version,
                    true,
                ),
                Some(new_versions@[a].version),
            ) by {
                if a < plan1.len() {
                    assert(all[new_versions@[a].index as int] == pkgs@[new_versions@[a].index as int]@);
                }
            }
        }
    }
}

proof fn lemma_added_keeps(
    pkgs: Seq<PackageView>,
    pending: Seq<usize>,
    upto: int,
    independent: bool,
    plan: Seq<PlannedView>,
    e: PlannedView,
    skipped: Seq<usize>,
)
    requires
        0 <= upto <= pending.len(),
        settled(pkgs, pending, upto, independent, plan, skipped),
    ensures
        settled(pkgs, pending, upto, independent, plan.push(e), skipped),
{
    let next = plan.push(e);
    assert forall|k: int|
        0 <= k < upto && pkgs[#[trigger] pending[k] as int].independent
            == independent implies is_planned(next, pending[k] as int) || skipped.contains(
        pending[k],
    ) by {
        if is_planned(plan, pending[k] as int) {
            let a = choose|a: int| 0 <= a < plan.len() && #[trigger] plan[a].index == pending[k];
            assert(next[a].index == pending[k]);
        }
    }
}

proof fn lemma_passed_keeps(
    pkgs: Seq<PackageView>,
    pending: Seq<usize>,
    upto: int,
    independent: bool,
    plan: Seq<PlannedView>,
    skipped: Seq<usize>,
    i: usize,
)
    requires
        0 <= upto <= pending.len(),
        settled(pkgs, pending, upto, independent, plan, skipped),
    ensures
        settled(pkgs, pending, upto, independent, plan, skipped.push(i)),
{
    let next = skipped.push(i);
    assert forall|k: int|
        0 <= k < upto && pkgs[#[trigger] pending[k] as int].independent
            == independent implies is_planned(plan, pending[k] as int) || next.contains(
        pending[k],
    ) by {
        if skipped.contains(pending[k]) {
            let a = choose|a: int| 0 <= a < skipped.len() && skipped[a] == pending[k];
            assert(next[a] == pending[k]);
        }
    }
}

proof fn lemma_added(
    pkgs: Seq<PackageView>,
    pending: Seq<usize>,
    k: int,
    independent: bool,
    plan: Seq<Planned>,
    e: Planned,
    skipped: Seq<usize>,
    common: Option<Version>,
)
    requires
        0 <= k < pending.len(),
        pending[k] < pkgs.len(),
        e.index == pending[k],
        e.name@ == pkgs[e.index as int].name,
        e.previous@ == pkgs[e.index as int].version,
        !pkgs[e.index as int].independent ==> optional_view(common) == Some(e.version@),
        consistent(pkgs, planned_views(plan), optional_view(common)),
        settled(pkgs, pending, k, independent, planned_views(plan), skipped),
    ensures
        consistent(pkgs, planned_views(plan.push(e)), optional_view(common)),
        settled(pkgs, pending, k + 1, independent, planned_views(plan.push(e)), skipped),
        plan.is_prefix_of(plan.push(e)),
        forall|from: int|
            0 <= from <= plan.len() && drawn_from(plan, from, pending) ==> #[trigger] drawn_from(
                plan.push(e),
                from,
                pending,
            ),
{
    lemma_plan_grows(plan, e);
    let old_views = planned_views(plan);
    let next = planned_views(plan.push(e));
    assert forall|a: int| 0 <= a < next.len() implies {
        let x = #[trigger] next[a];
        &&& 0 <= x.index < pkgs.len()
        &&& x.name == pkgs[x.index].name
        &&& x.previous == pkgs[x.index].version
        &&& !pkgs[x.index].independent ==> optional_view(common) == Some(x.version)
    } by {
        if a < old_views.len() {
            assert(next[a] == old_views[a]);
        }
    }
    lemma_added_keeps(pkgs, pending, k, independent, old_views, e@, skipped);
    assert(next[plan.len() as int].index == pending[k]);
    assert(is_planned(next, pending[k] as int));
    assert forall|from: int|
        0 <= from <= plan.len() && drawn_from(plan, from, pending) implies #[trigger] drawn_from(
        plan.push(e),
        from,
        pending,
    ) by {
        assert forall|a: int| from <= a < plan.push(e).len() implies pending.contains(
            #[trigger] plan.push(e)[a].index,
        ) by {
            if a < plan.len() {
                assert(plan.push(e)[a] == plan[a]);
            }
        }
    }
}

proof fn lemma_passed(
    pkgs: Seq<PackageView>,
    pending: Seq<usize>,
    k: int,
    independent: bool,
    plan: Seq<PlannedView>,
    skipped: Seq<usize>,
)
    requires
        0 <= k < pending.len(),
        settled(pkgs, pending, k, independent, plan, skipped),
    ensures
        settled(pkgs, pending, k + 1, independent, plan, skipped.push(pending[k])),
        skipped.is_prefix_of(skipped.push(pending[k])),
        forall|from: int|
            0 <= from <= skipped.len() && passed_from(skipped, from, pending)
                ==> #[trigger] passed_from(skipped.push(pending[k]), from, pending),
{
    let next = skipped.push(pending[k]);
    lemma_passed_keeps(pkgs, pending, k, independent, plan, skipped, pending[k]);
    assert(next[skipped.len() as int] == pending[k]);
    assert forall|from: int|
        0 <= from <= skipped.len() && passed_from(skipped, from, pending) implies #[trigger] passed_from(
        next,
        from,
        pending,
    ) by {
        assert forall|a: int| from <= a < next.len() implies pending.contains(
            #[trigger] next[a],
        ) by {
            if a < skipped.len() {
                assert(next[a] == skipped[a]);
            }
        }
    }
}

/// The outcome of planning.
#[derive(Debug)]
pub struct VersionPlan {
    /// The packages that get a new version, in the order in which they were
    /// decided.
    pub versions: Vec<Planned>,
    /// The version shared by the packages on the common version, if one was
    /// chosen.
    pub version: Option<Version>,
    /// The packages that were put to the decision and passed over.
    pub skipped: Vec<usize>,
}

/// Whether the common version, where there is one, came from `decide`,
/// asked with the name and the version of a package on the common version.
pub open spec fn chosen_by<F: Fn(&String, &Version, bool) -> Option<Version>>(
    pkgs: Seq<Package>,
    common: Option<Version>,
    decide: &F,
) -> bool {
    common is Some ==> exists|m: int|
        #![trigger pkgs[m]]
        0 <= m < pkgs.len() && !pkgs[m]@.independent && call_ensures(
            decide,
            (&pkgs[m].name, &pkgs[m].version, false),
            common,
        )
}

/// Whether `name` is one of `names`.
pub open spec fn named(names: Seq<String>, name: Seq<char>) -> bool {
    exists|k: int| 0 <= k < names.len() && (#[trigger] names[k])@ == name
}

/// Whether `name` is one of `names`.
pub fn is_named(names: &Vec<String>, name: &String) -> (r: bool)
    ensures
        r == named(names@, name@),
{
    let mut k: usize = 0;
    while k < names.len()
        invariant
            k <= names.len(),
            forall|a: int| 0 <= a < k ==> (#[trigger] names@[a])@ != name@,
        decreases names.len() - k,
    {
        if names[k] == *name {
            return true;
        }
        k += 1;
    }
    false
}

/// Whether `list` holds the index `i`.
pub open spec fn lists(list: Seq<usize>, i: int) -> bool {
    exists|k: int| 0 <= k < list.len() && #[trigger] list[k] == i
}

/// Whether the plan is closed: every package that is neither in the plan
/// nor was passed over has no dependency that the plan breaks.
pub open spec fn closed(pkgs: Seq<PackageView>, plan: Seq<PlannedView>, skipped: Seq<usize>) -> bool {
    forall|i: int|
        0 <= i < pkgs.len() && !is_planned(plan, i) && !lists(skipped, i) ==> !violated(
            (#[trigger] pkgs[i]).dependencies,
            plan,
        )
}

/// Whether every package whose name is in `changed` is in the plan or was
/// passed over.
pub open spec fn covers(
    pkgs: Seq<PackageView>,
    changed: Seq<String>,
    plan: Seq<PlannedView>,
    skipped: Seq<usize>,
) -> bool {
    forall|i: int|
        0 <= i < pkgs.len() && named(changed, (#[trigger] pkgs[i]).name) ==> is_planned(plan, i)
            || lists(skipped, i)
}

/// Whether neither list names a package twice, and no package is named by
/// both.
spec fn apart(a: Seq<usize>, b: Seq<usize>) -> bool {
    &&& a.no_duplicates()
    &&& b.no_duplicates()
    &&& forall|x: int, y: int|
        0 <= x < a.len() && 0 <= y < b.len() ==> #[trigger] a[x] != #[trigger] b[y]
}

/// Whether every index in `list` is below `bound`.
spec fn below(list: Seq<usize>, bound: int) -> bool {
    forall|k: int| 0 <= k < list.len() ==> #[trigger] list[k] < bound
}

/// Whether the plan holds none of the packages of `list`.
spec fn unplanned(plan: Seq<PlannedView>, list: Seq<usize>) -> bool {
    forall|k: int| 0 <= k < list.len() ==> !is_planned(plan, #[trigger] list[k] as int)
}

/// Whether each of `list` is among the first `upto` of `source`.
spec fn all_among(list: Seq<usize>, source: Seq<usize>, upto: int) -> bool {
    forall|k: int| 0 <= k < list.len() ==> among(source, upto, #[trigger] list[k])
}

proof fn lemma_one_more(list: Seq<usize>, other: Seq<usize>, source: Seq<usize>, k: int)
    requires
        0 <= k < source.len(),
        source.no_duplicates(),
        apart(list, other),
        all_among(list, source, k),
        all_among(other, source, k),
    ensures
        apart(list.push(source[k]), other),
        apart(other, list.push(source[k])),
        all_among(list.push(source[k]), source, k + 1),
        all_among(other, source, k + 1),
{
    let next = list.push(source[k]);
    assert forall|x: int| 0 <= x < list.len() implies list[x] != source[k] by {
        assert(among(source, k, list[x]));
        let j = choose|j: int| 0 <= j < k && j < source.len() && #[trigger] source[j] == list[x];
        assert(source[j] != source[k]);
    }
    assert forall|y: int| 0 <= y < other.len() implies other[y] != source[k] by {
        assert(among(source, k, other[y]));
        let j = choose|j: int| 0 <= j < k && j < source.len() && #[trigger] source[j] == other[y];
        assert(source[j] != source[k]);
    }
    assert(next.no_duplicates()) by {
        assert forall|x: int, y: int|
            0 <= x < next.len() && 0 <= y < next.len() && x != y implies next[x] != next[y] by {
            if x < list.len() && y < list.len() {
                assert(list[x] != list[y]);
            }
        }
    }
    assert forall|x: int, y: int| 0 <= x < next.len() && 0 <= y < other.len() implies #[trigger] next[x]
        != #[trigger] other[y] by {
        if x < list.len() {
            assert(list[x] != other[y]);
        }
    }
    assert forall|n: int| 0 <= n < next.len() implies among(source, k + 1, #[trigger] next[n]) by {
        if n < list.len() {
            assert(among(source, k, list[n]));
            let j = choose|j: int|
                0 <= j < k && j < source.len() && #[trigger] source[j] == list[n];
            assert(source[j] == next[n]);
        } else {
            assert(source[k] == next[n]);
        }
    }
    assert forall|n: int| 0 <= n < other.len() implies among(source, k + 1, #[trigger] other[n]) by {
        assert(among(source, k, other[n]));
        let j = choose|j: int| 0 <= j < k && j < source.len() && #[trigger] source[j] == other[n];
        assert(source[j] == other[n]);
    }
}

/// Whether each package is in one of the four lists.
spec fn accounted(
    n: int,
    unchanged: Seq<usize>,
    pending: Seq<usize>,
    plan: Seq<PlannedView>,
    skipped: Seq<usize>,
) -> bool {
    forall|i: int|
        0 <= i < n ==> lists(unchanged, i) || lists(pending, i)
            || #[trigger] is_planned(plan, i) || lists(skipped, i)
}

/// Whether no package of `unchanged` has a dependency that the plan breaks.
spec fn at_rest(pkgs: Seq<PackageView>, unchanged: Seq<usize>, plan: Seq<PlannedView>) -> bool {
    forall|k: int|
        0 <= k < unchanged.len() ==> !violated(
            pkgs[#[trigger] unchanged[k] as int].dependencies,
            plan,
        )
}

proof fn lemma_prefix_is_planned(before: Seq<Planned>, after: Seq<Planned>, i: int)
    requires
        before.is_prefix_of(after),
        is_planned(planned_views(before), i),
    ensures
        is_planned(planned_views(after), i),
{
    let a = choose|a: int|
        0 <= a < planned_views(before).len() && #[trigger] planned_views(before)[a].index == i;
    assert(after[a] == before[a]);
    assert(planned_views(after)[a].index == i);
}

proof fn lemma_prefix_holds(before: Seq<usize>, after: Seq<usize>, i: int)
    requires
        before.is_prefix_of(after),
        lists(before, i),
    ensures
        lists(after, i),
{
    let a = choose|a: int| 0 <= a < before.len() && #[trigger] before[a] == i;
    assert(after[a] == i);
}

proof fn lemma_settled_holds(
    pkgs: Seq<PackageView>,
    pending: Seq<usize>,
    k: int,
    plan: Seq<PlannedView>,
    skipped: Seq<usize>,
)
    requires
        0 <= k < pending.len(),
        settled(pkgs, pending, pending.len() as int, false, plan, skipped),
        settled(pkgs, pending, pending.len() as int, true, plan, skipped),
    ensures
        is_planned(plan, pending[k] as int) || lists(skipped, pending[k] as int),
{
    assert(pkgs[pending[k] as int].independent == true || pkgs[pending[k] as int].independent
        == false);
    if skipped.contains(pending[k]) {
        let a = choose|a: int| 0 <= a < skipped.len() && skipped[a] == pending[k];
        assert(skipped[a] == pending[k] as int);
    }
}

/// Whether package `i` has a cause to get a new version: it is named in
/// `changed`, or the plan breaks one of its dependencies.
pub open spec fn has_cause(
    pkgs: Seq<PackageView>,
    changed: Seq<String>,
    plan: Seq<PlannedView>,
    i: int,
) -> bool {
    0 <= i < pkgs.len() && (named(changed, pkgs[i].name) || violated(pkgs[i].dependencies, plan))
}

/// Whether every package of `list` has a cause to get a new version.
pub open spec fn caused(
    pkgs: Seq<PackageView>,
    changed: Seq<String>,
    plan: Seq<PlannedView>,
    list: Seq<usize>,
) -> bool {
    forall|k: int| 0 <= k < list.len() ==> has_cause(pkgs, changed, plan, #[trigger] list[k] as int)
}

/// Whether nothing was decided without cause. Each package in the plan is
/// named in `changed`, or has a dependency that is broken by the entries
/// that stand before its own: it was put to the decision after the
/// decision that broke its dependency. Each package that was passed over
/// is named in `changed` or has a dependency that the plan breaks.
pub open spec fn warranted(
    pkgs: Seq<PackageView>,
    changed: Seq<String>,
    plan: Seq<PlannedView>,
    skipped: Seq<usize>,
) -> bool {
    &&& forall|k: int|
        0 <= k < plan.len() ==> has_cause(pkgs, changed, plan.take(k), (#[trigger] plan[k]).index)
    &&& caused(pkgs, changed, plan, skipped)
}

/// Whether package `m` stands for the packages on the common version that
/// are named in `changed`: it is one of them, and none of them has a
/// version of higher precedence.
pub open spec fn leads_changed(pkgs: Seq<PackageView>, changed: Seq<String>, m: int) -> bool {
    &&& 0 <= m < pkgs.len()
    &&& !pkgs[m].independent
    &&& named(changed, pkgs[m].name)
    &&& forall|i: int|
        0 <= i < pkgs.len() && !(#[trigger] pkgs[i]).independent && named(changed, pkgs[i].name)
            ==> !precedes(pkgs[m].version, pkgs[i].version)
}

/// Whether a package named in `changed` is on the common version.
pub open spec fn changed_common(pkgs: Seq<PackageView>, changed: Seq<String>) -> bool {
    exists|i: int|
        0 <= i < pkgs.len() && !(#[trigger] pkgs[i]).independent && named(changed, pkgs[i].name)
}

/// Whether `decide` gave `answer` when asked for the common version with
/// the name and the version of package `m`, which stands for the packages
/// on the common version that are named in `changed`; and `common` is that
/// answer, where it is a version.
pub open spec fn answered<F: Fn(&String, &Version, bool) -> Option<Version>>(
    pkgs: Seq<Package>,
    changed: Seq<String>,
    common: Option<Version>,
    decide: &F,
    m: int,
    answer: Option<Version>,
) -> bool {
    &&& leads_changed(views(pkgs), changed, m)
    &&& call_ensures(decide, (&pkgs[m].name, &pkgs[m].version, false), answer)
    &&& answer is Some ==> common == answer
}

/// Whether the common version was asked for first with a package named in
/// `changed`, where one of them is on the common version: with one of
/// highest precedence among them. Where `decide` gave a version then, it
/// is the common version.
pub open spec fn asked_first<F: Fn(&String, &Version, bool) -> Option<Version>>(
    pkgs: Seq<Package>,
    changed: Seq<String>,
    common: Option<Version>,
    decide: &F,
) -> bool {
    changed_common(views(pkgs), changed) ==> exists|m: int, answer: Option<Version>|
        #[trigger] answered(pkgs, changed, common, decide, m, answer)
}

/// A version that the plan holds for a name stays when entries are added
/// at the end.
pub proof fn lemma_version_stays(
    before: Seq<PlannedView>,
    after: Seq<PlannedView>,
    name: Seq<char>,
)
    requires
        before.is_prefix_of(after),
        planned_version(before, name) is Some,
    ensures
        planned_version(after, name) == planned_version(before, name),
    decreases before.len(),
{
    if before.len() > 0 {
        assert(after[0] == before[0]);
        if before[0].name != name {
            assert(before.drop_first().is_prefix_of(after.drop_first()));
            lemma_version_stays(before.drop_first(), after.drop_first(), name);
        }
    }
}

/// A cause stays when entries are added at the end of the plan.
pub proof fn lemma_cause_stays(
    pkgs: Seq<PackageView>,
    changed: Seq<String>,
    before: Seq<PlannedView>,
    after: Seq<PlannedView>,
    i: int,
)
    requires
        before.is_prefix_of(after),
        has_cause(pkgs, changed, before, i),
    ensures
        has_cause(pkgs, changed, after, i),
{
    let deps = pkgs[i].dependencies;
    if violated(deps, before) {
        let k = choose|k: int| 0 <= k < deps.len() && broken(#[trigger] deps[k], before);
        lemma_version_stays(before, after, deps[k].name);
        assert(broken(deps[k], after));
    }
}

proof fn lemma_views_of_prefix(before: Seq<Planned>, after: Seq<Planned>)
    requires
        before.is_prefix_of(after),
    ensures
        planned_views(before).is_prefix_of(planned_views(after)),
{
    assert forall|a: int| 0 <= a < planned_views(before).len() implies planned_views(before)[a]
        == planned_views(after)[a] by {
        assert(after[a] == before[a]);
    }
}

/// Plans new versions, starting from the packages named in `changed`.
///
/// Fails where a requirement of some dependency cannot be read, and only
/// there: no requirement that `semver` reads fails it. Otherwise every
/// package named in `changed` is in the plan or was
/// passed over, no package is in the plan twice, all planned packages on
/// the common version get the same version, and the plan is closed: a
/// package that is neither in it nor was passed over has no dependency
/// whose requirement a planned version breaks. Nothing is decided without
/// cause: a package in the plan, or passed over, is named in `changed` or
/// has a dependency that the plan breaks, and in the plan it stands after
/// the entry that breaks it. The versions come from `decide`; the common
/// version is asked for first with the package of highest precedence among
/// those named in `changed`.
pub fn plan<F: Fn(&String, &Version, bool) -> Option<Version>>(
    pkgs: &Vec<Package>,
    changed: &Vec<String>,
    decide: F,
) -> (r: Result<VersionPlan>)
    requires
        forall|n: &String, v: &Version, i: bool| call_requires(&decide, (n, v, i)),
    ensures
        match r {
            Ok(p) => {
                &&& requirements_read(views(pkgs@))
                &&& consistent(views(pkgs@), planned_views(p.versions@), optional_view(p.version))
                &&& covers(views(pkgs@), changed@, planned_views(p.versions@), p.skipped@)
                &&& closed(views(pkgs@), planned_views(p.versions@), p.skipped@)
                &&& warranted(views(pkgs@), changed@, planned_views(p.versions@), p.skipped@)
                &&& asked_first(pkgs@, changed@, p.version, &decide)
                &&& in_range(p.skipped@, pkgs@.len() as int)
                &&& once_each(planned_views(p.versions@))
                &&& refused(pkgs@, p.skipped@, 0, &decide)
                &&& decided(pkgs@, p.versions@, 0, &decide)
                &&& chosen_by(pkgs@, p.version, &decide)
            },
            Err(e) => (e is Semver || e is NumberTooLarge) && !requirements_read(views(pkgs@)),
        },
{
    match check_requirements(pkgs) {
        Ok(_) => {},
        Err(e) => {
            return Err(e);
        },
    }
    let ghost all = views(pkgs@);
    let mut pending: Vec<usize> = Vec::new();
    let mut unchanged: Vec<usize> = Vec::new();
    let mut i: usize = 0;
    while i < pkgs.len()
        invariant
            i <= pkgs.len(),
            all == views(pkgs@),
            in_range(pending@, pkgs@.len() as int),
            in_range(unchanged@, pkgs@.len() as int),
            below(pending@, i as int),
            below(unchanged@, i as int),
            apart(pending@, unchanged@),
            forall|a: int|
                0 <= a < i ==> if named(changed@, (#[trigger] all[a]).name) {
                    lists(pending@, a)
                } else {
                    lists(unchanged@, a)
                },
        decreases pkgs.len() - i,
    {
        assert(all[i as int] == pkgs@[i as int]@);
        let ghost held = pending@;
        let ghost rested = unchanged@;
        if is_named(changed, &pkgs[i].name) {
            pending.push(i);
            assert(pending@[held.len() as int] == i);
            assert(lists(pending@, i as int));
        } else {
            unchanged.push(i);
            assert(unchanged@[rested.len() as int] == i);
            assert(lists(unchanged@, i as int));
        }
        proof {
            assert(below(pending@, i + 1)) by {
                assert forall|k: int| 0 <= k < pending@.len() implies #[trigger] pending@[k] < i
                    + 1 by {
                    if k < held.len() {
                        assert(pending@[k] == held[k]);
                    }
                }
            }
            assert(below(unchanged@, i + 1)) by {
                assert forall|k: int| 0 <= k < unchanged@.len() implies #[trigger] unchanged@[k]
                    < i + 1 by {
                    if k < rested.len() {
                        assert(unchanged@[k] == rested[k]);
                    }
                }
            }
            assert(apart(pending@, unchanged@)) by {
                assert forall|x: int, y: int|
                    0 <= x < pending@.len() && 0 <= y < pending@.len() && x != y implies pending@[x]
                    != pending@[y] by {
                    if x < held.len() {
                        assert(pending@[x] == held[x]);
                    }
                    if y < held.len() {
                        assert(pending@[y] == held[y]);
                    }
                }
                assert forall|x: int, y: int|
                    0 <= x < unchanged@.len() && 0 <= y < unchanged@.len() && x
                        != y implies unchanged@[x] != unchanged@[y] by {
                    if x < rested.len() {
                        assert(unchanged@[x] == rested[x]);
                    }
                    if y < rested.len() {
                        assert(unchanged@[y] == rested[y]);
                    }
                }
                assert forall|x: int, y: int|
                    0 <= x < pending@.len() && 0 <= y < unchanged@.len() implies #[trigger] pending@[x]
                    != #[trigger] unchanged@[y] by {
                    if x < held.len() {
                        assert(pending@[x] == held[x]);
                    }
                    if y < rested.len() {
                        assert(unchanged@[y] == rested[y]);
                    }
                }
            }
        }
        proof {
            assert forall|a: int| 0 <= a < i + 1 implies if named(changed@, (#[trigger] all[a]).name) {
                lists(pending@, a)
            } else {
                lists(unchanged@, a)
            } by {
                if a < i {
                    if lists(held, a) {
                        lemma_prefix_holds(held, pending@, a);
                    }
                    if lists(rested, a) {
                        lemma_prefix_holds(rested, unchanged@, a);
                    }
                }
            }
        }
        i += 1;
    }
    let mut new_version: Option<Version> = None;
    let mut new_versions: Vec<Planned> = Vec::new();
    let mut skipped: Vec<usize> = Vec::new();
    let ghost mut started = false;
    proof {
        assert(planned_views(new_versions@) =~= Seq::<PlannedView>::empty());
        assert(at_rest(all, unchanged@, planned_views(new_versions@)));
        assert(all.len() == pkgs@.len());
        assert forall|k: int| 0 <= k < pending@.len() implies named(
            changed@,
            all[#[trigger] pending@[k] as int].name,
        ) by {
            let a = pending@[k] as int;
            if !named(changed@, all[a].name) {
                assert(lists(unchanged@, a));
                let y = choose|y: int| 0 <= y < unchanged@.len() && #[trigger] unchanged@[y] == a;
                assert(pending@[k] != unchanged@[y]);
            }
        }
        assert forall|k: int| 0 <= k < pending@.len() implies has_cause(
            all,
            changed@,
            planned_views(new_versions@),
            #[trigger] pending@[k] as int,
        ) by {
            let a = pending@[k] as int;
            if !named(changed@, all[a].name) {
                assert(lists(unchanged@, a));
                let y = choose|y: int| 0 <= y < unchanged@.len() && #[trigger] unchanged@[y] == a;
                assert(pending@[k] != unchanged@[y]);
            }
        }
        assert forall|a: int| 0 <= a < pkgs@.len() implies lists(unchanged@, a)
            || lists(pending@, a) || #[trigger] is_planned(
            planned_views(new_versions@),
            a,
        ) || lists(skipped@, a) by {
            assert(all.len() == pkgs@.len());
            if named(changed@, all[a].name) {
                assert(lists(pending@, a));
            } else {
                assert(lists(unchanged@, a));
            }
        }
    }
    while pending.len() > 0
        invariant
            all == views(pkgs@),
            requirements_read(all),
            forall|n: &String, v: &Version, i: bool| call_requires(&decide, (n, v, i)),
            in_range(pending@, pkgs@.len() as int),
            in_range(unchanged@, pkgs@.len() as int),
            in_range(skipped@, pkgs@.len() as int),
            consistent(all, planned_views(new_versions@), optional_view(new_version)),
            accounted(
                pkgs@.len() as int,
                unchanged@,
                pending@,
                planned_views(new_versions@),
                skipped@,
            ),
            forall|a: int|
                0 <= a < all.len() && named(changed@, (#[trigger] all[a]).name)
                    ==> lists(pending@, a) || is_planned(
                    planned_views(new_versions@),
                    a,
                ) || lists(skipped@, a),
            pending@.len() == 0 ==> at_rest(all, unchanged@, planned_views(new_versions@)),
            decided(pkgs@, new_versions@, 0, &decide),
            chosen_by(pkgs@, new_version, &decide),
            refused(pkgs@, skipped@, 0, &decide),
            once_each(planned_views(new_versions@)),
            apart(pending@, unchanged@),
            unplanned(planned_views(new_versions@), pending@),
            unplanned(planned_views(new_versions@), unchanged@),
            caused(all, changed@, planned_views(new_versions@), pending@),
            warranted(all, changed@, planned_views(new_versions@), skipped@),
            !started ==> new_version is None && forall|k: int|
                0 <= k < pending@.len() ==> named(changed@, all[#[trigger] pending@[k] as int].name),
            !started ==> forall|a: int|
                0 <= a < all.len() && named(changed@, (#[trigger] all[a]).name) ==> lists(
                    pending@,
                    a,
                ),
            started ==> asked_first(pkgs@, changed@, new_version, &decide),
        decreases 2 * unchanged@.len() + (if pending@.len() > 0 { 1int } else { 0int }),
    {
        let ghost plan0 = new_versions@;
        let ghost skipped0 = skipped@;
        let ghost common0 = new_version;
        get_new_versions(
            pkgs,
            &pending,
            &decide,
            &mut new_version,
            &mut new_versions,
            &mut skipped,
        );
        let ghost plan1 = planned_views(new_versions@);
        proof {
            lemma_views_of_prefix(plan0, new_versions@);
            assert(asked_first(pkgs@, changed@, new_version, &decide)) by {
                if changed_common(all, changed@) {
                    if started {
                        let (m, answer) = choose|m: int, answer: Option<Version>|
                            #[trigger] answered(pkgs@, changed@, common0, &decide, m, answer);
                        assert(answered(pkgs@, changed@, new_version, &decide, m, answer));
                    } else {
                        let i = choose|i: int|
                            0 <= i < all.len() && !(#[trigger] all[i]).independent && named(
                                changed@,
                                all[i].name,
                            );
                        assert(lists(pending@, i));
                        let b = choose|b: int| 0 <= b < pending@.len() && #[trigger] pending@[b] == i;
                        assert(!all[pending@[b] as int].independent);
                        assert(has_common(all, pending@));
                        let m = choose|m: int|
                            #![trigger is_reference(all, pending@, m)]
                            is_reference(all, pending@, m) && call_ensures(
                                &decide,
                                (&pkgs@[m].name, &pkgs@[m].version, false),
                                new_version,
                            );
                        assert(pending@.contains(m as usize));
                        let j = choose|j: int|
                            0 <= j < pending@.len() && pending@[j] == m as usize;
                        assert(named(changed@, all[pending@[j] as int].name));
                        assert forall|x: int|
                            0 <= x < all.len() && !(#[trigger] all[x]).independent && named(
                                changed@,
                                all[x].name,
                            ) implies !precedes(all[m].version, all[x].version) by {
                            assert(lists(pending@, x));
                            let y = choose|y: int|
                                0 <= y < pending@.len() && #[trigger] pending@[y] == x;
                            assert(!all[pending@[y] as int].independent);
                        }
                        assert(0 <= m < all.len());
                        assert(all.len() == pkgs@.len());
                        assert(pkgs@.len() == pkgs.len());
                        assert((m as usize) as int == m);
                        assert(pending@[j] as int == m);
                        assert(named(changed@, all[m].name));
                        assert(!all[m].independent);
                        assert(leads_changed(all, changed@, m));
                        assert(answered(pkgs@, changed@, new_version, &decide, m, new_version));
                    }
                }
            }
            assert(warranted(all, changed@, plan1, skipped@)) by {
                assert forall|k: int| 0 <= k < plan1.len() implies has_cause(
                    all,
                    changed@,
                    plan1.take(k),
                    (#[trigger] plan1[k]).index,
                ) by {
                    assert(plan1[k] == new_versions@[k]@);
                    if k < plan0.len() {
                        assert(new_versions@[k] == plan0[k]);
                        assert(planned_views(plan0)[k].index == plan1[k].index);
                        assert(plan1.take(k) =~= planned_views(plan0).take(k));
                    } else {
                        assert(pending@.contains(new_versions@[k].index));
                        let j = choose|j: int|
                            0 <= j < pending@.len() && pending@[j] == new_versions@[k].index;
                        assert(has_cause(all, changed@, planned_views(plan0), pending@[j] as int));
                        assert(planned_views(plan0).is_prefix_of(plan1.take(k)));
                        lemma_cause_stays(
                            all,
                            changed@,
                            planned_views(plan0),
                            plan1.take(k),
                            plan1[k].index,
                        );
                    }
                }
                assert forall|k: int| 0 <= k < skipped@.len() implies has_cause(
                    all,
                    changed@,
                    plan1,
                    #[trigger] skipped@[k] as int,
                ) by {
                    if k < skipped0.len() {
                        assert(skipped@[k] == skipped0[k]);
                    } else {
                        assert(pending@.contains(skipped@[k]));
                        let j = choose|j: int| 0 <= j < pending@.len() && pending@[j] == skipped@[k];
                        assert(has_cause(all, changed@, planned_views(plan0), pending@[j] as int));
                    }
                    lemma_cause_stays(
                        all,
                        changed@,
                        planned_views(plan0),
                        plan1,
                        skipped@[k] as int,
                    );
                }
            }
            assert(refused(pkgs@, skipped@, 0, &decide)) by {
                assert forall|n: int|
                    0 <= n < skipped@.len() && (#[trigger] skipped@[n]) < pkgs@.len() implies if pkgs@[skipped@[n] as int]@
                    .independent {
                    call_ensures(
                        &decide,
                        (
                            &pkgs@[skipped@[n] as int].name,
                            &pkgs@[skipped@[n] as int].version,
                            true,
                        ),
                        None::<Version>,
                    )
                } else {
                    declined_common(pkgs@, &decide)
                } by {
                    if n < skipped0.len() {
                        assert(skipped@[n] == skipped0[n]);
                    }
                }
            }
            assert(fresh(planned_views(plan0), pending@));
            assert(unplanned(plan1, unchanged@)) by {
                assert forall|k: int| 0 <= k < unchanged@.len() implies !is_planned(
                    plan1,
                    #[trigger] unchanged@[k] as int,
                ) by {
                    if is_planned(plan1, unchanged@[k] as int) {
                        let a = choose|a: int|
                            0 <= a < plan1.len() && #[trigger] plan1[a].index == unchanged@[k];
                        assert(plan1[a] == new_versions@[a]@);
                        if a < plan0.len() {
                            assert(new_versions@[a] == plan0[a]);
                            assert(planned_views(plan0)[a].index == unchanged@[k]);
                            assert(is_planned(planned_views(plan0), unchanged@[k] as int));
                        } else {
                            assert(pending@.contains(new_versions@[a].index));
                            let j = choose|j: int|
                                0 <= j < pending@.len() && pending@[j] == new_versions@[a].index;
                            assert(pending@[j] != unchanged@[k]);
                        }
                    }
                }
            }
            assert(chosen_by(pkgs@, new_version, &decide)) by {
                if new_version is Some && common0 is None && has_common(all, pending@) {
                    let m = choose|m: int|
                        #![trigger is_reference(all, pending@, m)]
                        is_reference(all, pending@, m) && call_ensures(
                            &decide,
                            (&pkgs@[m].name, &pkgs@[m].version, false),
                            new_version,
                        );
                    assert(all[m] == pkgs@[m]@);
                }
            }
            assert(in_range(skipped@, pkgs@.len() as int)) by {
                assert forall|k: int| 0 <= k < skipped@.len() implies #[trigger] skipped@[k]
                    < pkgs@.len() by {
                    if k < skipped0.len() {
                        assert(skipped@[k] == skipped0[k]);
                    } else {
                        let a = choose|a: int| 0 <= a < pending@.len() && pending@[a] == skipped@[k];
                        assert(pending@[a] < pkgs@.len());
                    }
                }
            }
            assert(decided(pkgs@, new_versions@, 0, &decide)) by {
                assert forall|k: int|
                    0 <= k < new_versions@.len() && 0 <= (#[trigger] new_versions@[k]).index
                        < pkgs@.len() && pkgs@[new_versions@[k].index as int]@.independent implies call_ensures(
                    &decide,
                    (
                        &pkgs@[new_versions@[k].index as int].name,
                        &pkgs@[new_versions@[k].index as int].version,
                        true,
                    ),
                    Some(new_versions@[k].version),
                ) by {
                    if k < plan0.len() {
                        assert(new_versions@[k] == plan0[k]);
                    }
                }
            }
        }
        let mut moved: Vec<usize> = Vec::new();
        let mut rest: Vec<usize> = Vec::new();
        let mut k: usize = 0;
        while k < unchanged.len()
            invariant
                k <= unchanged.len(),
                all == views(pkgs@),
                requirements_read(all),
                plan1 == planned_views(new_versions@),
                in_range(unchanged@, pkgs@.len() as int),
                in_range(moved@, pkgs@.len() as int),
                in_range(rest@, pkgs@.len() as int),
                moved@.len() + rest@.len() == k,
                unchanged@.no_duplicates(),
                apart(moved@, rest@),
                all_among(moved@, unchanged@, k as int),
                all_among(rest@, unchanged@, k as int),
                at_rest(all, rest@, plan1),
                caused(all, changed@, plan1, moved@),
                forall|a: int|
                    0 <= a < k ==> lists(moved@, #[trigger] unchanged@[a] as int) || lists(
                        rest@,
                        unchanged@[a] as int,
                    ),
            decreases unchanged.len() - k,
        {
            let u = unchanged[k];
            let ghost m0 = moved@;
            let ghost r0 = rest@;
            proof {
                assert(all[u as int] == pkgs@[u as int]@);
                assert forall|d: int| 0 <= d < pkgs@[u as int]@.dependencies.len() implies requirement_reads(
                    #[trigger] pkgs@[u as int]@.dependencies[d].req,
                ) by {
                    assert(requirement_reads(all[u as int].dependencies[d].req));
                }
            }
            proof {
                lemma_one_more(m0, r0, unchanged@, k as int);
                lemma_one_more(r0, m0, unchanged@, k as int);
            }
            if needs_new_version(&pkgs[u], &new_versions) {
                moved.push(u);
                assert(moved@[m0.len() as int] == u);
                assert(lists(moved@, u as int));
                assert(caused(all, changed@, plan1, moved@)) by {
                    assert forall|a: int| 0 <= a < moved@.len() implies has_cause(
                        all,
                        changed@,
                        plan1,
                        #[trigger] moved@[a] as int,
                    ) by {
                        if a < m0.len() {
                            assert(moved@[a] == m0[a]);
                        }
                    }
                }
            } else {
                rest.push(u);
                assert(rest@[r0.len() as int] == u);
                assert(lists(rest@, u as int));
                assert(at_rest(all, rest@, plan1)) by {
                    assert forall|a: int| 0 <= a < rest@.len() implies !violated(
                        all[#[trigger] rest@[a] as int].dependencies,
                        plan1,
                    ) by {
                        if a < r0.len() {
                            assert(rest@[a] == r0[a]);
                        }
                    }
                }
            }
            proof {
                assert forall|a: int| 0 <= a < k + 1 implies lists(
                    moved@,
                    #[trigger] unchanged@[a] as int,
                ) || lists(rest@, unchanged@[a] as int) by {
                    if a < k {
                        if lists(m0, unchanged@[a] as int) {
                            lemma_prefix_holds(m0, moved@, unchanged@[a] as int);
                        }
                        if lists(r0, unchanged@[a] as int) {
                            lemma_prefix_holds(r0, rest@, unchanged@[a] as int);
                        }
                    }
                }
            }
            k += 1;
        }
        proof {
            let n = pkgs@.len() as int;
            assert(accounted(n, rest@, moved@, plan1, skipped@)) by {
                assert forall|i: int| 0 <= i < n implies lists(rest@, i)
                    || lists(moved@, i) || #[trigger] is_planned(plan1, i)
                    || lists(skipped@, i) by {
                    if lists(unchanged@, i) {
                        let a = choose|a: int|
                            0 <= a < unchanged@.len() && #[trigger] unchanged@[a] == i;
                        assert(lists(moved@, unchanged@[a] as int) || lists(
                            rest@,
                            unchanged@[a] as int,
                        ));
                    } else if lists(pending@, i) {
                        let a = choose|a: int| 0 <= a < pending@.len() && #[trigger] pending@[a] == i;
                        lemma_settled_holds(all, pending@, a, plan1, skipped@);
                    } else if is_planned(planned_views(plan0), i) {
                        lemma_prefix_is_planned(plan0, new_versions@, i);
                    } else {
                        assert(lists(skipped0, i));
                        lemma_prefix_holds(skipped0, skipped@, i);
                    }
                }
            }
            assert forall|a: int|
                0 <= a < all.len() && named(changed@, (#[trigger] all[a]).name) implies lists(
                moved@,
                a,
            ) || is_planned(plan1, a) || lists(skipped@, a) by {
                if lists(pending@, a) {
                    let b = choose|b: int| 0 <= b < pending@.len() && #[trigger] pending@[b] == a;
                    lemma_settled_holds(all, pending@, b, plan1, skipped@);
                } else if is_planned(planned_views(plan0), a) {
                    lemma_prefix_is_planned(plan0, new_versions@, a);
                } else {
                    lemma_prefix_holds(skipped0, skipped@, a);
                }
            }
        }
        proof {
            assert(unplanned(plan1, moved@)) by {
                assert forall|n: int| 0 <= n < moved@.len() implies !is_planned(
                    plan1,
                    #[trigger] moved@[n] as int,
                ) by {
                    assert(among(unchanged@, unchanged@.len() as int, moved@[n]));
                    let j = choose|j: int|
                        0 <= j < unchanged@.len() && j < unchanged@.len()
                            && #[trigger] unchanged@[j] == moved@[n];
                    assert(!is_planned(plan1, unchanged@[j] as int));
                }
            }
            assert(unplanned(plan1, rest@)) by {
                assert forall|n: int| 0 <= n < rest@.len() implies !is_planned(
                    plan1,
                    #[trigger] rest@[n] as int,
                ) by {
                    assert(among(unchanged@, unchanged@.len() as int, rest@[n]));
                    let j = choose|j: int|
                        0 <= j < unchanged@.len() && j < unchanged@.len()
                            && #[trigger] unchanged@[j] == rest@[n];
                    assert(!is_planned(plan1, unchanged@[j] as int));
                }
            }
        }
        pending = moved;
        unchanged = rest;
        proof {
            started = true;
        }
    }
    proof {
        if !started && changed_common(all, changed@) {
            let i = choose|i: int|
                0 <= i < all.len() && !(#[trigger] all[i]).independent && named(
                    changed@,
                    all[i].name,
                );
            assert(lists(pending@, i));
        }
    }
    proof {
        let plan_views = planned_views(new_versions@);
        assert(closed(all, plan_views, skipped@)) by {
            assert forall|i: int|
                0 <= i < all.len() && !is_planned(plan_views, i) && !lists(
                    skipped@,
                    i,
                ) implies !violated((#[trigger] all[i]).dependencies, plan_views) by {
                assert(is_planned(plan_views, i) || !is_planned(plan_views, i));
                assert(lists(unchanged@, i));
                let a = choose|a: int| 0 <= a < unchanged@.len() && #[trigger] unchanged@[a] == i;
                assert(!violated(all[unchanged@[a] as int].dependencies, plan_views));
            }
        }
    }
    Ok(VersionPlan { versions: new_versions, version: new_version, skipped })
}

/// All planned packages on the common version get the same new version.
pub proof fn lemma_common_version_is_shared(
    pkgs: Seq<PackageView>,
    plan: Seq<PlannedView>,
    common: Option<VersionView>,
    a: int,
    b: int,
)
    requires
        consistent(pkgs, plan, common),
        0 <= a < plan.len(),
        0 <= b < plan.len(),
        !pkgs[plan[a].index].independent,
        !pkgs[plan[b].index].independent,
    ensures
        plan[a].version == plan[b].version,
        common == Some(plan[a].version),
{
}

/// In a closed plan, a package with a dependency that the plan breaks is in
/// the plan itself or was put to the decision and passed over.
pub proof fn lemma_broken_dependents_are_drawn_in(
    pkgs: Seq<PackageView>,
    plan: Seq<PlannedView>,
    skipped: Seq<usize>,
    i: int,
    k: int,
)
    requires
        closed(pkgs, plan, skipped),
        0 <= i < pkgs.len(),
        0 <= k < pkgs[i].dependencies.len(),
        broken(pkgs[i].dependencies[k], plan),
    ensures
        is_planned(plan, i) || lists(skipped, i),
{
    if !is_planned(plan, i) && !lists(skipped, i) {
        assert(violated(pkgs[i].dependencies, plan));
    }
}

/// An independent package with a dependency that the plan breaks is put
/// to the decision by itself: it is in the plan with a version that
/// `decide` gave for its name and version, or it was passed over because
/// `decide` gave none.
pub proof fn lemma_broken_independent_is_decided<F: Fn(&String, &Version, bool) -> Option<Version>>(
    pkgs: Seq<Package>,
    plan: Seq<Planned>,
    skipped: Seq<usize>,
    decide: &F,
    i: int,
    k: int,
)
    requires
        closed(views(pkgs), planned_views(plan), skipped),
        decided(pkgs, plan, 0, decide),
        refused(pkgs, skipped, 0, decide),
        0 <= i < pkgs.len(),
        pkgs[i]@.independent,
        0 <= k < pkgs[i]@.dependencies.len(),
        broken(pkgs[i]@.dependencies[k], planned_views(plan)),
    ensures
        (exists|a: int|
            0 <= a < plan.len() && (#[trigger] plan[a]).index == i && call_ensures(
                decide,
                (&pkgs[i].name, &pkgs[i].version, true),
                Some(plan[a].version),
            )) || (lists(skipped, i) && call_ensures(
            decide,
            (&pkgs[i].name, &pkgs[i].version, true),
            None::<Version>,
        )),
{
    let all = views(pkgs);
    let entries = planned_views(plan);
    assert(all[i] == pkgs[i]@);
    lemma_broken_dependents_are_drawn_in(all, entries, skipped, i, k);
    if is_planned(entries, i) {
        let a = choose|a: int| 0 <= a < entries.len() && #[trigger] entries[a].index == i;
        assert(entries[a] == plan[a]@);
        assert(plan[a].index == i);
    } else {
        let a = choose|a: int| 0 <= a < skipped.len() && #[trigger] skipped[a] == i;
        assert(skipped[a] < pkgs.len());
    }
}

/// A package on the common version with a dependency that the plan breaks
/// is in the plan with the common version, or it was passed over because
/// `decide` gave no common version.
pub proof fn lemma_broken_common_is_decided<F: Fn(&String, &Version, bool) -> Option<Version>>(
    pkgs: Seq<Package>,
    plan: Seq<Planned>,
    skipped: Seq<usize>,
    common: Option<Version>,
    decide: &F,
    i: int,
    k: int,
)
    requires
        closed(views(pkgs), planned_views(plan), skipped),
        consistent(views(pkgs), planned_views(plan), optional_view(common)),
        refused(pkgs, skipped, 0, decide),
        0 <= i < pkgs.len(),
        !pkgs[i]@.independent,
        0 <= k < pkgs[i]@.dependencies.len(),
        broken(pkgs[i]@.dependencies[k], planned_views(plan)),
    ensures
        (exists|a: int|
            0 <= a < plan.len() && (#[trigger] plan[a]).index == i && optional_view(common)
                == Some(plan[a].version@)) || (lists(skipped, i) && declined_common(pkgs, decide)),
{
    let all = views(pkgs);
    let entries = planned_views(plan);
    assert(all[i] == pkgs[i]@);
    lemma_broken_dependents_are_drawn_in(all, entries, skipped, i, k);
    if is_planned(entries, i) {
        let a = choose|a: int| 0 <= a < entries.len() && #[trigger] entries[a].index == i;
        assert(entries[a] == plan[a]@);
        assert(plan[a].index == i);
        assert(all[entries[a].index] == pkgs[i]@);
    } else {
        let a = choose|a: int| 0 <= a < skipped.len() && #[trigger] skipped[a] == i;
        assert(skipped[a] < pkgs.len());
    }
}

/// A package that is in the plan without being named in `changed` stands
/// after an entry that breaks one of its dependencies: the decision on it
/// was asked for after the decision that drew it in.
pub proof fn lemma_drawn_in_after_the_break(
    pkgs: Seq<PackageView>,
    changed: Seq<String>,
    plan: Seq<PlannedView>,
    skipped: Seq<usize>,
    k: int,
)
    requires
        warranted(pkgs, changed, plan, skipped),
        0 <= k < plan.len(),
        !named(changed, pkgs[plan[k].index].name),
    ensures
        violated(pkgs[plan[k].index].dependencies, plan.take(k)),
        k > 0,
{
    assert(has_cause(pkgs, changed, plan.take(k), plan[k].index));
    let deps = pkgs[plan[k].index].dependencies;
    let d = choose|d: int| 0 <= d < deps.len() && broken(#[trigger] deps[d], plan.take(k));
    if k == 0 {
        assert(plan.take(0) =~= Seq::<PlannedView>::empty());
    }
}

} // verus!
