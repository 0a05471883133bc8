//! The order in which the packages of a workspace are processed: every
//! package after the packages of the workspace that it depends on.

use crate::ordered::{empty_set, holds, insert, items};
use crate::package::{
    package_views, Dependency, DependencyKind, DependencyView, Package, PackageView,
};
use indexmap::IndexSet;
use vstd::prelude::*;

verus! {

/// Whether the dependency is followed when ordering: it is needed to build
/// or run the package, and it resolves to a path of the workspace.
pub open spec fn follows(d: DependencyView) -> bool {
    (d.kind == DependencyKind::Normal || d.kind == DependencyKind::Build) && d.local
}

/// The index of the first package called `name`, if there is one.
pub open spec fn first_named(pkgs: Seq<PackageView>, name: Seq<char>) -> Option<int>
    decreases pkgs.len(),
{
    if pkgs.len() == 0 {
        None
    } else {
        match first_named(pkgs.drop_last(), name) {
            Some(k) => Some(k),
            None => if pkgs.last().name == name {
                Some(pkgs.len() - 1)
            } else {
                None
            },
        }
    }
}

/// The package that the dependency leads to: the first one of its name,
/// where the dependency is followed at all.
pub open spec fn target(pkgs: Seq<PackageView>, d: DependencyView) -> Option<int> {
    if follows(d) {
        first_named(pkgs, d.name)
    } else {
        None
    }
}

/// Whether package `i` has a dependency that leads to package `j`.
pub open spec fn edge(pkgs: Seq<PackageView>, i: int, j: int) -> bool {
    0 <= i < pkgs.len() && exists|k: int|
        0 <= k < pkgs[i].dependencies.len() && #[trigger] target(pkgs, pkgs[i].dependencies[k])
            == Some(j)
}

/// Whether `rank` falls along every edge.
pub open spec fn ranked(pkgs: Seq<PackageView>, rank: spec_fn(int) -> nat) -> bool {
    forall|i: int, j: int| #[trigger] edge(pkgs, i, j) ==> rank(j) < rank(i)
}

/// Whether the followed dependencies form no cycle.
pub open spec fn acyclic(pkgs: Seq<PackageView>) -> bool {
    exists|rank: spec_fn(int) -> nat| ranked(pkgs, rank)
}

/// Whether no two packages share a manifest path.
pub open spec fn distinct_paths(pkgs: Seq<PackageView>) -> bool {
    forall|i: int, j: int|
        0 <= i < j < pkgs.len() ==> #[trigger] pkgs[i].manifest_path
            != #[trigger] pkgs[j].manifest_path
}

/// Whether `path` is the manifest path of one of the packages.
pub open spec fn is_manifest(pkgs: Seq<PackageView>, path: Seq<char>) -> bool {
    exists|i: int| 0 <= i < pkgs.len() && #[trigger] pkgs[i].manifest_path == path
}

/// Whether `order` lists manifest paths of `pkgs`, none of them twice.
pub open spec fn lists_packages(pkgs: Seq<PackageView>, order: Seq<Seq<char>>) -> bool {
    &&& order.no_duplicates()
    &&& forall|a: int| 0 <= a < order.len() ==> is_manifest(pkgs, #[trigger] order[a])
}

/// Whether every package in `order` comes after each package that one of
/// its followed dependencies leads to.
pub open spec fn dependencies_first(pkgs: Seq<PackageView>, order: Seq<Seq<char>>) -> bool {
    forall|i: int, j: int, b: int|
        #![trigger edge(pkgs, i, j), order[b]]
        edge(pkgs, i, j) && 0 <= b < order.len() && order[b] == pkgs[i].manifest_path
            ==> exists|a: int| 0 <= a < b && order[a] == pkgs[j].manifest_path
}

/// Whether `order` holds the manifest path of every package.
pub open spec fn lists_all(pkgs: Seq<PackageView>, order: Seq<Seq<char>>) -> bool {
    forall|i: int| 0 <= i < pkgs.len() ==> order.contains(#[trigger] pkgs[i].manifest_path)
}

proof fn lemma_first_named_grows(pkgs: Seq<PackageView>, name: Seq<char>, len: int, k: int)
    requires
        0 <= len <= pkgs.len(),
        first_named(pkgs.take(len), name) == Some(k),
    ensures
        first_named(pkgs, name) == Some(k),
    decreases pkgs.len() - len,
{
    if len < pkgs.len() {
        assert(pkgs.take(len + 1).drop_last() =~= pkgs.take(len));
        lemma_first_named_grows(pkgs, name, len + 1, k);
    } else {
        assert(pkgs.take(len) =~= pkgs);
    }
}

proof fn lemma_first_named_bounds(pkgs: Seq<PackageView>, name: Seq<char>)
    ensures
        match first_named(pkgs, name) {
            Some(k) => 0 <= k < pkgs.len() && pkgs[k].name == name,
            None => forall|i: int| 0 <= i < pkgs.len() ==> pkgs[i].name != name,
        },
    decreases pkgs.len(),
{
    if pkgs.len() > 0 {
        lemma_first_named_bounds(pkgs.drop_last(), name);
        match first_named(pkgs.drop_last(), name) {
            Some(k) => {
                assert(pkgs.drop_last()[k] == pkgs[k]);
            },
            None => {
                assert forall|i: int| 0 <= i < pkgs.len() - 1 implies pkgs[i].name != name by {
                    assert(pkgs.drop_last()[i] == pkgs[i]);
                }
            },
        }
    }
}

/// The package that `dep` leads to, if it is followed and such a package
/// exists.
pub fn find_target(pkgs: &Vec<(Package, String)>, dep: &Dependency) -> (r: Option<usize>)
    ensures
        match r {
            Some(j) => j < pkgs.len() && target(package_views(pkgs@), dep@) == Some(j as int),
            None => target(package_views(pkgs@), dep@).is_none(),
        },
{
    let followed = match dep.kind {
        DependencyKind::Normal => true,
        DependencyKind::Build => true,
        DependencyKind::Development => false,
        DependencyKind::Unknown => false,
    };
    if !followed || dep.path.is_none() {
        return None;
    }
    let ghost views = package_views(pkgs@);
    let mut k: usize = 0;
    while k < pkgs.len()
        invariant
            k <= pkgs.len(),
            views == package_views(pkgs@),
            follows(dep@),
            first_named(views.take(k as int), dep@.name).is_none(),
        decreases pkgs.len() - k,
    {
        proof {
            assert(views.take(k + 1).drop_last() =~= views.take(k as int));
            assert(views.take(k + 1).last() == pkgs@[k as int].0@);
        }
        if pkgs[k].0.name == dep.name {
            proof {
                assert(views.take(k + 1).last().name == dep@.name);
                assert(first_named(views.take(k + 1), dep@.name) == Some(k as int));
                lemma_first_named_grows(views, dep@.name, k + 1, k as int);
            }
            return Some(k);
        }
        k += 1;
    }
    assert(views.take(pkgs@.len() as int) =~= views);
    None
}

/// Whether the package that `d` leads to, if any, is in `order`.
pub open spec fn target_listed(pkgs: Seq<PackageView>, d: DependencyView, order: Seq<Seq<char>>) -> bool {
    match target(pkgs, d) {
        Some(j) => order.contains(pkgs[j].manifest_path),
        None => true,
    }
}

/// A rank that falls along every edge, where there is one.
pub open spec fn some_rank(pkgs: Seq<PackageView>) -> spec_fn(int) -> nat {
    choose|rank: spec_fn(int) -> nat| ranked(pkgs, rank)
}

/// Whether `stack` names packages, none of them twice.
pub open spec fn is_trail(stack: Seq<usize>, n: nat) -> bool {
    &&& stack.no_duplicates()
    &&& forall|k: int| 0 <= k < stack.len() ==> #[trigger] stack[k] < n
}

/// Whether no package on `stack` is in `order`.
pub open spec fn none_listed(pkgs: Seq<PackageView>, stack: Seq<usize>, order: Seq<Seq<char>>) -> bool {
    forall|k: int|
        0 <= k < stack.len() ==> !order.contains(pkgs[#[trigger] stack[k] as int].manifest_path)
}

/// Whether every package on `stack` ranks above package `i`.
pub open spec fn above(pkgs: Seq<PackageView>, stack: Seq<usize>, i: int) -> bool {
    forall|k: int|
        0 <= k < stack.len() ==> some_rank(pkgs)(#[trigger] stack[k] as int) > some_rank(pkgs)(i)
}

proof fn lemma_trail_bound(stack: Seq<usize>, n: nat)
    requires
        is_trail(stack, n),
    ensures
        stack.len() <= n,
{
    let t = stack.map_values(|x: usize| x as int);
    assert(t.no_duplicates()) by {
        assert forall|a: int, b: int| 0 <= a < t.len() && 0 <= b < t.len() && a != b implies t[a]
            != t[b] by {
            assert(stack[a] != stack[b]);
        }
    }
    t.unique_seq_to_set();
    vstd::set_lib::lemma_int_range(0, n as int);
    assert(t.to_set().subset_of(vstd::set_lib::set_int_range(0, n as int))) by {
        assert forall|x: int| t.to_set().contains(x) implies vstd::set_lib::set_int_range(
            0,
            n as int,
        ).contains(x) by {
            let k = choose|k: int| 0 <= k < t.len() && t[k] == x;
            assert(stack[k] < n);
        }
    }
    vstd::set_lib::lemma_len_subset(t.to_set(), vstd::set_lib::set_int_range(0, n as int));
}

proof fn lemma_prefix_contains(a: Seq<Seq<char>>, b: Seq<Seq<char>>, x: Seq<char>)
    requires
        a.is_prefix_of(b),
        a.contains(x),
    ensures
        b.contains(x),
{
    let k = choose|k: int| 0 <= k < a.len() && a[k] == x;
    assert(b[k] == x);
}

proof fn lemma_listing_grows(
    pkgs: Seq<PackageView>,
    order: Seq<Seq<char>>,
    i: int,
)
    requires
        0 <= i < pkgs.len(),
        distinct_paths(pkgs),
        dependencies_first(pkgs, order),
        !order.contains(pkgs[i].manifest_path),
        forall|j: int| edge(pkgs, i, j) ==> order.contains(pkgs[j].manifest_path),
    ensures
        dependencies_first(pkgs, order.push(pkgs[i].manifest_path)),
{
    let next = order.push(pkgs[i].manifest_path);
    assert forall|p: int, j: int, b: int|
        #![trigger edge(pkgs, p, j), next[b]]
        edge(pkgs, p, j) && 0 <= b < next.len() && next[b] == pkgs[p].manifest_path implies exists|
        a: int,
    |
        0 <= a < b && next[a] == pkgs[j].manifest_path by {
        if b < order.len() {
            assert(order[b] == next[b]);
            let a = choose|a: int| 0 <= a < b && order[a] == pkgs[j].manifest_path;
            assert(next[a] == order[a]);
        } else {
            assert(p == i) by {
                if p < i {
                    assert(pkgs[p].manifest_path != pkgs[i].manifest_path);
                } else if i < p {
                    assert(pkgs[i].manifest_path != pkgs[p].manifest_path);
                }
            }
            assert(order.contains(pkgs[j].manifest_path));
            let a = choose|a: int| 0 <= a < order.len() && order[a] == pkgs[j].manifest_path;
            assert(next[a] == order[a]);
        }
    }
}

/// The order after package `i` was listed in `order`: nothing changes
/// where the package is listed already or is on `stack`; else the packages
/// that its followed dependencies lead to are listed first, one dependency
/// after the other, and then the package itself.
pub open spec fn listed_after(
    pkgs: Seq<PackageView>,
    i: usize,
    order: Seq<Seq<char>>,
    stack: Seq<usize>,
) -> Seq<Seq<char>>
    decreases pkgs.len() - stack.len(), 0int, 0int,
{
    if i >= pkgs.len() || order.contains(pkgs[i as int].manifest_path) || stack.contains(i)
        || stack.len() >= pkgs.len() {
        order
    } else {
        let deeper = listed_after_dependencies(pkgs, i, 0, order, stack.push(i));
        if deeper.contains(pkgs[i as int].manifest_path) {
            deeper
        } else {
            deeper.push(pkgs[i as int].manifest_path)
        }
    }
}

/// The order after the packages were listed that the dependencies of
/// package `i` lead to, from dependency `k` on.
pub open spec fn listed_after_dependencies(
    pkgs: Seq<PackageView>,
    i: usize,
    k: int,
    order: Seq<Seq<char>>,
    stack: Seq<usize>,
) -> Seq<Seq<char>>
    decreases pkgs.len() - stack.len(), 1int, pkgs[i as int].dependencies.len() - k,
{
    if i >= pkgs.len() || k < 0 || k >= pkgs[i as int].dependencies.len() {
        order
    } else {
        match target(pkgs, pkgs[i as int].dependencies[k]) {
            Some(j) => listed_after_dependencies(
                pkgs,
                i,
                k + 1,
                listed_after(pkgs, j as usize, order, stack),
                stack,
            ),
            None => listed_after_dependencies(pkgs, i, k + 1, order, stack),
        }
    }
}

/// The order of the first `upto` packages: each is listed in turn, after the
/// packages that its followed dependencies lead to.
pub open spec fn order_of(pkgs: Seq<PackageView>, upto: int) -> Seq<Seq<char>>
    decreases upto,
{
    if upto <= 0 {
        seq![]
    } else {
        listed_after(pkgs, (upto - 1) as usize, order_of(pkgs, upto - 1), seq![])
    }
}

/// Whether `i` is on `stack`.
fn on_stack(stack: &Vec<usize>, i: usize) -> (r: bool)
    ensures
        r == stack@.contains(i),
{
    let mut k: usize = 0;
    while k < stack.len()
        invariant
            k <= stack.len(),
            forall|m: int| 0 <= m < k ==> stack@[m] != i,
        decreases stack.len() - k,
    {
        if stack[k] == i {
            return true;
        }
        k += 1;
    }
    false
}

/// Lists package `i` after the packages that its followed dependencies lead
/// to. `stack` holds the packages whose dependencies are being listed; a
/// dependency that leads back to one of them is passed over.
fn visit(
    pkgs: &Vec<(Package, String)>,
    i: usize,
    visited: &mut IndexSet<String>,
    stack: &mut Vec<usize>,
)
    requires
        i < pkgs.len(),
        distinct_paths(package_views(pkgs@)),
        is_trail(old(stack)@, pkgs@.len()),
        lists_packages(package_views(pkgs@), items(*old(visited))),
        none_listed(package_views(pkgs@), old(stack)@, items(*old(visited))),
        acyclic(package_views(pkgs@)) ==> dependencies_first(
            package_views(pkgs@),
            items(*old(visited)),
        ) && above(package_views(pkgs@), old(stack)@, i as int),
    ensures
        final(stack)@ == old(stack)@,
        items(*final(visited)) == listed_after(
            package_views(pkgs@),
            i,
            items(*old(visited)),
            old(stack)@,
        ),
        lists_packages(package_views(pkgs@), items(*final(visited))),
        none_listed(package_views(pkgs@), old(stack)@, items(*final(visited))),
        items(*old(visited)).is_prefix_of(items(*final(visited))),
        items(*final(visited)).contains(pkgs@[i as int].0@.manifest_path) || old(stack)@.contains(
            i,
        ),
        acyclic(package_views(pkgs@)) ==> dependencies_first(
            package_views(pkgs@),
            items(*final(visited)),
        ),
    decreases pkgs@.len() - old(stack)@.len(),
{
    let ghost views = package_views(pkgs@);
    let ghost before = items(*visited);
    let ghost trail = stack@;
    let path = &pkgs[i].0.manifest_path;
    assert(views[i as int] == pkgs@[i as int].0@);
    if holds(visited, path.as_str()) {
        return ;
    }
    if on_stack(stack, i) {
        return ;
    }
    stack.push(i);
    proof {
        assert(is_trail(stack@, pkgs@.len())) by {
            assert forall|a: int, b: int|
                0 <= a < stack@.len() && 0 <= b < stack@.len() && a != b implies stack@[a]
                != stack@[b] by {
                if a < trail.len() && b < trail.len() {
                    assert(trail[a] != trail[b]);
                } else if a < trail.len() {
                    assert(trail[a] != i);
                } else {
                    assert(trail[b] != i);
                }
            }
        }
        lemma_trail_bound(stack@, pkgs@.len() as nat);
    }
    let deps = &pkgs[i].0.dependencies;
    let mut k: usize = 0;
    while k < deps.len()
        invariant
            k <= deps.len(),
            i < pkgs.len(),
            deps == &pkgs@[i as int].0.dependencies,
            views == package_views(pkgs@),
            views[i as int] == pkgs@[i as int].0@,
            distinct_paths(views),
            trail == old(stack)@,
            stack@ == trail.push(i),
            is_trail(stack@, pkgs@.len()),
            stack@.len() <= pkgs@.len(),
            lists_packages(views, items(*visited)),
            none_listed(views, stack@, items(*visited)),
            before.is_prefix_of(items(*visited)),
            listed_after_dependencies(views, i, 0, before, trail.push(i))
                == listed_after_dependencies(views, i, k as int, items(*visited), trail.push(i)),
            acyclic(views) ==> dependencies_first(views, items(*visited)) && above(
                views,
                trail,
                i as int,
            ),
            acyclic(views) ==> forall|m: int|
                0 <= m < k ==> target_listed(
                    views,
                    #[trigger] views[i as int].dependencies[m],
                    items(*visited),
                ),
        decreases deps.len() - k,
    {
        assert(views[i as int].dependencies[k as int] == deps@[k as int]@);
        let ghost listed = items(*visited);
        match find_target(pkgs, &deps[k]) {
            Some(j) => {
                proof {
                    assert(views[j as int] == pkgs@[j as int].0@);
                    if acyclic(views) {
                        assert(edge(views, i as int, j as int));
                        assert(ranked(views, some_rank(views)));
                        assert(above(views, stack@, j as int)) by {
                            assert forall|m: int| 0 <= m < stack@.len() implies some_rank(views)(
                                #[trigger] stack@[m] as int,
                            ) > some_rank(views)(j as int) by {
                                if m < trail.len() {
                                    assert(stack@[m] == trail[m]);
                                }
                            }
                        }
                    }
                }
                visit(pkgs, j, visited, stack);
                proof {
                    if acyclic(views) {
                        if stack@.contains(j) {
                            let m = choose|m: int| 0 <= m < stack@.len() && stack@[m] == j;
                            assert(some_rank(views)(stack@[m] as int) > some_rank(views)(j as int));
                        }
                        assert(items(*visited).contains(views[j as int].manifest_path));
                    }
                }
            },
            None => {},
        }
        proof {
            assert(before.is_prefix_of(items(*visited)));
            if acyclic(views) {
                assert forall|m: int| 0 <= m < k + 1 implies target_listed(
                    views,
                    #[trigger] views[i as int].dependencies[m],
                    items(*visited),
                ) by {
                    if m < k {
                        assert(target_listed(views, views[i as int].dependencies[m], listed));
                        match target(views, views[i as int].dependencies[m]) {
                            Some(j) => {
                                lemma_prefix_contains(
                                    listed,
                                    items(*visited),
                                    views[j].manifest_path,
                                );
                            },
                            None => {},
                        }
                    }
                }
            }
        }
        k += 1;
    }
    stack.pop();
    assert(stack@ =~= trail);
    let ghost listed = items(*visited);
    assert(listed == listed_after_dependencies(views, i, 0, before, trail.push(i)));
    assert(trail.len() < pkgs@.len());
    proof {
        assert(!listed.contains(views[i as int].manifest_path)) by {
            assert(trail.push(i)[trail.len() as int] == i);
        }
        assert(none_listed(views, trail, listed)) by {
            assert forall|m: int| 0 <= m < trail.len() implies !listed.contains(
                views[#[trigger] trail[m] as int].manifest_path,
            ) by {
                assert(trail.push(i)[m] == trail[m]);
            }
        }
    }
    insert(visited, path.clone());
    proof {
        let p = views[i as int].manifest_path;
        let after = items(*visited);
        assert(after == listed.push(p));
        assert(after[listed.len() as int] == p);
        assert(after.contains(p));
        assert(lists_packages(views, after)) by {
            assert(is_manifest(views, p));
            assert forall|a: int| 0 <= a < after.len() implies is_manifest(
                views,
                #[trigger] after[a],
            ) by {
                if a < listed.len() {
                    assert(after[a] == listed[a]);
                }
            }
            assert forall|a: int, b: int|
                0 <= a < after.len() && 0 <= b < after.len() && a != b implies after[a]
                != after[b] by {
                if a < listed.len() && b < listed.len() {
                    assert(listed[a] != listed[b]);
                } else if a < listed.len() {
                    assert(listed[a] == after[a]);
                } else {
                    assert(listed[b] == after[b]);
                }
            }
        }
        assert(none_listed(views, trail, after)) by {
            assert forall|m: int| 0 <= m < trail.len() implies !after.contains(
                views[#[trigger] trail[m] as int].manifest_path,
            ) by {
                let q = views[trail[m] as int].manifest_path;
                assert(trail[m] != i);
                if trail[m] < i {
                    assert(views[trail[m] as int].manifest_path != views[i as int].manifest_path);
                } else {
                    assert(views[i as int].manifest_path != views[trail[m] as int].manifest_path);
                }
                if after.contains(q) {
                    let a = choose|a: int| 0 <= a < after.len() && after[a] == q;
                    if a < listed.len() {
                        assert(listed[a] == q);
                    }
                }
            }
        }
        assert(before.is_prefix_of(after)) by {
            assert(listed.is_prefix_of(after));
        }
        if acyclic(views) {
            assert forall|j: int| edge(views, i as int, j) implies listed.contains(
                views[j].manifest_path,
            ) by {
                let m = choose|m: int|
                    0 <= m < views[i as int].dependencies.len() && #[trigger] target(
                        views,
                        views[i as int].dependencies[m],
                    ) == Some(j);
                assert(views[i as int].dependencies.len() == deps@.len());
                assert(target_listed(views, views[i as int].dependencies[m], listed));
            }
            lemma_listing_grows(views, listed, i as int);
        }
    }
}

/// Lists package `index`, after the packages that its followed dependencies
/// lead to, unless `visited` has it already.
pub fn ins(pkgs: &Vec<(Package, String)>, index: usize, visited: &mut IndexSet<String>)
    requires
        index < pkgs.len(),
        distinct_paths(package_views(pkgs@)),
        lists_packages(package_views(pkgs@), items(*old(visited))),
        acyclic(package_views(pkgs@)) ==> dependencies_first(
            package_views(pkgs@),
            items(*old(visited)),
        ),
    ensures
        items(*final(visited)) == listed_after(
            package_views(pkgs@),
            index,
            items(*old(visited)),
            seq![],
        ),
        lists_packages(package_views(pkgs@), items(*final(visited))),
        items(*old(visited)).is_prefix_of(items(*final(visited))),
        items(*final(visited)).contains(pkgs@[index as int].0@.manifest_path),
        acyclic(package_views(pkgs@)) ==> dependencies_first(
            package_views(pkgs@),
            items(*final(visited)),
        ),
{
    let mut stack: Vec<usize> = Vec::new();
    visit(pkgs, index, visited, &mut stack);
}

/// The order in which to process the packages: the packages are listed one
/// after the other, each after the packages that its followed dependencies
/// lead to. Each package is there once, by its manifest path, and after
/// every package that one of its followed dependencies leads to, as long as
/// those dependencies form no cycle.
pub fn dag(pkgs: &Vec<(Package, String)>) -> (visited: IndexSet<String>)
    requires
        distinct_paths(package_views(pkgs@)),
    ensures
        items(visited) == order_of(package_views(pkgs@), pkgs@.len() as int),
        lists_packages(package_views(pkgs@), items(visited)),
        lists_all(package_views(pkgs@), items(visited)),
        acyclic(package_views(pkgs@)) ==> dependencies_first(package_views(pkgs@), items(visited)),
{
    let ghost views = package_views(pkgs@);
    let mut visited = empty_set();
    let mut i: usize = 0;
    while i < pkgs.len()
        invariant
            i <= pkgs.len(),
            views == package_views(pkgs@),
            distinct_paths(views),
            items(visited) == order_of(views, i as int),
            lists_packages(views, items(visited)),
            forall|m: int| 0 <= m < i ==> items(visited).contains(#[trigger] views[m].manifest_path),
            acyclic(views) ==> dependencies_first(views, items(visited)),
        decreases pkgs.len() - i,
    {
        let ghost listed = items(visited);
        ins(pkgs, i, &mut visited);
        proof {
            assert(views[i as int] == pkgs@[i as int].0@);
            assert forall|m: int| 0 <= m < i + 1 implies items(visited).contains(
                #[trigger] views[m].manifest_path,
            ) by {
                if m < i {
                    lemma_prefix_contains(listed, items(visited), views[m].manifest_path);
                }
            }
        }
        i += 1;
    }
    visited
}

/// The index of the first package whose manifest lies at `path`, if any.
pub open spec fn first_at(pkgs: Seq<PackageView>, path: Seq<char>) -> Option<int>
    decreases pkgs.len(),
{
    if pkgs.len() == 0 {
        None
    } else {
        match first_at(pkgs.drop_last(), path) {
            Some(k) => Some(k),
            None => if pkgs.last().manifest_path == path {
                Some(pkgs.len() - 1)
            } else {
                None
            },
        }
    }
}

/// Whether the manifest at `path` belongs to a package that may be
/// published.
pub open spec fn publishable(pkgs: Seq<PackageView>, path: Seq<char>) -> bool {
    match first_at(pkgs, path) {
        Some(k) => !pkgs[k].private,
        None => false,
    }
}

proof fn lemma_first_at_grows(pkgs: Seq<PackageView>, path: Seq<char>, len: int, k: int)
    requires
        0 <= len <= pkgs.len(),
        first_at(pkgs.take(len), path) == Some(k),
    ensures
        first_at(pkgs, path) == Some(k),
    decreases pkgs.len() - len,
{
    if len < pkgs.len() {
        assert(pkgs.take(len + 1).drop_last() =~= pkgs.take(len));
        lemma_first_at_grows(pkgs, path, len + 1, k);
    } else {
        assert(pkgs.take(len) =~= pkgs);
    }
}

/// The first package whose manifest lies at `path`.
pub fn find_package(pkgs: &Vec<(Package, String)>, path: &str) -> (r: Option<usize>)
    ensures
        match r {
            Some(k) => k < pkgs.len() && first_at(package_views(pkgs@), path@) == Some(k as int)
                && pkgs@[k as int].0@.manifest_path == path@,
            None => first_at(package_views(pkgs@), path@).is_none(),
        },
{
    let ghost views = package_views(pkgs@);
    let mut k: usize = 0;
    while k < pkgs.len()
        invariant
            k <= pkgs.len(),
            views == package_views(pkgs@),
            first_at(views.take(k as int), path@).is_none(),
        decreases pkgs.len() - k,
    {
        proof {
            assert(views.take(k + 1).drop_last() =~= views.take(k as int));
            assert(views.take(k + 1).last() == pkgs@[k as int].0@);
        }
        if crate::text::str_eq(pkgs[k].0.manifest_path.as_str(), path) {
            proof {
                assert(first_at(views.take(k + 1), path@) == Some(k as int));
                lemma_first_at_grows(views, path@, k + 1, k as int);
            }
            return Some(k);
        }
        k += 1;
    }
    assert(views.take(pkgs@.len() as int) =~= views);
    None
}

/// The manifest paths of `visited` whose packages may be published, in the
/// same order.
pub fn filter_private(visited: IndexSet<String>, pkgs: &Vec<(Package, String)>) -> (r: IndexSet<
    String,
>)
    ensures
        items(r) == items(visited).filter(|p: Seq<char>| publishable(package_views(pkgs@), p)),
{
    let ghost views = package_views(pkgs@);
    let ghost keep = |p: Seq<char>| publishable(views, p);
    let list = crate::ordered::listed(&visited);
    let ghost all = crate::lines::texts(list@);
    let mut out = empty_set();
    let mut k: usize = 0;
    proof {
        assert(all.take(0) =~= Seq::<Seq<char>>::empty());
        all.take(0).lemma_filter_len(keep);
        assert(all.take(0).filter(keep) =~= Seq::<Seq<char>>::empty());
    }
    while k < list.len()
        invariant
            k <= list.len(),
            views == package_views(pkgs@),
            keep == |p: Seq<char>| publishable(views, p),
            all == crate::lines::texts(list@),
            all.no_duplicates(),
            items(out) == all.take(k as int).filter(keep),
        decreases list.len() - k,
    {
        let path = &list[k];
        let ghost done = all.take(k as int);
        proof {
            assert(all.take(k + 1) =~= done.push(path@));
            done.lemma_filter_push(path@, keep);
            if done.filter(keep).contains(path@) {
                done.lemma_filter_contains_rev(keep, path@);
                let a = choose|a: int| 0 <= a < done.len() && done[a] == path@;
                assert(all[a] == all[k as int]);
            }
        }
        let public = match find_package(pkgs, path.as_str()) {
            Some(i) => {
                assert(views[i as int] == pkgs@[i as int].0@);
                !crate::package::is_private(&pkgs[i].0)
            },
            None => false,
        };
        assert(public == keep(path@));
        if public {
            insert(&mut out, path.clone());
        }
        k += 1;
    }
    assert(all.take(list@.len() as int) =~= all);
    out
}

/// A dependency that does not resolve to a path of the workspace leads to
/// no package, whatever it is called; so it makes no edge.
pub proof fn lemma_unresolved_dependency_is_not_followed(pkgs: Seq<PackageView>, d: DependencyView)
    requires
        !d.local,
    ensures
        target(pkgs, d).is_none(),
{
}

/// Every edge comes from a dependency that is needed to build or run the
/// package and resolves to a path of the workspace.
pub proof fn lemma_edges_are_local(pkgs: Seq<PackageView>, i: int, j: int)
    requires
        edge(pkgs, i, j),
    ensures
        exists|k: int|
            0 <= k < pkgs[i].dependencies.len() && follows(#[trigger] pkgs[i].dependencies[k])
                && pkgs[i].dependencies[k].name == pkgs[j].name,
{
    let k = choose|k: int|
        0 <= k < pkgs[i].dependencies.len() && #[trigger] target(pkgs, pkgs[i].dependencies[k])
            == Some(j);
    lemma_first_named_bounds(pkgs, pkgs[i].dependencies[k].name);
    assert(follows(pkgs[i].dependencies[k]));
}

/// In the order of an acyclic workspace each package stands at a later
/// place than every package that one of its followed dependencies leads to.
pub proof fn lemma_order_is_topological(
    pkgs: Seq<PackageView>,
    order: Seq<Seq<char>>,
    i: int,
    j: int,
)
    requires
        lists_packages(pkgs, order),
        lists_all(pkgs, order),
        dependencies_first(pkgs, order),
        edge(pkgs, i, j),
    ensures
        order.contains(pkgs[i].manifest_path),
        order.contains(pkgs[j].manifest_path),
        order.index_of(pkgs[j].manifest_path) < order.index_of(pkgs[i].manifest_path),
{
    let p = pkgs[i].manifest_path;
    assert(order.contains(p));
    let b = order.index_of(p);
    assert(0 <= b < order.len() && order[b] == p);
    let a = choose|a: int| 0 <= a < b && order[a] == pkgs[j].manifest_path;
    assert(order[a] == pkgs[j].manifest_path);
    let a2 = order.index_of(pkgs[j].manifest_path);
    assert(0 <= a2 < order.len() && order[a2] == pkgs[j].manifest_path);
    if a2 != a {
        assert(order[a2] != order[a]);
    }
}

} // verus!
