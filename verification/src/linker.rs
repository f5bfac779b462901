//! Which packages the link includes: the transitive closure of the import
//! graph from the entry package. Packages present in a program but never
//! imported, directly or transitively, from the entry are excluded from
//! the link.

use vstd::prelude::*;
use vstd::pervasive::VecAdditionalExecFns;

use crate::fsmodel::distinct;
use crate::fsmodel::lemma_distinct_push;
use crate::fsmodel::views_of;
use crate::program::main_pkg_view;
use crate::program::Program;
use crate::program::Scope;
use crate::strutil::str_eq;

verus! {

/// The package path of each import-graph entry, in entry order.
pub open spec fn scope_pkg_views(s: Scope) -> Seq<Seq<char>> {
    s.import_names@.map_values(|e: crate::program::ImportEntry| e.pkgpath@)
}

/// The package paths entry `i` imports.
pub open spec fn imports_views(s: Scope, i: int) -> Seq<Seq<char>> {
    views_of(s.import_names@[i].imports@)
}

/// `rv` is closed under the import graph: every import of a member whose
/// imports are recorded is itself a member.
pub open spec fn closed_under_imports(s: Scope, rv: Seq<Seq<char>>) -> bool {
    forall|i: int, j: int|
        0 <= i < s.import_names@.len() && rv.contains(scope_pkg_views(s)[i]) && 0 <= j
            < imports_views(s, i).len() ==> rv.contains(#[trigger] imports_views(s, i)[j])
}

/// Every member of `rv` past the entry is an import of an earlier member:
/// nothing enters the closure except through the import graph.
pub open spec fn grounded_in_imports(s: Scope, rv: Seq<Seq<char>>) -> bool {
    forall|k: int| #![trigger rv[k]]
        1 <= k < rv.len() ==> exists|m: int, i: int|
            #![trigger rv[m], scope_pkg_views(s)[i]]
            0 <= m < k && 0 <= i < s.import_names@.len() && scope_pkg_views(s)[i] == rv[m]
                && imports_views(s, i).contains(rv[k])
}

/// The number of true entries.
spec fn num_true(s: Seq<bool>) -> int
    decreases s.len(),
{
    if s.len() == 0 {
        0
    } else {
        num_true(s.drop_last()) + if s.last() {
            1int
        } else {
            0int
        }
    }
}

proof fn lemma_num_true_bound(s: Seq<bool>)
    ensures
        0 <= num_true(s) <= s.len(),
    decreases s.len(),
{
    if s.len() > 0 {
        lemma_num_true_bound(s.drop_last());
    }
}

proof fn lemma_num_true_set(s: Seq<bool>, i: int)
    requires
        0 <= i < s.len(),
        !s[i],
    ensures
        num_true(s.update(i, true)) == num_true(s) + 1,
    decreases s.len(),
{
    let t = s.update(i, true);
    if i == s.len() - 1 {
        assert(t.drop_last() =~= s.drop_last());
        assert(t.last());
    } else {
        assert(t.drop_last() =~= s.drop_last().update(i, true));
        assert(t.last() == s.last());
        lemma_num_true_set(s.drop_last(), i);
    }
}

/// Whether some element of `v` views as `p`.
fn vec_contains_str(v: &Vec<String>, p: &str) -> (r: bool)
    ensures
        r == views_of(v@).contains(p@),
{
    let mut i: usize = 0;
    while i < v.len()
        invariant
            i <= v@.len(),
            forall|j: int| 0 <= j < i ==> views_of(v@)[j] != p@,
        decreases v@.len() - i,
    {
        if str_eq(v[i].as_str(), p) {
            assert(views_of(v@)[i as int] == p@);
            return true;
        }
        i = i + 1;
    }
    false
}

/// The package paths reachable from the entry package through the import
/// graph, entry first, each listed once: the closure is closed under the
/// recorded imports, and contains nothing that the graph does not ground
/// in the entry.
pub fn reachable_pkgs(scope: &Scope) -> (r: Vec<String>)
    ensures
        r@.len() >= 1,
        views_of(r@)[0] == main_pkg_view(),
        distinct(views_of(r@)),
        grounded_in_imports(*scope, views_of(r@)),
        closed_under_imports(*scope, views_of(r@)),
{
    let n = scope.import_names.len();
    let mut visited: Vec<String> = Vec::new();
    visited.push(String::from_str(crate::main_pkg_name()));
    let mut processed: Vec<bool> = Vec::new();
    let mut k: usize = 0;
    while k < n
        invariant
            k <= n,
            processed@.len() == k,
            forall|j: int| 0 <= j < k ==> !processed@[j],
        decreases n - k,
    {
        processed.push(false);
        k = k + 1;
    }
    proof {
        lemma_num_true_bound(processed@);
        assert(views_of(visited@) =~= Seq::<Seq<char>>::empty().push(main_pkg_view()));
    }
    let mut go = true;
    while go
        invariant
            n == scope.import_names@.len(),
            processed@.len() == n,
            0 <= num_true(processed@) <= n,
            visited@.len() >= 1,
            views_of(visited@)[0] == main_pkg_view(),
            distinct(views_of(visited@)),
            grounded_in_imports(*scope, views_of(visited@)),
            forall|i: int|
                0 <= i < n && #[trigger] processed@[i] ==> forall|j: int|
                    0 <= j < imports_views(*scope, i).len() ==> views_of(visited@).contains(
                        #[trigger] imports_views(*scope, i)[j],
                    ),
            !go ==> forall|i: int|
                0 <= i < n ==> #[trigger] processed@[i] || !views_of(visited@).contains(
                    scope_pkg_views(*scope)[i],
                ),
        decreases 2 * (n - num_true(processed@)) + if go {
            1int
        } else {
            0int
        },
    {
        let mut found = n;
        let mut i: usize = 0;
        while i < n
            invariant_except_break
                n == scope.import_names@.len(),
                processed@.len() == n,
                i <= n,
                found == n,
                forall|j: int|
                    0 <= j < i ==> #[trigger] processed@[j] || !views_of(visited@).contains(
                        scope_pkg_views(*scope)[j],
                    ),
            ensures
                found <= n,
                found == n ==> forall|j: int|
                    0 <= j < n ==> #[trigger] processed@[j] || !views_of(visited@).contains(
                        scope_pkg_views(*scope)[j],
                    ),
                found < n ==> !processed@[found as int] && views_of(visited@).contains(
                    scope_pkg_views(*scope)[found as int],
                ),
            decreases n - i,
        {
            if !processed[i] {
                if vec_contains_str(&visited, scope.import_names[i].pkgpath.as_str()) {
                    assert(scope.import_names@[i as int].pkgpath@ == scope_pkg_views(*scope)[
                        i as int
                    ]);
                    found = i;
                    break ;
                }
            }
            proof {
                assert(scope.import_names@[i as int].pkgpath@ == scope_pkg_views(*scope)[
                    i as int
                ]);
            }
            i = i + 1;
        }
        if found == n {
            go = false;
        } else {
            let e = found;
            let imports_len = scope.import_names[e].imports.len();
            let mut j: usize = 0;
            while j < imports_len
                invariant
                    n == scope.import_names@.len(),
                    processed@.len() == n,
                    e < n,
                    !processed@[e as int],
                    imports_len == imports_views(*scope, e as int).len(),
                    j <= imports_len,
                    visited@.len() >= 1,
                    views_of(visited@)[0] == main_pkg_view(),
                    distinct(views_of(visited@)),
                    grounded_in_imports(*scope, views_of(visited@)),
                    views_of(visited@).contains(scope_pkg_views(*scope)[e as int]),
                    forall|q: int|
                        0 <= q < j ==> views_of(visited@).contains(
                            #[trigger] imports_views(*scope, e as int)[q],
                        ),
                    forall|i: int|
                        0 <= i < n && #[trigger] processed@[i] ==> forall|q: int|
                            0 <= q < imports_views(*scope, i).len() ==> views_of(
                                visited@,
                            ).contains(#[trigger] imports_views(*scope, i)[q]),
                decreases imports_len - j,
            {
                let import = &scope.import_names[e].imports[j];
                assert(import@ == imports_views(*scope, e as int)[j as int]);
                if !vec_contains_str(&visited, import.as_str()) {
                    let ghost vv_pre = views_of(visited@);
                    let ghost m0 = choose|m: int|
                        0 <= m < vv_pre.len() && vv_pre[m] == scope_pkg_views(*scope)[e as int];
                    visited.push(import.clone());
                    proof {
                        assert(views_of(visited@) =~= vv_pre.push(
                            imports_views(*scope, e as int)[j as int],
                        ));
                        assert forall|t: int| 0 <= t < vv_pre.len() implies vv_pre[t]
                            != imports_views(*scope, e as int)[j as int] by {
                            assert(!vv_pre.contains(imports_views(*scope, e as int)[j as int]));
                        }
                        lemma_distinct_push(vv_pre, imports_views(*scope, e as int)[j as int]);
                        assert forall|p: Seq<char>| vv_pre.contains(p) implies views_of(
                            visited@,
                        ).contains(p) by {
                            let idx = choose|idx: int|
                                0 <= idx < vv_pre.len() && vv_pre[idx] == p;
                            assert(views_of(visited@)[idx] == p);
                        }
                        assert(views_of(visited@)[views_of(visited@).len() - 1] == imports_views(
                            *scope,
                            e as int,
                        )[j as int]);
                        assert forall|t: int| #![trigger views_of(visited@)[t]]
                            1 <= t < views_of(visited@).len() implies exists|m: int, i: int|
                            #![trigger views_of(visited@)[m], scope_pkg_views(*scope)[i]]
                            0 <= m < t && 0 <= i < scope.import_names@.len() && scope_pkg_views(
                                *scope,
                            )[i] == views_of(visited@)[m] && imports_views(*scope, i).contains(
                                views_of(visited@)[t],
                            ) by {
                            if t < vv_pre.len() {
                                assert(views_of(visited@)[t] == vv_pre[t]);
                                let (m1, i1) = choose|m: int, i: int|
                                    #![trigger vv_pre[m], scope_pkg_views(*scope)[i]]
                                    0 <= m < t && 0 <= i < scope.import_names@.len()
                                        && scope_pkg_views(*scope)[i] == vv_pre[m]
                                        && imports_views(*scope, i).contains(vv_pre[t]);
                                assert(views_of(visited@)[m1] == vv_pre[m1]);
                                assert(0 <= m1 < t && 0 <= i1 < scope.import_names@.len()
                                    && scope_pkg_views(*scope)[i1] == views_of(visited@)[m1]
                                    && imports_views(*scope, i1).contains(
                                    views_of(visited@)[t],
                                ));
                            } else {
                                assert(views_of(visited@)[m0] == vv_pre[m0]);
                                assert(0 <= m0 < t && 0 <= e < scope.import_names@.len()
                                    && scope_pkg_views(*scope)[e as int] == views_of(visited@)[
                                    m0
                                ] && imports_views(*scope, e as int).contains(
                                    views_of(visited@)[t],
                                ));
                            }
                        }
                    }
                }
                j = j + 1;
            }
            let ghost processed_pre = processed@;
            processed.set(e, true);
            proof {
                assert(processed@ =~= processed_pre.update(e as int, true));
                lemma_num_true_set(processed_pre, e as int);
                lemma_num_true_bound(processed@);
            }
        }
    }
    proof {
        assert forall|i: int, j: int|
            0 <= i < scope.import_names@.len() && views_of(visited@).contains(
                scope_pkg_views(*scope)[i],
            ) && 0 <= j < imports_views(*scope, i).len() implies views_of(visited@).contains(
            #[trigger] imports_views(*scope, i)[j],
        ) by {
            assert(processed@[i]);
        }
    }
    visited
}

/// The non-entry objects the link takes, in package order: one object per
/// package of the program that the closure reaches, skipping the entry
/// package.
pub open spec fn non_entry_selection(
    pp: Seq<Seq<char>>,
    ov: Seq<Seq<char>>,
    rv: Seq<Seq<char>>,
    n: int,
) -> Seq<Seq<char>>
    decreases n,
{
    if n <= 0 {
        Seq::empty()
    } else if !crate::program::is_entry_path(pp[n - 1]) && rv.contains(pp[n - 1]) {
        non_entry_selection(pp, ov, rv, n - 1).push(ov[n - 1])
    } else {
        non_entry_selection(pp, ov, rv, n - 1)
    }
}

/// The entry objects, in package order: one per entry package (at most one
/// in a well-formed program).
pub open spec fn entry_selection(pp: Seq<Seq<char>>, ov: Seq<Seq<char>>, n: int) -> Seq<
    Seq<char>,
>
    decreases n,
{
    if n <= 0 {
        Seq::empty()
    } else if crate::program::is_entry_path(pp[n - 1]) {
        entry_selection(pp, ov, n - 1).push(ov[n - 1])
    } else {
        entry_selection(pp, ov, n - 1)
    }
}

/// The objects handed to the linker, given one object per package: the
/// objects of the packages the closure reaches, in package order, with the
/// entry package's object last so that its entry symbol resolves against
/// everything it imports. Unreached packages are excluded from the link.
pub fn select_link_objects(prog: &Program, objs: &Vec<String>, reachable: &Vec<String>) -> (r:
    Vec<String>)
    requires
        objs@.len() == prog.pkgs@.len(),
    ensures
        views_of(r@) == non_entry_selection(
            prog.pkg_paths(),
            views_of(objs@),
            views_of(reachable@),
            prog.pkgs@.len() as int,
        ) + entry_selection(prog.pkg_paths(), views_of(objs@), prog.pkgs@.len() as int),
{
    let n = prog.pkgs.len();
    let mut picked: Vec<String> = Vec::new();
    let mut entries: Vec<String> = Vec::new();
    let mut i: usize = 0;
    while i < n
        invariant
            n == prog.pkgs@.len(),
            objs@.len() == n,
            i <= n,
            views_of(picked@) == non_entry_selection(
                prog.pkg_paths(),
                views_of(objs@),
                views_of(reachable@),
                i as int,
            ),
            views_of(entries@) == entry_selection(prog.pkg_paths(), views_of(objs@), i as int),
        decreases n - i,
    {
        let pkgpath = &prog.pkgs[i].pkgpath;
        assert(pkgpath@ == prog.pkg_paths()[i as int]);
        if str_eq(pkgpath.as_str(), crate::main_pkg_name()) {
            let ghost pre = entries@;
            entries.push(objs[i].clone());
            proof {
                assert(views_of(entries@) =~= views_of(pre).push(views_of(objs@)[i as int]));
            }
        } else if vec_contains_str(reachable, pkgpath.as_str()) {
            let ghost pre = picked@;
            picked.push(objs[i].clone());
            proof {
                assert(views_of(picked@) =~= views_of(pre).push(views_of(objs@)[i as int]));
            }
        }
        i = i + 1;
    }
    let ghost picked_only = views_of(picked@);
    let mut j: usize = 0;
    while j < entries.len()
        invariant
            j <= entries@.len(),
            views_of(entries@) == entry_selection(
                prog.pkg_paths(),
                views_of(objs@),
                prog.pkgs@.len() as int,
            ),
            views_of(picked@) == picked_only + views_of(entries@).subrange(0, j as int),
        decreases entries@.len() - j,
    {
        let ghost pre = picked@;
        picked.push(entries[j].clone());
        proof {
            assert(views_of(picked@) =~= views_of(pre).push(views_of(entries@)[j as int]));
            assert(views_of(entries@).subrange(0, j + 1) =~= views_of(entries@).subrange(
                0,
                j as int,
            ).push(views_of(entries@)[j as int]));
            assert(views_of(picked@) =~= picked_only + views_of(entries@).subrange(0, j + 1));
        }
        j = j + 1;
    }
    proof {
        assert(views_of(entries@).subrange(0, views_of(entries@).len() as int) =~= views_of(
            entries@,
        ));
        assert(views_of(picked@) =~= picked_only + views_of(entries@));
    }
    picked
}

} // verus!
