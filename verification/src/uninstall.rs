use vstd::prelude::*;
use vstd::seq_lib::*;
use vstd::string::StringExecFns;

use crate::error::Error;
use crate::pkg::{onlinepackage_to_package, spec_downgrade, Package, PackageModel};
use crate::repo::{OnlinePackage, OnlinePackageModel};

verus! {

/// One installed package together with how many *other* installed packages
/// depend on it, and whether the user asked for it explicitly.
#[derive(Debug)]
pub struct OnlinePackageWithDependCount {
    pub pkg: OnlinePackage,
    pub depends_count: u32,
    pub manually_installed: bool,
}

/// The mathematical value of an `OnlinePackageWithDependCount`.
pub struct DependCountModel {
    pub pkg: OnlinePackageModel,
    pub depends_count: nat,
    pub manually_installed: bool,
}

impl View for OnlinePackageWithDependCount {
    type V = DependCountModel;

    open spec fn view(&self) -> DependCountModel {
        DependCountModel {
            pkg: self.pkg@,
            depends_count: self.depends_count as nat,
            manually_installed: self.manually_installed,
        }
    }
}

impl DeepView for OnlinePackageWithDependCount {
    type V = DependCountModel;

    open spec fn deep_view(&self) -> DependCountModel {
        self.view()
    }
}

/// Whether `owner` occurs among the first `m` members of `cl`.
pub open spec fn spec_skipped_upto(cl: Seq<OnlinePackageModel>, owner: OnlinePackageModel, m: int) -> bool {
    exists|k: int| 0 <= k < m && cl[k] == owner
}

/// How many of the first `m` members of `cl` are charged to the package at
/// index `i` of `packages`: a member is charged to the first index of
/// `packages` that equals it, except the first occurrence of `owner` in
/// `cl`, which is the closure's own package and is charged to nobody.
pub open spec fn spec_hits_upto(
    packages: Seq<OnlinePackageModel>,
    cl: Seq<OnlinePackageModel>,
    owner: OnlinePackageModel,
    m: int,
    i: int,
) -> nat
    decreases m,
{
    if m <= 0 {
        0
    } else {
        spec_hits_upto(packages, cl, owner, m - 1, i) + (if !(cl[m - 1] == owner
            && !spec_skipped_upto(cl, owner, m - 1)) && packages.index_of_first(cl[m - 1])
            == Some(i) {
            1nat
        } else {
            0nat
        })
    }
}

/// What one resolved closure must look like for the counting pass to
/// accept it: the closure lists its own package, and only installed
/// packages.
pub open spec fn spec_closure_ok(
    packages: Seq<OnlinePackageModel>,
    cl: Seq<OnlinePackageModel>,
    owner: OnlinePackageModel,
) -> bool {
    &&& cl.contains(owner)
    &&& forall|k: int| 0 <= k < cl.len() ==> packages.contains(#[trigger] cl[k])
}

/// The dependency count of the package at index `i` of `packages`, after
/// the closures of the first `upto` packages have been charged.
pub open spec fn spec_depend_count(
    packages: Seq<OnlinePackageModel>,
    closures: Seq<Seq<OnlinePackageModel>>,
    upto: int,
    i: int,
) -> nat
    decreases upto,
{
    if upto <= 0 {
        0
    } else {
        spec_depend_count(packages, closures, upto - 1, i) + spec_hits_upto(
            packages,
            closures[upto - 1],
            packages[upto - 1],
            closures[upto - 1].len() as int,
            i,
        )
    }
}

/// The combined length of the first `upto` closures.
pub open spec fn spec_closures_len(closures: Seq<Seq<OnlinePackageModel>>, upto: int) -> nat
    decreases upto,
{
    if upto <= 0 {
        0
    } else {
        spec_closures_len(closures, upto - 1) + closures[upto - 1].len()
    }
}

proof fn lemma_hits_upto_le(
    packages: Seq<OnlinePackageModel>,
    cl: Seq<OnlinePackageModel>,
    owner: OnlinePackageModel,
    m: int,
    i: int,
)
    requires
        m >= 0,
    ensures
        spec_hits_upto(packages, cl, owner, m, i) <= m,
    decreases m,
{
    if m > 0 {
        lemma_hits_upto_le(packages, cl, owner, m - 1, i);
    }
}

proof fn lemma_depend_count_le(
    packages: Seq<OnlinePackageModel>,
    closures: Seq<Seq<OnlinePackageModel>>,
    upto: int,
    i: int,
)
    requires
        upto >= 0,
    ensures
        spec_depend_count(packages, closures, upto, i) <= spec_closures_len(closures, upto),
    decreases upto,
{
    if upto > 0 {
        lemma_depend_count_le(packages, closures, upto - 1, i);
        lemma_hits_upto_le(
            packages,
            closures[upto - 1],
            packages[upto - 1],
            closures[upto - 1].len() as int,
            i,
        );
    }
}

/// The first index of `packages` holding a package equal to `x`.
fn find_first(packages: &Vec<OnlinePackage>, x: &OnlinePackage) -> (r: Option<usize>)
    ensures
        match r {
            Some(k) => packages.deep_view().index_of_first(x@) == Some(k as int),
            None => packages.deep_view().index_of_first(x@) is None,
        },
{
    let ghost pk = packages.deep_view();
    let mut i: usize = 0;
    while i < packages.len()
        invariant
            i <= packages.len(),
            pk == packages.deep_view(),
            pk.len() == packages.len(),
            forall|j: int| 0 <= j < i ==> pk[j] != x@,
        decreases packages.len() - i,
    {
        if &packages[i] == x {
            proof {
                pk.index_of_first_ensures(x@);
                assert(pk[i as int] == x@);
            }
            return Some(i);
        }
        i += 1;
    }
    proof {
        pk.index_of_first_ensures(x@);
        if pk.index_of_first(x@) is Some {
            let k = pk.index_of_first(x@).unwrap();
            assert(pk[k] == x@);
        }
    }
    None
}

/// Computes, for every member of `packages`, how many of the other members
/// transitively depend on it.
///
/// The caller supplies, in step with `packages`: whether each package was
/// manually installed, and each package's resolved dependency closure as
/// the (external) dependency resolver returned it. The closure of a
/// package must list the package itself and may only list installed
/// packages; otherwise the whole computation is refused.
pub fn get_dependency_count_for_packages(
    packages: &Vec<OnlinePackage>,
    manually_installed: &Vec<bool>,
    closures: &Vec<Vec<OnlinePackage>>,
) -> (r: Result<Vec<OnlinePackageWithDependCount>, Error>)
    requires
        manually_installed@.len() == packages@.len(),
        closures@.len() == packages@.len(),
        spec_closures_len(closures.deep_view(), packages@.len() as int) <= u32::MAX,
    ensures
        r is Ok <==> (forall|j: int|
            0 <= j < packages@.len() ==> spec_closure_ok(
                packages.deep_view(),
                closures.deep_view()[j],
                packages.deep_view()[j],
            )),
        r matches Ok(v) ==> {
            &&& v@.len() == packages@.len()
            &&& forall|i: int|
                0 <= i < packages@.len() ==> #[trigger] v.deep_view()[i] == (DependCountModel {
                    pkg: packages.deep_view()[i],
                    depends_count: spec_depend_count(
                        packages.deep_view(),
                        closures.deep_view(),
                        packages@.len() as int,
                        i,
                    ),
                    manually_installed: manually_installed@[i],
                })
        },
        r matches Err(e) ==> e matches Error::ResolveInconsistent(_),
{
    let ghost pk = packages.deep_view();
    let ghost cls = closures.deep_view();
    let n = packages.len();

    let mut ret: Vec<OnlinePackageWithDependCount> = Vec::new();
    let mut i: usize = 0;
    while i < n
        invariant
            i <= n,
            n == packages@.len(),
            manually_installed@.len() == n,
            pk == packages.deep_view(),
            ret@.len() == i,
            forall|t: int|
                0 <= t < i ==> #[trigger] ret.deep_view()[t] == (DependCountModel {
                    pkg: pk[t],
                    depends_count: 0nat,
                    manually_installed: manually_installed@[t],
                }),
        decreases n - i,
    {
        let entry = OnlinePackageWithDependCount {
            pkg: packages[i].clone(),
            depends_count: 0,
            manually_installed: manually_installed[i],
        };
        let ghost old_ret = ret;
        ret.push(entry);
        i += 1;
        proof {
            assert forall|t: int| 0 <= t < i implies #[trigger] ret.deep_view()[t]
                == (DependCountModel {
                pkg: pk[t],
                depends_count: 0nat,
                manually_installed: manually_installed@[t],
            }) by {
                assert(ret.deep_view()[t] == ret@[t]@);
                if t < i - 1 {
                    assert(ret@[t] == old_ret@[t]);
                    assert(old_ret.deep_view()[t] == old_ret@[t]@);
                } else {
                    assert(ret@[t] == entry);
                }
            }
        }
    }

    let mut j: usize = 0;
    while j < n
        invariant
            j <= n,
            n == packages@.len(),
            manually_installed@.len() == n,
            closures@.len() == n,
            pk == packages.deep_view(),
            cls == closures.deep_view(),
            spec_closures_len(cls, n as int) <= u32::MAX,
            ret@.len() == n,
            forall|t: int|
                0 <= t < j ==> spec_closure_ok(pk, cls[t], pk[t]),
            forall|t: int|
                0 <= t < n ==> #[trigger] ret.deep_view()[t] == (DependCountModel {
                    pkg: pk[t],
                    depends_count: spec_depend_count(pk, cls, j as int, t),
                    manually_installed: manually_installed@[t],
                }),
        decreases n - j,
    {
        let cl = &closures[j];
        let owner = &packages[j];
        let ghost clm = cls[j as int];
        let m_len = cl.len();
        let mut m: usize = 0;
        let mut skipped = false;
        while m < m_len
            invariant
                m <= m_len,
                j < n,
                n == packages@.len(),
                manually_installed@.len() == n,
                closures@.len() == n,
                pk == packages.deep_view(),
                cls == closures.deep_view(),
                spec_closures_len(cls, n as int) <= u32::MAX,
                clm == cls[j as int],
                clm == cl.deep_view(),
                m_len == clm.len(),
                owner@ == pk[j as int],
                ret@.len() == n,
                skipped == spec_skipped_upto(clm, pk[j as int], m as int),
                forall|k: int| 0 <= k < m ==> pk.contains(#[trigger] clm[k]),
                forall|t: int|
                    0 <= t < n ==> #[trigger] ret.deep_view()[t] == (DependCountModel {
                        pkg: pk[t],
                        depends_count: spec_depend_count(pk, cls, j as int, t)
                            + spec_hits_upto(pk, clm, pk[j as int], m as int, t),
                        manually_installed: manually_installed@[t],
                    }),
            decreases m_len - m,
        {
            let dep = &cl[m];
            proof {
                assert(dep@ == clm[m as int]);
            }
            let is_owner_occurrence = !skipped && dep == owner;
            if is_owner_occurrence {
                skipped = true;
                proof {
                    assert(clm[m as int] == pk[j as int]);
                    assert(spec_skipped_upto(clm, pk[j as int], m + 1));
                    assert(pk.contains(clm[m as int]));
                    assert forall|t: int| 0 <= t < n implies spec_hits_upto(
                        pk,
                        clm,
                        pk[j as int],
                        m + 1,
                        t,
                    ) == spec_hits_upto(pk, clm, pk[j as int], m as int, t) by {
                        assert(clm[(m + 1) - 1] == pk[j as int] && !spec_skipped_upto(
                            clm,
                            pk[j as int],
                            (m + 1) - 1,
                        ));
                    }
                }
            } else {
                match find_first(packages, dep) {
                    Some(k) => {
                        proof {
                            pk.index_of_first_ensures(dep@);
                            assert(pk[k as int] == dep@);
                            assert(pk.contains(clm[m as int]));
                            lemma_depend_count_le(pk, cls, j as int, k as int);
                            lemma_hits_upto_le(pk, clm, pk[j as int], m as int, k as int);
                            lemma_closures_len_monotone(cls, j as int, n as int);
                            assert(ret.deep_view()[k as int].depends_count
                                == spec_depend_count(pk, cls, j as int, k as int)
                                + spec_hits_upto(pk, clm, pk[j as int], m as int, k as int));
                            assert(spec_depend_count(pk, cls, j as int, k as int)
                                + spec_hits_upto(pk, clm, pk[j as int], m as int, k as int)
                                < spec_closures_len(cls, n as int));
                        }
                        let old_count = ret[k].depends_count;
                        let new_count = old_count + 1;
                        let manual = ret[k].manually_installed;
                        let pkg_copy = ret[k].pkg.clone();
                        let ghost old_ret = ret;
                        let updated = OnlinePackageWithDependCount {
                            pkg: pkg_copy,
                            depends_count: new_count,
                            manually_installed: manual,
                        };
                        ret.set(k, updated);
                        proof {
                            // the m-th member is charged to index k and to nobody else
                            assert(!(clm[m as int] == pk[j as int] && !spec_skipped_upto(
                                clm,
                                pk[j as int],
                                m as int,
                            )));
                            assert(spec_skipped_upto(clm, pk[j as int], m + 1)
                                == spec_skipped_upto(clm, pk[j as int], m as int));
                            assert forall|t: int| 0 <= t < n implies #[trigger] ret.deep_view()[t]
                                == (DependCountModel {
                                pkg: pk[t],
                                depends_count: spec_depend_count(pk, cls, j as int, t)
                                    + spec_hits_upto(pk, clm, pk[j as int], m + 1, t),
                                manually_installed: manually_installed@[t],
                            }) by {
                                assert(ret.deep_view()[t] == ret@[t]@);
                                assert(old_ret.deep_view()[t] == old_ret@[t]@);
                                assert(spec_hits_upto(pk, clm, pk[j as int], m + 1, t)
                                    == spec_hits_upto(pk, clm, pk[j as int], m as int, t) + (if !(
                                clm[m as int] == pk[j as int] && !spec_skipped_upto(
                                    clm,
                                    pk[j as int],
                                    m as int,
                                )) && pk.index_of_first(clm[m as int]) == Some(t) {
                                    1nat
                                } else {
                                    0nat
                                }));
                                if t == k {
                                    assert(ret@[t] == updated);
                                } else {
                                    assert(ret@[t] == old_ret@[t]);
                                    assert(pk.index_of_first(clm[m as int]) != Some(t));
                                }
                            }
                        }
                    },
                    None => {
                        proof {
                            pk.index_of_first_ensures(dep@);
                            assert(!pk.contains(clm[m as int]));
                            assert(!spec_closure_ok(pk, cls[j as int], pk[j as int]));
                        }
                        return Err(
                            Error::ResolveInconsistent(
                                String::from_str(
                                    "Failed to find package in dependencies returned by resolve",
                                ),
                            ),
                        );
                    },
                }
            }
            proof {
                if !(clm[m as int] == pk[j as int]) {
                    assert(spec_skipped_upto(clm, pk[j as int], m + 1) == spec_skipped_upto(
                        clm,
                        pk[j as int],
                        m as int,
                    ));
                }
            }
            m += 1;
        }
        if !skipped {
            proof {
                assert forall|w: int| 0 <= w < clm.len() implies clm[w] != pk[j as int] by {
                    assert(!spec_skipped_upto(clm, pk[j as int], m_len as int));
                }
                assert(!clm.contains(pk[j as int]));
                assert(!spec_closure_ok(pk, cls[j as int], pk[j as int]));
            }
            return Err(
                Error::ResolveInconsistent(
                    String::from_str(
                        "Failed to find package in dependencies returned by resolve",
                    ),
                ),
            );
        }
        proof {
            let w = choose|w: int| 0 <= w < m_len && clm[w] == pk[j as int];
            assert(clm[w] == pk[j as int]);
            assert(clm.contains(pk[j as int]));
            assert(spec_closure_ok(pk, cls[j as int], pk[j as int]));
            assert forall|t: int| 0 <= t < n implies #[trigger] ret.deep_view()[t]
                == (DependCountModel {
                pkg: pk[t],
                depends_count: spec_depend_count(pk, cls, j + 1, t),
                manually_installed: manually_installed@[t],
            }) by {
                assert(spec_depend_count(pk, cls, j + 1, t) == spec_depend_count(
                    pk,
                    cls,
                    j as int,
                    t,
                ) + spec_hits_upto(pk, cls[j as int], pk[j as int], cls[j as int].len() as int, t));
            }
        }
        j += 1;
    }
    Ok(ret)
}

/// The dependency count of the package at index `i` once the target's own
/// closure has been discharged: every member of the target's closure loses
/// one dependent (floored at zero), because the target is about to go.
pub open spec fn spec_adjusted_count(
    packages: Seq<OnlinePackageModel>,
    closures: Seq<Seq<OnlinePackageModel>>,
    target_closure: Seq<OnlinePackageModel>,
    i: int,
) -> nat {
    let c = spec_depend_count(packages, closures, packages.len() as int, i);
    if target_closure.contains(packages[i]) && c > 0 {
        (c - 1) as nat
    } else {
        c
    }
}

/// Whether the uninstall pass deletes the package at index `i`: the target
/// itself always goes; any other package goes exactly when nothing depends
/// on it any more and the user never asked for it explicitly.
pub open spec fn spec_delete_here(
    packages: Seq<OnlinePackageModel>,
    manually_installed: Seq<bool>,
    closures: Seq<Seq<OnlinePackageModel>>,
    target_closure: Seq<OnlinePackageModel>,
    target: PackageModel,
    i: int,
) -> bool {
    spec_downgrade(packages[i]) == target || (spec_adjusted_count(
        packages,
        closures,
        target_closure,
        i,
    ) == 0 && !manually_installed[i])
}

/// The identities deleted by the uninstall pass, in installed-set order.
pub open spec fn spec_uninstall_plan(
    packages: Seq<OnlinePackageModel>,
    manually_installed: Seq<bool>,
    closures: Seq<Seq<OnlinePackageModel>>,
    target_closure: Seq<OnlinePackageModel>,
    target: PackageModel,
    upto: int,
) -> Seq<PackageModel>
    decreases upto,
{
    if upto <= 0 {
        seq![]
    } else {
        let rest = spec_uninstall_plan(
            packages,
            manually_installed,
            closures,
            target_closure,
            target,
            upto - 1,
        );
        if spec_delete_here(
            packages,
            manually_installed,
            closures,
            target_closure,
            target,
            upto - 1,
        ) {
            rest.push(spec_downgrade(packages[upto - 1]))
        } else {
            rest
        }
    }
}

/// Whether some installed entry is the target.
pub open spec fn spec_target_installed(
    packages: Seq<OnlinePackageModel>,
    target: PackageModel,
) -> bool {
    exists|i: int| 0 <= i < packages.len() && spec_downgrade(packages[i]) == target
}

/// Whether some installed entry is the target and, even after the target's
/// own closure is discharged, still has a dependent.
pub open spec fn spec_target_conflict(
    packages: Seq<OnlinePackageModel>,
    closures: Seq<Seq<OnlinePackageModel>>,
    target_closure: Seq<OnlinePackageModel>,
    target: PackageModel,
) -> bool {
    exists|i: int|
        0 <= i < packages.len() && spec_downgrade(packages[i]) == target && spec_adjusted_count(
            packages,
            closures,
            target_closure,
            i,
        ) > 0
}

/// Whether `v` holds a package equal to `x`.
fn contains_package(v: &Vec<OnlinePackage>, x: &OnlinePackage) -> (r: bool)
    ensures
        r == v.deep_view().contains(x@),
{
    let mut i: usize = 0;
    while i < v.len()
        invariant
            i <= v.len(),
            forall|j: int| 0 <= j < i ==> v.deep_view()[j] != x@,
        decreases v.len() - i,
    {
        if &v[i] == x {
            assert(v.deep_view()[i as int] == x@);
            return true;
        }
        i += 1;
    }
    false
}

/// Plans the dependency-aware removal of `package` from the installed set.
///
/// The caller supplies the installed snapshot with, in step with it, each
/// entry's manual-install flag and resolved closure, plus the resolver's
/// closure for the target itself. On success the result lists, in
/// installed-set order, every package to delete: the target, and every
/// other package that afterwards has no dependent left and was not
/// manually installed. If the target still has a dependent the whole
/// operation is refused and nothing is to be deleted.
pub fn uninstall_package_and_deps(
    package: &Package,
    packages: &Vec<OnlinePackage>,
    manually_installed: &Vec<bool>,
    closures: &Vec<Vec<OnlinePackage>>,
    target_closure: &Vec<OnlinePackage>,
) -> (r: Result<Vec<Package>, Error>)
    requires
        manually_installed@.len() == packages@.len(),
        closures@.len() == packages@.len(),
        spec_closures_len(closures.deep_view(), packages@.len() as int) <= u32::MAX,
    ensures
        r matches Err(e) && e matches Error::ResolveInconsistent(_) <==> !(forall|j: int|
            0 <= j < packages@.len() ==> spec_closure_ok(
                packages.deep_view(),
                closures.deep_view()[j],
                packages.deep_view()[j],
            )),
        r matches Err(e) && e matches Error::NotInstalled(_) <==> ((forall|j: int|
            0 <= j < packages@.len() ==> spec_closure_ok(
                packages.deep_view(),
                closures.deep_view()[j],
                packages.deep_view()[j],
            )) && !spec_target_installed(packages.deep_view(), package@)),
        r matches Err(e) && e matches Error::DependedUpon(_) <==> ((forall|j: int|
            0 <= j < packages@.len() ==> spec_closure_ok(
                packages.deep_view(),
                closures.deep_view()[j],
                packages.deep_view()[j],
            )) && spec_target_installed(packages.deep_view(), package@) && spec_target_conflict(
            packages.deep_view(),
            closures.deep_view(),
            target_closure.deep_view(),
            package@,
        )),
        r matches Ok(v) ==> v.deep_view() == spec_uninstall_plan(
            packages.deep_view(),
            manually_installed@,
            closures.deep_view(),
            target_closure.deep_view(),
            package@,
            packages@.len() as int,
        ),
        r is Ok <==> ((forall|j: int|
            0 <= j < packages@.len() ==> spec_closure_ok(
                packages.deep_view(),
                closures.deep_view()[j],
                packages.deep_view()[j],
            )) && spec_target_installed(packages.deep_view(), package@) && !spec_target_conflict(
            packages.deep_view(),
            closures.deep_view(),
            target_closure.deep_view(),
            package@,
        )),
{
    let ghost pk = packages.deep_view();
    let ghost cls = closures.deep_view();
    let ghost tcl = target_closure.deep_view();
    let n = packages.len();

    let mut dep_count = match get_dependency_count_for_packages(
        packages,
        manually_installed,
        closures,
    ) {
        Ok(v) => v,
        Err(e) => {
            return Err(e);
        },
    };

    // Discharge the target's own closure: the target is about to go, so it
    // no longer counts as a dependent of anything it needs.
    let mut k: usize = 0;
    while k < n
        invariant
            k <= n,
            n == packages@.len(),
            manually_installed@.len() == n,
            closures@.len() == n,
            pk == packages.deep_view(),
            cls == closures.deep_view(),
            tcl == target_closure.deep_view(),
            dep_count@.len() == n,
            forall|t: int|
                k <= t < n ==> #[trigger] dep_count.deep_view()[t] == (DependCountModel {
                    pkg: pk[t],
                    depends_count: spec_depend_count(pk, cls, n as int, t),
                    manually_installed: manually_installed@[t],
                }),
            forall|t: int|
                0 <= t < k ==> #[trigger] dep_count.deep_view()[t] == (DependCountModel {
                    pkg: pk[t],
                    depends_count: spec_adjusted_count(pk, cls, tcl, t),
                    manually_installed: manually_installed@[t],
                }),
        decreases n - k,
    {
        proof {
            assert(dep_count.deep_view()[k as int] == (DependCountModel {
                pkg: pk[k as int],
                depends_count: spec_depend_count(pk, cls, n as int, k as int),
                manually_installed: manually_installed@[k as int],
            }));
            assert(dep_count.deep_view()[k as int].pkg == dep_count@[k as int].pkg@);
        }
        let in_closure = contains_package(target_closure, &dep_count[k].pkg);
        if in_closure && dep_count[k].depends_count > 0 {
            let updated = OnlinePackageWithDependCount {
                pkg: dep_count[k].pkg.clone(),
                depends_count: dep_count[k].depends_count - 1,
                manually_installed: dep_count[k].manually_installed,
            };
            let ghost old_dc = dep_count;
            dep_count.set(k, updated);
            proof {
                assert(dep_count.deep_view()[k as int] == updated@);
                assert forall|t: int| 0 <= t < n && t != k implies dep_count.deep_view()[t]
                    == old_dc.deep_view()[t] by {
                    assert(dep_count@[t] == old_dc@[t]);
                }
            }
        }
        k += 1;
    }

    // Find the target and check for a surviving dependent before anything
    // is marked for deletion.
    let mut found = false;
    let mut conflict = false;
    let mut k2: usize = 0;
    while k2 < n
        invariant
            k2 <= n,
            n == packages@.len(),
            manually_installed@.len() == n,
            pk == packages.deep_view(),
            cls == closures.deep_view(),
            tcl == target_closure.deep_view(),
            dep_count@.len() == n,
            forall|t: int|
                0 <= t < n ==> #[trigger] dep_count.deep_view()[t] == (DependCountModel {
                    pkg: pk[t],
                    depends_count: spec_adjusted_count(pk, cls, tcl, t),
                    manually_installed: manually_installed@[t],
                }),
            found == (exists|t: int| 0 <= t < k2 && spec_downgrade(pk[t]) == package@),
            conflict == (exists|t: int|
                0 <= t < k2 && spec_downgrade(pk[t]) == package@ && spec_adjusted_count(
                    pk,
                    cls,
                    tcl,
                    t,
                ) > 0),
        decreases n - k2,
    {
        let d = onlinepackage_to_package(&dep_count[k2].pkg);
        proof {
            assert(dep_count.deep_view()[k2 as int] == (DependCountModel {
                pkg: pk[k2 as int],
                depends_count: spec_adjusted_count(pk, cls, tcl, k2 as int),
                manually_installed: manually_installed@[k2 as int],
            }));
            assert(dep_count.deep_view()[k2 as int].pkg == dep_count@[k2 as int].pkg@);
            assert(d@ == spec_downgrade(pk[k2 as int]));
        }
        if &d == package {
            found = true;
            if dep_count[k2].depends_count > 0 {
                conflict = true;
            }
        }
        k2 += 1;
    }
    if !found {
        return Err(
            Error::NotInstalled(package.display_string()),
        );
    }
    if conflict {
        return Err(
            Error::DependedUpon(
                String::from_str("Package is depended upon! Failed to uninstall"),
            ),
        );
    }

    // Nothing conflicts: emit the deletion list in installed-set order.
    let mut deletions: Vec<Package> = Vec::new();
    let mut k3: usize = 0;
    while k3 < n
        invariant
            k3 <= n,
            n == packages@.len(),
            manually_installed@.len() == n,
            pk == packages.deep_view(),
            cls == closures.deep_view(),
            tcl == target_closure.deep_view(),
            dep_count@.len() == n,
            forall|t: int|
                0 <= t < n ==> #[trigger] dep_count.deep_view()[t] == (DependCountModel {
                    pkg: pk[t],
                    depends_count: spec_adjusted_count(pk, cls, tcl, t),
                    manually_installed: manually_installed@[t],
                }),
            deletions.deep_view() == spec_uninstall_plan(
                pk,
                manually_installed@,
                cls,
                tcl,
                package@,
                k3 as int,
            ),
        decreases n - k3,
    {
        let d = onlinepackage_to_package(&dep_count[k3].pkg);
        proof {
            assert(dep_count.deep_view()[k3 as int] == (DependCountModel {
                pkg: pk[k3 as int],
                depends_count: spec_adjusted_count(pk, cls, tcl, k3 as int),
                manually_installed: manually_installed@[k3 as int],
            }));
            assert(dep_count.deep_view()[k3 as int].pkg == dep_count@[k3 as int].pkg@);
            assert(d@ == spec_downgrade(pk[k3 as int]));
        }
        let ghost old_dels = deletions;
        let ghost dm = d@;
        let is_target = &d == package;
        if is_target {
            deletions.push(d);
        } else if dep_count[k3].depends_count == 0 && !dep_count[k3].manually_installed {
            deletions.push(d);
        }
        proof {
            assert(spec_uninstall_plan(pk, manually_installed@, cls, tcl, package@, k3 + 1)
                == if spec_delete_here(pk, manually_installed@, cls, tcl, package@, k3 as int) {
                spec_uninstall_plan(pk, manually_installed@, cls, tcl, package@, k3 as int).push(
                    spec_downgrade(pk[k3 as int]),
                )
            } else {
                spec_uninstall_plan(pk, manually_installed@, cls, tcl, package@, k3 as int)
            });
            if spec_delete_here(pk, manually_installed@, cls, tcl, package@, k3 as int) {
                assert(deletions.deep_view() =~= old_dels.deep_view().push(dm));
            }
        }
        k3 += 1;
    }
    Ok(deletions)
}

/// Whenever the target stands among the first `upto` installed entries,
/// the deletion plan lists it: a successful targeted uninstall always
/// removes the target itself.
pub proof fn lemma_plan_includes_target(
    packages: Seq<OnlinePackageModel>,
    manually_installed: Seq<bool>,
    closures: Seq<Seq<OnlinePackageModel>>,
    target_closure: Seq<OnlinePackageModel>,
    target: PackageModel,
    upto: int,
)
    requires
        exists|i: int| 0 <= i < upto && spec_downgrade(packages[i]) == target,
    ensures
        spec_uninstall_plan(
            packages,
            manually_installed,
            closures,
            target_closure,
            target,
            upto,
        ).contains(target),
    decreases upto,
{
    let i = choose|i: int| 0 <= i < upto && spec_downgrade(packages[i]) == target;
    let rest = spec_uninstall_plan(
        packages,
        manually_installed,
        closures,
        target_closure,
        target,
        upto - 1,
    );
    if i == upto - 1 {
        assert(spec_delete_here(
            packages,
            manually_installed,
            closures,
            target_closure,
            target,
            upto - 1,
        ));
        assert(rest.push(spec_downgrade(packages[upto - 1])).last() == target);
    } else {
        lemma_plan_includes_target(
            packages,
            manually_installed,
            closures,
            target_closure,
            target,
            upto - 1,
        );
        let w = choose|w: int| 0 <= w < rest.len() && rest[w] == target;
        if spec_delete_here(
            packages,
            manually_installed,
            closures,
            target_closure,
            target,
            upto - 1,
        ) {
            assert(rest.push(spec_downgrade(packages[upto - 1]))[w] == target);
        }
    }
}

/// How many of the first `upto` installed packages are distinct from the
/// package at index `i` and have it in their resolved closure.
pub open spec fn spec_dependents(
    packages: Seq<OnlinePackageModel>,
    closures: Seq<Seq<OnlinePackageModel>>,
    upto: int,
    i: int,
) -> nat
    decreases upto,
{
    if upto <= 0 {
        0
    } else {
        spec_dependents(packages, closures, upto - 1, i) + (if upto - 1 != i && closures[upto
            - 1].contains(packages[i]) {
            1nat
        } else {
            0nat
        })
    }
}

/// Whether a sequence has no two equal members.
pub open spec fn spec_distinct<A>(s: Seq<A>) -> bool {
    forall|a: int, b: int| 0 <= a < b < s.len() ==> s[a] != s[b]
}

proof fn lemma_hits_upto_characterized(
    packages: Seq<OnlinePackageModel>,
    cl: Seq<OnlinePackageModel>,
    owner: OnlinePackageModel,
    m: int,
    i: int,
)
    requires
        spec_distinct(packages),
        spec_distinct(cl),
        0 <= i < packages.len(),
        0 <= m <= cl.len(),
    ensures
        spec_hits_upto(packages, cl, owner, m, i) == (if packages[i] != owner && (exists|w: int|
            0 <= w < m && cl[w] == packages[i]) {
            1nat
        } else {
            0nat
        }),
    decreases m,
{
    packages.index_of_first_ensures(packages[i]);
    if m > 0 {
        lemma_hits_upto_characterized(packages, cl, owner, m - 1, i);
        let e = cl[m - 1];
        packages.index_of_first_ensures(e);
        if e == owner {
            // the sole occurrence of the owner: never skipped before, so
            // it is charged to nobody
            assert(!spec_skipped_upto(cl, owner, m - 1));
        } else {
            if packages.index_of_first(e) == Some(i) {
                assert(e == packages[i]);
            }
            if e == packages[i] {
                assert(packages.index_of_first(e) == Some(i));
            }
        }
        if packages[i] != owner && (exists|w: int| 0 <= w < m && cl[w] == packages[i]) {
            let w = choose|w: int| 0 <= w < m && cl[w] == packages[i];
            if w < m - 1 {
                assert(exists|v: int| 0 <= v < m - 1 && cl[v] == packages[i]);
                assert(cl[m - 1] != packages[i]);
            }
        }
    }
}

/// The counting pass counts dependents. For an installed set whose
/// members are pairwise distinct and whose resolved closures are
/// duplicate-free, the dependency count of the package at index `i` is
/// exactly the number of *other* installed packages whose closure
/// contains it.
pub proof fn lemma_depend_count_counts_dependents(
    packages: Seq<OnlinePackageModel>,
    closures: Seq<Seq<OnlinePackageModel>>,
    upto: int,
    i: int,
)
    requires
        packages.len() == closures.len(),
        spec_distinct(packages),
        forall|j: int| 0 <= j < closures.len() ==> spec_distinct(#[trigger] closures[j]),
        0 <= i < packages.len(),
        0 <= upto <= packages.len(),
    ensures
        spec_depend_count(packages, closures, upto, i) == spec_dependents(
            packages,
            closures,
            upto,
            i,
        ),
    decreases upto,
{
    if upto > 0 {
        lemma_depend_count_counts_dependents(packages, closures, upto - 1, i);
        let j = upto - 1;
        lemma_hits_upto_characterized(
            packages,
            closures[j],
            packages[j],
            closures[j].len() as int,
            i,
        );
        if j != i {
            assert(packages[i] != packages[j]);
        }
        assert(closures[j].contains(packages[i]) == (exists|w: int|
            0 <= w < closures[j].len() && closures[j][w] == packages[i]));
    }
}

proof fn lemma_closures_len_monotone(closures: Seq<Seq<OnlinePackageModel>>, a: int, b: int)
    requires
        0 <= a < b,
    ensures
        spec_closures_len(closures, a) + closures[a].len() <= spec_closures_len(closures, b),
    decreases b,
{
    if b == a + 1 {
    } else {
        lemma_closures_len_monotone(closures, a, b - 1);
    }
}

} // verus!
