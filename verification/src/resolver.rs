//! The dependants-closure resolver: starting from one package, computes the
//! full set of workspace packages that must be bumped together, with the new
//! version of each. Dependants are found by following declared dependency
//! edges through publishable packages; a visited guard inserts every name at
//! most once, so the traversal terminates even on cyclic dependency graphs.

use vstd::prelude::*;

use crate::errors::Error;
use crate::package::{
    can_publish, can_publish_spec, depends_on, distinct_names, has_dependency_on,
    is_publishable_member, Package, PackageView,
};
use crate::version::{bump_fits, bump_spec, calc_bumped_version};
use crate::vmap::VersionMap;

verus! {

/// There is a bump edge from `m` to `n`: some publishable workspace package
/// named `n` declares a direct dependency on `m`, so bumping `m` forces a
/// bump of `n`.
pub open spec fn bump_edge(pkgs: Seq<PackageView>, m: Seq<char>, n: Seq<char>) -> bool {
    exists|i: int|
        0 <= i < pkgs.len() && (#[trigger] pkgs[i]).name == n && can_publish_spec(pkgs[i])
            && depends_on(pkgs[i], m)
}

/// A chain of bump edges that begins at `start`.
pub open spec fn is_bump_path(pkgs: Seq<PackageView>, start: Seq<char>, path: Seq<Seq<char>>) -> bool {
    &&& path.len() >= 1
    &&& path[0] == start
    &&& forall|i: int| 1 <= i < path.len() ==> bump_edge(pkgs, path[i - 1], #[trigger] path[i])
}

/// `name` is reachable from `start` along bump edges (`start` itself included).
pub open spec fn in_bump_closure(pkgs: Seq<PackageView>, start: Seq<char>, name: Seq<char>) -> bool {
    exists|path: Seq<Seq<char>>| is_bump_path(pkgs, start, path) && path.last() == name
}

/// The exact set of names a resolve run returns: only the target when
/// dependants are not followed, the whole closure when they are.
pub open spec fn resolve_target_set(
    pkgs: Seq<PackageView>,
    start: Seq<char>,
    follow: bool,
    name: Seq<char>,
) -> bool {
    if follow {
        in_bump_closure(pkgs, start, name)
    } else {
        name == start
    }
}

/// The start of the traversal is itself in the closure.
pub proof fn lemma_closure_start(pkgs: Seq<PackageView>, start: Seq<char>)
    ensures
        in_bump_closure(pkgs, start, start),
{
    let path = seq![start];
    assert(is_bump_path(pkgs, start, path));
    assert(path.last() == start);
}

/// The closure is closed under bump edges.
pub proof fn lemma_closure_extend(
    pkgs: Seq<PackageView>,
    start: Seq<char>,
    m: Seq<char>,
    n: Seq<char>,
)
    requires
        in_bump_closure(pkgs, start, m),
        bump_edge(pkgs, m, n),
    ensures
        in_bump_closure(pkgs, start, n),
{
    let path = choose|path: Seq<Seq<char>>| is_bump_path(pkgs, start, path) && path.last() == m;
    let longer = path.push(n);
    assert(longer[0] == start);
    assert forall|i: int| 1 <= i < longer.len() implies bump_edge(
        pkgs,
        longer[i - 1],
        #[trigger] longer[i],
    ) by {
        if i < longer.len() - 1 {
            assert(longer[i] == path[i]);
            assert(longer[i - 1] == path[i - 1]);
        } else {
            assert(longer[i - 1] == m && longer[i] == n);
        }
    }
    assert(is_bump_path(pkgs, start, longer));
    assert(longer.last() == n);
}

proof fn lemma_path_covered(
    pkgs: Seq<PackageView>,
    start: Seq<char>,
    s: Set<Seq<char>>,
    path: Seq<Seq<char>>,
)
    requires
        s.contains(start),
        forall|m: Seq<char>, n: Seq<char>|
            s.contains(m) && #[trigger] bump_edge(pkgs, m, n) ==> s.contains(n),
        is_bump_path(pkgs, start, path),
    ensures
        s.contains(path.last()),
    decreases path.len(),
{
    if path.len() == 1 {
        assert(path.last() == start);
    } else {
        let shorter = path.drop_last();
        assert(is_bump_path(pkgs, start, shorter));
        lemma_path_covered(pkgs, start, s, shorter);
        assert(bump_edge(pkgs, path[path.len() - 2], path.last()));
        assert(shorter.last() == path[path.len() - 2]);
    }
}

/// Any set that contains `start` and is closed under bump edges covers the
/// whole closure.
pub proof fn lemma_closure_least(
    pkgs: Seq<PackageView>,
    start: Seq<char>,
    s: Set<Seq<char>>,
    name: Seq<char>,
)
    requires
        s.contains(start),
        forall|m: Seq<char>, n: Seq<char>|
            s.contains(m) && #[trigger] bump_edge(pkgs, m, n) ==> s.contains(n),
        in_bump_closure(pkgs, start, name),
    ensures
        s.contains(name),
{
    let path = choose|path: Seq<Seq<char>>| is_bump_path(pkgs, start, path) && path.last() == name;
    lemma_path_covered(pkgs, start, s, path);
}

/// As many distinct publishable member names exist as packages, at most.
pub(crate) proof fn lemma_member_keys_bounded(pkgs: Seq<PackageView>, keys: Seq<Seq<char>>)
    requires
        keys.no_duplicates(),
        forall|i: int| 0 <= i < keys.len() ==> is_publishable_member(pkgs, #[trigger] keys[i]),
    ensures
        keys.len() <= pkgs.len(),
{
    broadcast use vstd::seq_lib::seq_to_set_is_finite;

    let names = Seq::new(pkgs.len(), |i: int| pkgs[i].name);
    keys.unique_seq_to_set();
    names.lemma_cardinality_of_set();
    assert forall|k: Seq<char>| keys.to_set().contains(k) implies names.to_set().contains(k) by {
        let i = choose|i: int| 0 <= i < keys.len() && keys[i] == k;
        let p = choose|p: int|
            0 <= p < pkgs.len() && (#[trigger] pkgs[p]).name == k && can_publish_spec(pkgs[p]);
        assert(names[p] == k);
        assert(names.contains(k));
    }
    assert(keys.to_set().subset_of(names.to_set()));
    vstd::set_lib::lemma_len_subset(keys.to_set(), names.to_set());
}

/// `n` occurs in the worklist.
spec fn qcontains(q: Seq<String>, n: Seq<char>) -> bool {
    exists|i: int| 0 <= i < q.len() && (#[trigger] q[i])@ == n
}

/// Computes the packages to bump when `crate_to_bump` changes, each mapped to
/// its new version: the bump policy applied to its published version. When
/// `breaking` or `with_dependants` is set, every publishable package that
/// transitively depends on an already-bumped package is bumped as well; the
/// name of the returned map's entries are exactly the reachable ones, and no
/// name is ever inserted twice. Interactive runs go through
/// [`crate::interactive::ResolveSession`] instead.
#[verifier::rlimit(60)]
pub fn public_dependants(
    packages: &Vec<Package>,
    published: &VersionMap,
    crate_to_bump: &String,
    breaking: bool,
    with_dependants: bool,
) -> (r: Result<VersionMap, Error>)
    requires
        distinct_names(packages.deep_view()),
        published.wf(),
        forall|k: Seq<char>|
            #[trigger] published.map_view().dom().contains(k) ==> bump_fits(
                published.map_view()[k],
                breaking,
            ),
    ensures
        ({
            let pkgs = packages.deep_view();
            let follow = breaking || with_dependants;
            match r {
                Ok(m) => {
                    &&& m.wf()
                    &&& is_publishable_member(pkgs, crate_to_bump@)
                    &&& forall|n: Seq<char>|
                        #[trigger] m.map_view().dom().contains(n) <==> resolve_target_set(
                            pkgs,
                            crate_to_bump@,
                            follow,
                            n,
                        )
                    &&& forall|n: Seq<char>|
                        #[trigger] m.map_view().dom().contains(n) ==> {
                            &&& published.map_view().dom().contains(n)
                            &&& m.map_view()[n] == bump_spec(published.map_view()[n], breaking)
                        }
                },
                Err(Error::WorkspaceNotFound(n)) => {
                    &&& n@ == crate_to_bump@
                    &&& !is_publishable_member(pkgs, crate_to_bump@)
                },
                Err(Error::RegistryLookupFailed(n)) => {
                    &&& is_publishable_member(pkgs, crate_to_bump@)
                    &&& resolve_target_set(pkgs, crate_to_bump@, follow, n@)
                    &&& !published.map_view().dom().contains(n@)
                },
                Err(_) => false,
            }
        }),
{
    let ghost pkgs = packages.deep_view();
    let ghost start = crate_to_bump@;

    // The target must be a publishable workspace member.
    let mut is_member = false;
    let mut i: usize = 0;
    while i < packages.len()
        invariant
            i <= packages.len(),
            pkgs == packages.deep_view(),
            start == crate_to_bump@,
            is_member ==> is_publishable_member(pkgs, start),
            !is_member ==> forall|j: int|
                0 <= j < i ==> !((#[trigger] pkgs[j]).name == start && can_publish_spec(pkgs[j])),
        decreases packages.len() - i,
    {
        proof {
            assert(pkgs[i as int] == packages@[i as int]@);
        }
        if !is_member {
            if packages[i].name == *crate_to_bump {
                if can_publish(&packages[i]) {
                    proof {
                        assert(pkgs[i as int].name == start && can_publish_spec(pkgs[i as int]));
                    }
                    is_member = true;
                }
            }
        }
        i = i + 1;
    }
    if !is_member {
        return Err(Error::WorkspaceNotFound(crate_to_bump.clone()));
    }

    let follow = breaking || with_dependants;
    let mut result = VersionMap::new();

    if !follow {
        // Only the target itself is bumped.
        match published.get(crate_to_bump) {
            None => {
                return Err(Error::RegistryLookupFailed(crate_to_bump.clone()));
            },
            Some(pv) => {
                let nv = calc_bumped_version(pv, breaking);
                result.insert(crate_to_bump.clone(), nv);
                return Ok(result);
            },
        }
    }

    let mut queue: Vec<String> = Vec::new();
    queue.push(crate_to_bump.clone());
    proof {
        lemma_closure_start(pkgs, start);
        assert(queue@[0]@ == start);
        assert(qcontains(queue@, start));
    }

    while queue.len() > 0
        invariant
            pkgs == packages.deep_view(),
            start == crate_to_bump@,
            follow,
            follow == (breaking || with_dependants),
            distinct_names(pkgs),
            published.wf(),
            forall|k: Seq<char>|
                #[trigger] published.map_view().dom().contains(k) ==> bump_fits(
                    published.map_view()[k],
                    breaking,
                ),
            is_publishable_member(pkgs, start),
            result.wf(),
            result.entries_seq().len() <= pkgs.len(),
            forall|n: Seq<char>|
                #[trigger] result.map_view().dom().contains(n) ==> {
                    &&& in_bump_closure(pkgs, start, n)
                    &&& is_publishable_member(pkgs, n)
                    &&& published.map_view().dom().contains(n)
                    &&& result.map_view()[n] == bump_spec(published.map_view()[n], breaking)
                },
            forall|j: int|
                0 <= j < queue@.len() ==> {
                    &&& in_bump_closure(pkgs, start, (#[trigger] queue@[j])@)
                    &&& is_publishable_member(pkgs, queue@[j]@)
                },
            forall|m: Seq<char>, n: Seq<char>|
                result.map_view().dom().contains(m) && #[trigger] bump_edge(pkgs, m, n)
                    ==> result.map_view().dom().contains(n) || qcontains(queue@, n),
            result.map_view().dom().contains(start) || qcontains(queue@, start),
        decreases pkgs.len() + 1 - result.entries_seq().len(), queue.len(),
    {
        let ghost pre_q = queue@;
        let name = queue.pop().unwrap();
        proof {
            assert(pre_q =~= queue@.push(name));
        }
        if result.contains_name(&name) {
            proof {
                assert forall|m: Seq<char>, n: Seq<char>|
                    result.map_view().dom().contains(m) && #[trigger] bump_edge(pkgs, m, n)
                        && !result.map_view().dom().contains(n) implies qcontains(queue@, n) by {
                    assert(qcontains(pre_q, n));
                    let j = choose|j: int| 0 <= j < pre_q.len() && (#[trigger] pre_q[j])@ == n;
                    if j < queue@.len() {
                        assert(queue@[j]@ == n);
                    } else {
                        assert(pre_q[j] == name);
                        assert(result.map_view().dom().contains(n));
                    }
                }
                if !result.map_view().dom().contains(start) {
                    assert(qcontains(pre_q, start));
                    let j = choose|j: int|
                        0 <= j < pre_q.len() && (#[trigger] pre_q[j])@ == start;
                    if j < queue@.len() {
                        assert(queue@[j]@ == start);
                    } else {
                        assert(name@ == start);
                    }
                }
            }
            continue;
        }

        proof {
            assert(pre_q[pre_q.len() - 1]@ == name@);
            assert(in_bump_closure(pkgs, start, name@));
        }
        let published_version = match published.get(&name) {
            None => {
                return Err(Error::RegistryLookupFailed(name));
            },
            Some(pv) => pv,
        };
        let new_version = calc_bumped_version(published_version, breaking);
        result.insert(name.clone(), new_version);
        proof {
            let keys = Seq::new(
                result.entries_seq().len(),
                |i: int| result.entries_seq()[i].0,
            );
            assert forall|i: int| 0 <= i < keys.len() implies is_publishable_member(
                pkgs,
                #[trigger] keys[i],
            ) by {
                assert(result.map_view().dom().contains(result.entries_seq()[i].0)) by {
                    result.lemma_view_corresponds();
                }
            }
            assert(keys.no_duplicates());
            lemma_member_keys_bounded(pkgs, keys);
        }

        // Every publishable package that directly depends on `name` joins the
        // worklist; each will be bumped in turn.
        let mut j: usize = 0;
        while j < packages.len()
            invariant
                pkgs == packages.deep_view(),
                j <= packages.len(),
                result.map_view().dom().contains(name@),
                in_bump_closure(pkgs, start, name@),
                forall|p: int|
                    0 <= p < j && can_publish_spec(#[trigger] pkgs[p]) && depends_on(
                        pkgs[p],
                        name@,
                    ) ==> qcontains(queue@, pkgs[p].name),
                forall|n: Seq<char>| #[trigger] qcontains(pre_q, n) && n != name@ ==> qcontains(
                    queue@,
                    n,
                ),
                forall|q: int|
                    0 <= q < queue@.len() ==> {
                        &&& in_bump_closure(pkgs, start, (#[trigger] queue@[q])@)
                        &&& is_publishable_member(pkgs, queue@[q]@)
                    },
            decreases packages.len() - j,
        {
            let is_candidate = can_publish(&packages[j]);
            if is_candidate {
                if has_dependency_on(&packages[j], &name) {
                    proof {
                        assert(can_publish_spec(pkgs[j as int]));
                        assert(depends_on(pkgs[j as int], name@));
                        assert(bump_edge(pkgs, name@, pkgs[j as int].name));
                        lemma_closure_extend(pkgs, start, name@, pkgs[j as int].name);
                    }
                    let ghost q_before = queue@;
                    let pushed = packages[j].name.clone();
                    queue.push(pushed);
                    proof {
                        assert(queue@[q_before.len() as int]@ == pkgs[j as int].name);
                        assert forall|n: Seq<char>| qcontains(q_before, n) implies qcontains(
                            queue@,
                            n,
                        ) by {
                            let idx = choose|idx: int|
                                0 <= idx < q_before.len() && (#[trigger] q_before[idx])@ == n;
                            assert(queue@[idx]@ == n);
                        }
                        assert(qcontains(queue@, pkgs[j as int].name));
                    }
                }
            }
            j = j + 1;
        }

        proof {
            // The processed-edges invariant holds again: edges out of `name`
            // now lead into the worklist, edges out of older map entries led
            // there already (or only the processed `name` was taken out, and
            // it now sits in the map).
            assert forall|m: Seq<char>, n: Seq<char>|
                result.map_view().dom().contains(m) && #[trigger] bump_edge(pkgs, m, n)
                    && !result.map_view().dom().contains(n) implies qcontains(queue@, n) by {
                if m == name@ {
                    let p = choose|p: int|
                        0 <= p < pkgs.len() && (#[trigger] pkgs[p]).name == n && can_publish_spec(
                            pkgs[p],
                        ) && depends_on(pkgs[p], m);
                    assert(qcontains(queue@, pkgs[p].name));
                } else {
                    assert(qcontains(pre_q, n) || result.map_view().dom().contains(n));
                    if qcontains(pre_q, n) && n != name@ {
                        assert(qcontains(queue@, n));
                    }
                }
            }
            if !result.map_view().dom().contains(start) {
                assert(qcontains(pre_q, start));
                assert(start != name@);
                assert(qcontains(queue@, start));
            }
        }
    }

    proof {
        // The worklist is drained: the map covers the whole closure, and by
        // the soundness invariant nothing outside the closure crept in.
        assert forall|n: Seq<char>| in_bump_closure(pkgs, start, n) implies
            result.map_view().dom().contains(n) by {
            assert forall|m: Seq<char>, nn: Seq<char>|
                result.map_view().dom().contains(m) && #[trigger] bump_edge(pkgs, m, nn)
                    implies result.map_view().dom().contains(nn) by {
                if !result.map_view().dom().contains(nn) {
                    assert(qcontains(queue@, nn));
                }
            }
            lemma_closure_least(pkgs, start, result.map_view().dom(), n);
        }
    }
    Ok(result)
}

} // verus!
