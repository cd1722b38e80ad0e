//! Transitive dependency discovery and topological ordering.
//!
//! A depth-first post-order visit over by-value containment edges: every
//! declaration is appended after everything it contains by value. A by-value
//! cycle (which valid input cannot contain; parsing rejects it) is detected
//! and reported as a fatal structural error instead of silently producing a
//! wrong order. The emission order is the first-discovery order of the
//! visit, which is the documented, reproducible tie-break between
//! declarations that no constraint orders.

use crate::item::{
    entry_wf, items_of, map_has_key, ItemContainer, ItemContainerV, ItemMap, ItemValueV,
};
use crate::types::names_of;
use vstd::prelude::*;

verus! {

/// The names of an ordered declaration sequence, in order.
pub open spec fn order_names(order: Seq<ItemContainerV>) -> Seq<Seq<char>> {
    order.map_values(|it: ItemContainerV| it.name_v())
}

/// Whether some declaration stored under name `a` depends by value on `b`.
pub open spec fn is_edge(
    m: Seq<(Seq<char>, ItemValueV)>,
    a: Seq<char>,
    b: Seq<char>,
) -> bool {
    exists|k: int, x: int|
        0 <= k < m.len() && m[k].0 == a && 0 <= x < m[k].1.group().len()
            && (#[trigger] m[k].1.group()[x]).real_deps().contains(b)
}

/// Whether `c` is a walk along by-value dependency edges.
pub open spec fn is_chain(m: Seq<(Seq<char>, ItemValueV)>, c: Seq<Seq<char>>) -> bool {
    forall|i: int| 0 <= i < c.len() - 1 ==> is_edge(m, #[trigger] c[i], c[i + 1])
}

/// Whether name `b` is reachable from name `a` along by-value edges.
pub open spec fn reach_from(m: Seq<(Seq<char>, ItemValueV)>, a: Seq<char>, b: Seq<char>) -> bool {
    exists|c: Seq<Seq<char>>|
        #![trigger is_chain(m, c)]
        c.len() >= 1 && c[0] == a && c[c.len() - 1] == b && is_chain(m, c)
}

/// Every name reaches itself: the one-step walk.
pub proof fn lemma_reach_self(m: Seq<(Seq<char>, ItemValueV)>, a: Seq<char>)
    ensures
        reach_from(m, a, a),
{
    let c = seq![a];
    assert(is_chain(m, c));
}

/// A single edge is a walk.
pub proof fn lemma_reach_edge(m: Seq<(Seq<char>, ItemValueV)>, a: Seq<char>, b: Seq<char>)
    requires
        is_edge(m, a, b),
    ensures
        reach_from(m, a, b),
{
    let c = seq![a, b];
    assert(c.len() - 1 == 1);
    assert forall|i: int| 0 <= i < c.len() - 1 implies is_edge(m, #[trigger] c[i], c[i + 1]) by {
        assert(i == 0);
        assert(c[0] == a && c[1] == b);
    }
    assert(is_chain(m, c));
}

/// Reachability composes: a walk to `b` extended by a walk from `b`.
pub proof fn lemma_reach_trans(
    m: Seq<(Seq<char>, ItemValueV)>,
    a: Seq<char>,
    b: Seq<char>,
    x: Seq<char>,
)
    requires
        reach_from(m, a, b),
        reach_from(m, b, x),
    ensures
        reach_from(m, a, x),
{
    let c1 = choose|c: Seq<Seq<char>>|
        #![trigger is_chain(m, c)]
        c.len() >= 1 && c[0] == a && c[c.len() - 1] == b && is_chain(m, c);
    let c2 = choose|c: Seq<Seq<char>>|
        #![trigger is_chain(m, c)]
        c.len() >= 1 && c[0] == b && c[c.len() - 1] == x && is_chain(m, c);
    let c = c1 + c2.subrange(1, c2.len() as int);
    assert(c.len() == c1.len() + c2.len() - 1);
    assert(c[0] == a);
    if c2.len() == 1 {
        assert(c =~= c1);
        assert(b == x);
    } else {
        assert(c[c.len() - 1] == c2[c2.len() - 1]);
        assert forall|i: int| 0 <= i < c.len() - 1 implies is_edge(m, #[trigger] c[i], c[i + 1]) by {
            if i < c1.len() - 1 {
                assert(c[i] == c1[i] && c[i + 1] == c1[i + 1]);
                assert(is_edge(m, c1[i], c1[i + 1]));
            } else if i == c1.len() - 1 {
                assert(c[i] == c1[c1.len() - 1]);
                assert(c[i + 1] == c2[1]);
                assert(is_edge(m, c2[0], c2[1]));
            } else {
                let k = i - c1.len() + 1;
                assert(c[i] == c2[k] && c[i + 1] == c2[k + 1]);
                assert(is_edge(m, c2[k], c2[k + 1]));
            }
        }
        assert(is_chain(m, c));
        assert(c.len() >= 1 && c[0] == a && c[c.len() - 1] == x);
    }
}

/// Whether the registry holds a cycle of by-value containment: a closed
/// walk along by-value edges. Valid input holds none; parsing rejects a
/// by-value-recursive type before it reaches the core.
pub open spec fn has_value_cycle(m: Seq<(Seq<char>, ItemValueV)>) -> bool {
    exists|c: Seq<Seq<char>>|
        #![trigger is_chain(m, c)]
        c.len() >= 2 && c[0] == c[c.len() - 1] && is_chain(m, c)
}

/// Whether the path of names currently being visited is itself a walk.
pub open spec fn gray_chain(m: Seq<(Seq<char>, ItemValueV)>, gray: Seq<Seq<char>>) -> bool {
    forall|i: int| 0 <= i < gray.len() - 1 ==> is_edge(m, #[trigger] gray[i], gray[i + 1])
}

/// The final ordering guarantee: whenever one declaration in the order
/// depends by value on the name of another, the dependency stands strictly
/// earlier.
pub open spec fn topo_sorted(order: Seq<ItemContainerV>) -> bool {
    forall|i: int, j: int|
        0 <= i < order.len() && 0 <= j < order.len() && (#[trigger] order[i]).real_deps().contains(
            (#[trigger] order[j]).name_v(),
        ) ==> j < i
}

/// Entries of one name stand contiguously in the order.
pub open spec fn convex_names(order: Seq<ItemContainerV>) -> bool {
    forall|j1: int, j2: int, j3: int|
        0 <= j1 <= j2 <= j3 < order.len() && (#[trigger] order[j1]).name_v()
            == (#[trigger] order[j3]).name_v() ==> (#[trigger] order[j2]).name_v()
            == order[j1].name_v()
}

/// Every by-value dependency of an already-appended declaration that the
/// registry can resolve stands among the earlier names, and is not still
/// being visited.
pub open spec fn order_ok(
    m: Seq<(Seq<char>, ItemValueV)>,
    order: Seq<ItemContainerV>,
    gray: Seq<Seq<char>>,
) -> bool {
    forall|i: int, d: Seq<char>|
        0 <= i < order.len() && #[trigger] order[i].real_deps().contains(d) && map_has_key(m, d)
            ==> order_names(order.subrange(0, i)).contains(d) && !gray.contains(d)
}

/// Every ordered declaration is one the registry stores.
pub open spec fn order_in_registry(
    m: Seq<(Seq<char>, ItemValueV)>,
    order: Seq<ItemContainerV>,
) -> bool {
    forall|i: int|
        0 <= i < order.len() ==> exists|k: int, x: int|
            0 <= k < m.len() && 0 <= x < m[k].1.group().len() && m[k].1.group()[x]
                == #[trigger] order[i]
}

/// The working state of one resolution: what was visited, what is already
/// appended, and the path of names currently being visited.
pub open spec fn resolver_inv(
    m: Seq<(Seq<char>, ItemValueV)>,
    order: Seq<ItemContainerV>,
    visited: Seq<Seq<char>>,
    gray: Seq<Seq<char>>,
) -> bool {
    &&& visited.no_duplicates()
    &&& forall|k: int| 0 <= k < visited.len() ==> map_has_key(m, #[trigger] visited[k])
    &&& forall|n: Seq<char>|
        #[trigger] visited.contains(n) ==> order_names(order).contains(n) || gray.contains(n)
    &&& forall|n: Seq<char>| #[trigger] order_names(order).contains(n) ==> visited.contains(n)
    &&& forall|n: Seq<char>| #[trigger] gray.contains(n) ==> visited.contains(n)
    &&& forall|n: Seq<char>| #[trigger] gray.contains(n) ==> !order_names(order).contains(n)
    &&& gray.no_duplicates()
    &&& forall|i: int| 0 <= i < order.len() ==> map_has_key(m, (#[trigger] order[i]).name_v())
    &&& order_ok(m, order, gray)
    &&& convex_names(order)
    &&& forall|i: int|
        0 <= i < order.len() ==> !(#[trigger] order[i]).real_deps().contains(order[i].name_v())
    &&& order_in_registry(m, order)
}

/// With nothing left in flight, the working-state facts give the ordering
/// guarantee.
pub proof fn lemma_inv_topo_sorted(m: Seq<(Seq<char>, ItemValueV)>, order: Seq<ItemContainerV>)
    requires
        forall|i: int| 0 <= i < order.len() ==> map_has_key(m, (#[trigger] order[i]).name_v()),
        order_ok(m, order, Seq::<Seq<char>>::empty()),
        convex_names(order),
        forall|i: int|
            0 <= i < order.len() ==> !(#[trigger] order[i]).real_deps().contains(
                order[i].name_v(),
            ),
    ensures
        topo_sorted(order),
{
    assert forall|i: int, j: int|
        0 <= i < order.len() && 0 <= j < order.len() && (#[trigger] order[i]).real_deps().contains(
            (#[trigger] order[j]).name_v(),
        ) implies j < i by {
        let d = order[j].name_v();
        assert(map_has_key(m, d));
        assert(order_names(order.subrange(0, i)).contains(d));
        let j1 = choose|j1: int|
            0 <= j1 < order.subrange(0, i).len() && #[trigger] order_names(
                order.subrange(0, i),
            )[j1] == d;
        assert(order[j1].name_v() == d);
        assert(j1 < i);
        if j >= i {
            assert(order[j1].name_v() == order[j].name_v());
            assert(order[i].name_v() == d);
            assert(order[i].real_deps().contains(order[i].name_v()));
            assert(false);
        }
    }
}

/// A bound on how much can ever be visited: distinct names that are all
/// keys of a registry with distinct keys.
pub proof fn lemma_visited_bound(visited: Seq<Seq<char>>, m: Seq<(Seq<char>, ItemValueV)>)
    requires
        visited.no_duplicates(),
        forall|k: int| 0 <= k < visited.len() ==> map_has_key(m, #[trigger] visited[k]),
    ensures
        visited.len() <= m.len(),
{
    broadcast use vstd::seq_lib::group_seq_properties;
    broadcast use vstd::set_lib::group_set_lib_default;
    broadcast use vstd::set::group_set_axioms;

    let keys = m.map_values(|e: (Seq<char>, ItemValueV)| e.0);
    visited.unique_seq_to_set();
    assert forall|n: Seq<char>| #[trigger] visited.to_set().contains(n) implies keys.to_set().contains(
        n,
    ) by {
        let k = choose|k: int| 0 <= k < visited.len() && #[trigger] visited[k] == n;
        assert(map_has_key(m, n));
        let e = choose|e: int| 0 <= e < m.len() && (#[trigger] m[e]).0 == n;
        assert(keys[e] == n);
        assert(keys.contains(n));
    }
    assert(visited.to_set().subset_of(keys.to_set()));
    keys.lemma_cardinality_of_set();
    vstd::set_lib::lemma_len_subset(visited.to_set(), keys.to_set());
}

/// The incrementally built output of resolution: the computed order, and
/// the set of names already included.
#[derive(Debug)]
pub struct Dependencies {
    pub order: Vec<ItemContainer>,
    pub names: Vec<String>,
}

impl Dependencies {
    /// An empty resolution state.
    pub fn new() -> (r: Dependencies)
        ensures
            r.order@.len() == 0,
            r.names@.len() == 0,
    {
        Dependencies { order: Vec::new(), names: Vec::new() }
    }
}

/// Resolves every root name in order and linearizes everything reachable
/// from them. On success the computed order is topologically valid: every
/// by-value dependency precedes its dependent (`topo_sorted`), and nothing
/// unreachable from the roots appears (each ordered declaration's name is
/// reached from some root along by-value edges). A by-value cycle is a
/// fatal error.
#[verifier::rlimit(60)]
pub fn resolve_names(reg: &ItemMap, roots: &Vec<String>) -> (r: Result<
    Dependencies,
    crate::CoreError,
>)
    requires
        reg.wf(),
    ensures
        r is Err ==> r->Err_0 == crate::CoreError::DependencyCycle && has_value_cycle(reg@),
        !has_value_cycle(reg@) ==> r is Ok,
        r is Ok ==> {
            &&& topo_sorted(items_of(r->Ok_0.order@))
            &&& forall|k: int|
                0 <= k < roots@.len() && map_has_key(reg@, #[trigger] roots@[k]@)
                    ==> order_names(items_of(r->Ok_0.order@)).contains(roots@[k]@)
            &&& convex_names(items_of(r->Ok_0.order@))
            &&& order_in_registry(reg@, items_of(r->Ok_0.order@))
            &&& resolver_inv(
                reg@,
                items_of(r->Ok_0.order@),
                names_of(r->Ok_0.names@),
                Seq::<Seq<char>>::empty(),
            )
            &&& forall|x: Seq<char>|
                #[trigger] names_of(r->Ok_0.names@).contains(x) ==> exists|root: Seq<char>|
                    names_of(roots@).contains(root) && reach_from(reg@, root, x)
        },
{
    let ghost m = reg@;
    let mut deps = Dependencies::new();
    let mut gray: Vec<String> = Vec::new();
    proof {
        assert(names_of(deps.names@) =~= Seq::<Seq<char>>::empty());
        assert(names_of(gray@) =~= Seq::<Seq<char>>::empty());
        assert(items_of(deps.order@) =~= Seq::<ItemContainerV>::empty());
        assert(order_names(Seq::<ItemContainerV>::empty()) =~= Seq::<Seq<char>>::empty());
        assert(resolver_inv(m, items_of(deps.order@), names_of(deps.names@), names_of(gray@)));
    }
    let mut i: usize = 0;
    while i < roots.len()
        invariant
            reg.wf(),
            m == reg@,
            i <= roots@.len(),
            names_of(gray@) == Seq::<Seq<char>>::empty(),
            resolver_inv(m, items_of(deps.order@), names_of(deps.names@), names_of(gray@)),
            forall|x: Seq<char>|
                names_of(deps.names@).contains(x) ==> exists|root: Seq<char>|
                    names_of(roots@).contains(root) && reach_from(m, root, x),
            forall|k: int|
                0 <= k < i && map_has_key(m, #[trigger] roots@[k]@) ==> order_names(
                    items_of(deps.order@),
                ).contains(roots@[k]@),
        decreases roots@.len() - i,
    {
        let ghost pre_visited = names_of(deps.names@);
        let ghost pre_order = items_of(deps.order@);
        let res = resolve_name(reg, &roots[i], &mut deps, &mut gray);
        match res {
            Err(e) => {
                return Err(e);
            }
            Ok(()) => {}
        }
        proof {
            assert(names_of(roots@).contains(roots@[i as int]@)) by {
                assert(names_of(roots@)[i as int] == roots@[i as int]@);
            }
            assert forall|k: int|
                0 <= k < i + 1 && map_has_key(m, #[trigger] roots@[k]@) implies order_names(
                items_of(deps.order@),
            ).contains(roots@[k]@) by {
                if k < i {
                    let xi = choose|xi: int|
                        0 <= xi < pre_order.len() && #[trigger] order_names(pre_order)[xi]
                            == roots@[k]@;
                    assert(items_of(deps.order@).subrange(0, pre_order.len() as int)
                        == pre_order);
                    assert(items_of(deps.order@)[xi] == pre_order[xi]);
                    assert(order_names(items_of(deps.order@))[xi] == roots@[k]@);
                }
            }
            assert forall|x: Seq<char>| names_of(deps.names@).contains(x) implies exists|
                root: Seq<char>,
            |
                names_of(roots@).contains(root) && reach_from(m, root, x) by {
                if !pre_visited.contains(x) {
                    assert(reach_from(m, roots@[i as int]@, x));
                }
            }
        }
        i = i + 1;
    }
    proof {
        let order = items_of(deps.order@);
        assert(resolver_inv(m, order, names_of(deps.names@), Seq::<Seq<char>>::empty()));
        assert(order_ok(m, order, Seq::<Seq<char>>::empty()));
        lemma_inv_topo_sorted(m, order);
        assert(topo_sorted(order));
    }
    Ok(deps)
}

/// Visits `name`: if the registry resolves it and it was not visited yet,
/// first resolves everything it depends on by value, then appends its
/// declarations to the order. Finding `name` already on the path of names
/// being visited is a by-value cycle: a fatal error, since no valid order
/// exists. A name the registry does not resolve is a forward reference for
/// the emitter and is skipped.
pub fn resolve_name(
    reg: &ItemMap,
    name: &String,
    deps: &mut Dependencies,
    gray: &mut Vec<String>,
) -> (r: Result<(), crate::CoreError>)
    requires
        reg.wf(),
        resolver_inv(
            reg@,
            items_of(old(deps).order@),
            names_of(old(deps).names@),
            names_of(old(gray)@),
        ),
        gray_chain(reg@, names_of(old(gray)@)),
        names_of(old(gray)@).len() > 0 ==> is_edge(
            reg@,
            names_of(old(gray)@)[names_of(old(gray)@).len() - 1],
            name@,
        ),
    ensures
        r is Err ==> r->Err_0 == crate::CoreError::DependencyCycle && has_value_cycle(reg@),
        r is Ok ==> {
            &&& final(gray)@ == old(gray)@
            &&& resolver_inv(
                reg@,
                items_of(final(deps).order@),
                names_of(final(deps).names@),
                names_of(final(gray)@),
            )
            &&& final(deps).order@.len() >= old(deps).order@.len()
            &&& items_of(final(deps).order@).subrange(0, old(deps).order@.len() as int)
                == items_of(old(deps).order@)
            &&& final(deps).names@.len() >= old(deps).names@.len()
            &&& forall|x: Seq<char>|
                names_of(old(deps).names@).contains(x) ==> names_of(
                    final(deps).names@,
                ).contains(x)
            &&& forall|x: Seq<char>|
                names_of(final(deps).names@).contains(x) && !names_of(
                    old(deps).names@,
                ).contains(x) ==> reach_from(reg@, name@, x)
            &&& (map_has_key(reg@, name@) ==> order_names(
                items_of(final(deps).order@),
            ).contains(name@) && !names_of(final(gray)@).contains(name@))
        },
    decreases reg.data@.len() - deps.names@.len(),
{
    let ghost m = reg@;
    let ghost n0 = name@;
    let ghost visited0 = names_of(deps.names@);
    let ghost order0 = items_of(deps.order@);
    let ghost gray0 = names_of(gray@);
    if crate::generics::contains_name(gray, name) {
        proof {
            // The path from this name's earlier visit back to the edge that
            // reached it again closes a walk.
            let g = names_of(gray@);
            let pos = choose|pos: int| 0 <= pos < g.len() && g[pos] == n0;
            let c = g.subrange(pos, g.len() as int).push(n0);
            assert(c[0] == n0 && c[c.len() - 1] == n0);
            assert(c.len() >= 2);
            assert forall|i: int| 0 <= i < c.len() - 1 implies is_edge(m, #[trigger] c[i], c[i + 1]) by {
                if i < c.len() - 2 {
                    assert(c[i] == g[pos + i] && c[i + 1] == g[pos + i + 1]);
                    assert(is_edge(m, g[pos + i], g[pos + i + 1]));
                } else {
                    assert(c[i] == g[g.len() - 1]);
                    assert(c[i + 1] == n0);
                }
            }
            assert(is_chain(m, c));
        }
        return Err(crate::CoreError::DependencyCycle);
    }
    if crate::generics::contains_name(&deps.names, name) {
        proof {
            if map_has_key(m, n0) {
                assert(order_names(order0).contains(n0) || gray0.contains(n0));
            }
            assert(items_of(deps.order@).subrange(0, deps.order@.len() as int) =~= items_of(
                deps.order@,
            ));
        }
        return Ok(());
    }
    let items_opt = reg.get_items(name);
    let items = match items_opt {
        None => {
            proof {
                assert(items_of(deps.order@).subrange(0, deps.order@.len() as int) =~= items_of(
                    deps.order@,
                ));
            }
            return Ok(());
        },
        Some(v) => v,
    };
    let ghost gk = choose|k: int|
        0 <= k < m.len() && (#[trigger] m[k]).0 == n0 && items_of(items@) == m[k].1.group();
    proof {
        assert(entry_wf(m[gk]));
        assert(items_of(items@).len() > 0);
        assert forall|x: int| 0 <= x < items@.len() implies (#[trigger] items@[x]@).name_v()
            == n0 by {
            assert(items_of(items@)[x] == items@[x]@);
            match m[gk].1 {
                ItemValueV::Single(it) => {
                    assert(items_of(items@)[x] == it);
                }
                ItemValueV::Cfg(group) => {
                    assert(items_of(items@)[x] == group[x]);
                }
            }
        }
        lemma_visited_bound(visited0, m);
        assert(!visited0.contains(n0));
        assert(map_has_key(m, n0));
        // The new name is a key not yet visited, so room remains.
        let keys_without = visited0.push(n0);
        assert(keys_without.no_duplicates());
        assert forall|k: int| 0 <= k < keys_without.len() implies map_has_key(
            m,
            #[trigger] keys_without[k],
        ) by {
            if k < visited0.len() {
                assert(keys_without[k] == visited0[k]);
            }
        }
        lemma_visited_bound(keys_without, m);
    }
    deps.names.push(name.clone());
    gray.push(name.clone());
    let ghost visited1 = names_of(deps.names@);
    let ghost gray1 = names_of(gray@);
    proof {
        assert(visited1 =~= visited0.push(n0));
        assert(gray1 =~= gray0.push(n0));
        assert(gray_chain(m, gray1)) by {
            assert forall|i: int| 0 <= i < gray1.len() - 1 implies is_edge(
                m,
                #[trigger] gray1[i],
                gray1[i + 1],
            ) by {
                if i < gray0.len() - 1 {
                    assert(gray1[i] == gray0[i] && gray1[i + 1] == gray0[i + 1]);
                    assert(is_edge(m, gray0[i], gray0[i + 1]));
                } else {
                    assert(gray1[i] == gray0[gray0.len() - 1] && gray1[i + 1] == n0);
                }
            }
        }
        lemma_reach_self(m, n0);
        assert forall|x: Seq<char>| visited0.contains(x) implies visited1.contains(x) by {
            let vi = choose|vi: int| 0 <= vi < visited0.len() && visited0[vi] == x;
            assert(visited1[vi] == x);
        }
        assert(visited1.contains(n0)) by {
            assert(visited1[visited1.len() - 1] == n0);
        }
        assert forall|n: Seq<char>| #[trigger] visited1.contains(n) implies order_names(
            order0,
        ).contains(n) || gray1.contains(n) by {
            if n == n0 {
                assert(gray1[gray1.len() - 1] == n0);
                assert(gray1.contains(n0));
            } else {
                assert(visited0.contains(n));
                if gray0.contains(n) {
                    let gi = choose|gi: int| 0 <= gi < gray0.len() && gray0[gi] == n;
                    assert(gray1[gi] == n);
                }
            }
        }
        assert forall|n: Seq<char>| #[trigger] gray1.contains(n) implies visited1.contains(n)
            && !order_names(order0).contains(n) by {
            let gi = choose|gi: int| 0 <= gi < gray1.len() && gray1[gi] == n;
            if gi < gray0.len() {
                assert(gray0[gi] == n);
                assert(gray0.contains(n));
                assert(visited0.contains(n));
                let vi = choose|vi: int| 0 <= vi < visited0.len() && visited0[vi] == n;
                assert(visited1[vi] == n);
            } else {
                assert(n == n0);
                assert(visited1[visited1.len() - 1] == n0);
                assert(!order_names(order0).contains(n0)) by {
                    if order_names(order0).contains(n0) {
                        assert(visited0.contains(n0));
                    }
                }
            }
        }
        assert forall|n: Seq<char>| #[trigger] order_names(order0).contains(n) implies
            visited1.contains(n) by {
            assert(visited0.contains(n));
            let vi = choose|vi: int| 0 <= vi < visited0.len() && visited0[vi] == n;
            assert(visited1[vi] == n);
        }
        assert(order_ok(m, order0, gray1)) by {
            assert forall|i: int, d: Seq<char>|
                0 <= i < order0.len() && #[trigger] order0[i].real_deps().contains(d)
                    && map_has_key(m, d) implies order_names(order0.subrange(0, i)).contains(d)
                && !gray1.contains(d) by {
                assert(!gray0.contains(d));
                assert(order_names(order0.subrange(0, i)).contains(d));
                let di = choose|di: int|
                    0 <= di < i && #[trigger] order_names(order0.subrange(0, i))[di] == d;
                assert(order0[di].name_v() == d);
                assert(order_names(order0)[di] == d);
                assert(order_names(order0).contains(d));
                if gray1.contains(d) {
                    let gi = choose|gi: int| 0 <= gi < gray1.len() && gray1[gi] == d;
                    if gi < gray0.len() {
                        assert(gray0[gi] == d);
                    } else {
                        assert(d == n0);
                        assert(visited0.contains(d));
                    }
                    assert(false);
                }
            }
        }
        assert(order_in_registry(m, order0));
        assert(resolver_inv(m, order0, visited1, gray1));
    }
    let mut i: usize = 0;
    while i < items.len()
        invariant
            reg.wf(),
            m == reg@,
            n0 == name@,
            i <= items@.len(),
            items_of(items@) == m[gk].1.group(),
            0 <= gk < m.len() && m[gk].0 == n0,
            forall|x: int| 0 <= x < items@.len() ==> (#[trigger] items@[x]@).name_v() == n0,
            resolver_inv(m, items_of(deps.order@), names_of(deps.names@), gray1),
            names_of(gray@) == gray1,
            gray@ == old(gray)@.push(*name),
            visited0 == names_of(old(deps).names@),
            visited0.len() == old(deps).names@.len(),
            gray0 == names_of(old(gray)@),
            order0 == items_of(old(deps).order@),
            order0.len() == old(deps).order@.len(),
            gray1 == gray0.push(n0),
            gray_chain(m, gray1),
            names_of(deps.names@).len() >= visited0.len() + 1,
            deps.names@.len() >= old(deps).names@.len() + 1,
            forall|x: Seq<char>| visited0.contains(x) ==> names_of(deps.names@).contains(x),
            names_of(deps.names@).contains(n0),
            deps.order@.len() >= order0.len(),
            items_of(deps.order@).subrange(0, order0.len() as int) == order0,
            forall|x: Seq<char>|
                names_of(deps.names@).contains(x) && !visited0.contains(x) ==> reach_from(
                    m,
                    n0,
                    x,
                ),
            forall|ii: int, d: Seq<char>|
                0 <= ii < i && #[trigger] items@[ii]@.real_deps().contains(d) && map_has_key(
                    m,
                    d,
                ) ==> order_names(items_of(deps.order@)).contains(d) && !gray1.contains(d),
        decreases items@.len() - i,
    {
        let dnames = items[i].dependency_names();
        let mut j: usize = 0;
        while j < dnames.len()
            invariant
                reg.wf(),
                m == reg@,
                n0 == name@,
                i < items@.len(),
                j <= dnames@.len(),
                names_of(dnames@) == items@[i as int]@.real_deps(),
                items_of(items@) == m[gk].1.group(),
                0 <= gk < m.len() && m[gk].0 == n0,
                forall|x: int| 0 <= x < items@.len() ==> (#[trigger] items@[x]@).name_v() == n0,
                resolver_inv(m, items_of(deps.order@), names_of(deps.names@), gray1),
                names_of(gray@) == gray1,
                gray@ == old(gray)@.push(*name),
                visited0 == names_of(old(deps).names@),
                visited0.len() == old(deps).names@.len(),
                gray0 == names_of(old(gray)@),
                order0 == items_of(old(deps).order@),
                order0.len() == old(deps).order@.len(),
                gray1 == gray0.push(n0),
                gray_chain(m, gray1),
                names_of(deps.names@).len() >= visited0.len() + 1,
                deps.names@.len() >= old(deps).names@.len() + 1,
                forall|x: Seq<char>| visited0.contains(x) ==> names_of(deps.names@).contains(x),
                names_of(deps.names@).contains(n0),
                deps.order@.len() >= order0.len(),
                items_of(deps.order@).subrange(0, order0.len() as int) == order0,
                forall|x: Seq<char>|
                    names_of(deps.names@).contains(x) && !visited0.contains(x) ==> reach_from(
                        m,
                        n0,
                        x,
                    ),
                forall|ii: int, d: Seq<char>|
                    0 <= ii < i && #[trigger] items@[ii]@.real_deps().contains(d)
                        && map_has_key(m, d) ==> order_names(items_of(deps.order@)).contains(d)
                        && !gray1.contains(d),
                forall|jj: int|
                    0 <= jj < j && map_has_key(m, #[trigger] names_of(dnames@)[jj])
                        ==> order_names(items_of(deps.order@)).contains(names_of(dnames@)[jj])
                        && !gray1.contains(names_of(dnames@)[jj]),
            decreases dnames@.len() - j,
    {
            proof {
                lemma_visited_bound(names_of(deps.names@), m);
                assert(names_of(deps.names@).len() == deps.names@.len());
                assert(m.len() == reg.data@.len());
                assert(visited0.len() == old(deps).names@.len());
                assert(deps.names@.len() >= old(deps).names@.len() + 1);
                assert(deps.names@.len() <= reg.data@.len());
            }
            let ghost pre_order = items_of(deps.order@);
            let ghost pre_visited = names_of(deps.names@);
            proof {
                let d = names_of(dnames@)[j as int];
                assert(dnames@[j as int]@ == d);
                assert(items@[i as int]@.real_deps().contains(d));
                assert(is_edge(m, n0, d)) by {
                    assert(m[gk].1.group()[i as int] == items@[i as int]@);
                    assert(m[gk].1.group()[i as int].real_deps().contains(d));
                }
                assert(gray1[gray1.len() - 1] == n0);
            }
            let res = resolve_name(reg, &dnames[j], deps, gray);
            match res {
                Err(e) => {
                    return Err(e);
                }
                Ok(()) => {}
            }
            proof {
                let d = names_of(dnames@)[j as int];
                assert(dnames@[j as int]@ == d);
                // The visited name is a by-value dependency of this group,
                // so everything it pulled in is reachable from `name`.
                assert(items@[i as int]@.real_deps().contains(d));
                assert(is_edge(m, n0, d)) by {
                    assert(m[gk].1.group()[i as int] == items@[i as int]@);
                    assert(m[gk].1.group()[i as int].real_deps().contains(d));
                }
                lemma_reach_edge(m, n0, d);
                assert forall|x: Seq<char>|
                    names_of(deps.names@).contains(x) && !visited0.contains(x) implies reach_from(
                    m,
                    n0,
                    x,
                ) by {
                    if pre_visited.contains(x) {
                    } else {
                        assert(reach_from(m, d, x));
                        lemma_reach_trans(m, n0, d, x);
                    }
                }
                assert forall|x: Seq<char>| order_names(pre_order).contains(x) implies
                    order_names(items_of(deps.order@)).contains(x) by {
                    let xi = choose|xi: int|
                        0 <= xi < pre_order.len() && #[trigger] order_names(pre_order)[xi] == x;
                    assert(items_of(deps.order@).subrange(0, pre_order.len() as int)
                        == pre_order);
                    assert(items_of(deps.order@)[xi] == pre_order[xi]);
                    assert(order_names(items_of(deps.order@))[xi] == x);
                }
                assert(items_of(deps.order@).subrange(0, order0.len() as int) =~= order0) by {
                    assert(pre_order.subrange(0, order0.len() as int) == order0);
                    assert forall|x: int| 0 <= x < order0.len() implies items_of(
                        deps.order@,
                    ).subrange(0, order0.len() as int)[x] == order0[x] by {
                        assert(items_of(deps.order@).subrange(0, pre_order.len() as int)[x]
                            == pre_order[x]);
                        assert(pre_order[x] == pre_order.subrange(0, order0.len() as int)[x]);
                    }
                }
            }
            j = j + 1;
        }
        proof {
            assert forall|d: Seq<char>|
                (#[trigger] items@[i as int]@.real_deps().contains(d)) && map_has_key(m, d)
                    implies order_names(items_of(deps.order@)).contains(d) && !gray1.contains(
                d,
            ) by {
                let jj = choose|jj: int|
                    0 <= jj < names_of(dnames@).len() && #[trigger] names_of(dnames@)[jj] == d;
                assert(map_has_key(m, names_of(dnames@)[jj]));
            }
        }
        i = i + 1;
    }
    // Everything this group depends on is in the order; append the group.
    let ghost order1 = items_of(deps.order@);
    let ghost visited2 = names_of(deps.names@);
    proof {
        assert(!order_names(order1).contains(n0)) by {
            assert(gray1.contains(n0)) by {
                assert(gray1[gray1.len() - 1] == n0);
            }
        }
    }
    let mut i2: usize = 0;
    while i2 < items.len()
        invariant
            reg.wf(),
            m == reg@,
            n0 == name@,
            i2 <= items@.len(),
            items_of(items@) == m[gk].1.group(),
            0 <= gk < m.len() && m[gk].0 == n0,
            forall|x: int| 0 <= x < items@.len() ==> (#[trigger] items@[x]@).name_v() == n0,
            names_of(gray@) == gray1,
            gray@ == old(gray)@.push(*name),
            gray0 == names_of(old(gray)@),
            gray1 == gray0.push(n0),
            visited2 == names_of(deps.names@),
            visited2.contains(n0),
            items_of(deps.order@) == order1 + items_of(items@).subrange(0, i2 as int),
            !order_names(order1).contains(n0),
            visited2.no_duplicates(),
            forall|k: int| 0 <= k < visited2.len() ==> map_has_key(m, #[trigger] visited2[k]),
            forall|n: Seq<char>|
                #[trigger] visited2.contains(n) ==> order_names(items_of(deps.order@)).contains(
                    n,
                ) || gray1.contains(n),
            forall|n: Seq<char>|
                #[trigger] order_names(items_of(deps.order@)).contains(n) ==> visited2.contains(
                    n,
                ),
            forall|n: Seq<char>| #[trigger] gray1.contains(n) ==> visited2.contains(n),
            forall|n: Seq<char>|
                #[trigger] gray0.contains(n) ==> !order_names(items_of(deps.order@)).contains(n),
            gray1.no_duplicates(),
            forall|k: int|
                0 <= k < items_of(deps.order@).len() ==> map_has_key(
                    m,
                    (#[trigger] items_of(deps.order@)[k]).name_v(),
                ),
            order_ok(m, items_of(deps.order@), gray1),
            convex_names(items_of(deps.order@)),
            forall|k: int|
                0 <= k < items_of(deps.order@).len() ==> !(#[trigger] items_of(
                    deps.order@,
                )[k]).real_deps().contains(items_of(deps.order@)[k].name_v()),
            order_in_registry(m, items_of(deps.order@)),
            forall|d: Seq<char>, ii: int|
                0 <= ii < items@.len() && #[trigger] items@[ii]@.real_deps().contains(d)
                    && map_has_key(m, d) ==> order_names(order1).contains(d) && !gray1.contains(
                    d,
                ),
            order1.subrange(0, order0.len() as int) == order0,
            order1.len() >= order0.len(),
        decreases items@.len() - i2,
    {
        let ghost pre = items_of(deps.order@);
        deps.order.push(items[i2].clone());
        proof {
            let cur = items_of(deps.order@);
            let newit = items@[i2 as int]@;
            assert(cur =~= pre.push(newit));
            assert(cur =~= order1 + items_of(items@).subrange(0, i2 as int + 1)) by {
                assert(items_of(items@).subrange(0, i2 as int + 1) =~= items_of(
                    items@,
                ).subrange(0, i2 as int).push(newit));
            }
            // Names seen in the extended order.
            assert forall|n: Seq<char>| #[trigger] order_names(cur).contains(n) implies
                order_names(pre).contains(n) || n == n0 by {
                let xi = choose|xi: int|
                    0 <= xi < cur.len() && #[trigger] order_names(cur)[xi] == n;
                if xi < pre.len() {
                    assert(order_names(pre)[xi] == n);
                } else {
                    assert(cur[xi] == newit);
                }
            }
            assert forall|n: Seq<char>| #[trigger] order_names(pre).contains(n) implies
                order_names(cur).contains(n) by {
                let xi = choose|xi: int|
                    0 <= xi < pre.len() && #[trigger] order_names(pre)[xi] == n;
                assert(order_names(cur)[xi] == n);
            }
            assert(order_names(cur).contains(n0)) by {
                assert(order_names(cur)[cur.len() - 1] == n0);
            }
            assert(visited2.contains(n0));
            // Well-ordering of the new entry's dependencies.
            assert(order_ok(m, cur, gray1)) by {
                assert forall|k: int, d: Seq<char>|
                    0 <= k < cur.len() && #[trigger] cur[k].real_deps().contains(d)
                        && map_has_key(m, d) implies order_names(cur.subrange(0, k)).contains(d)
                    && !gray1.contains(d) by {
                    if k < pre.len() {
                        assert(pre[k] == cur[k]);
                        assert(order_names(pre.subrange(0, k)).contains(d));
                        let di = choose|di: int|
                            0 <= di < k && #[trigger] order_names(pre.subrange(0, k))[di] == d;
                        assert(pre.subrange(0, k)[di] == cur.subrange(0, k)[di]);
                        assert(order_names(cur.subrange(0, k))[di] == d);
                    } else {
                        assert(cur[k] == newit);
                        assert(order_names(order1).contains(d));
                        let di = choose|di: int|
                            0 <= di < order1.len() && #[trigger] order_names(order1)[di] == d;
                        assert(cur.subrange(0, k)[di] == order1[di]);
                        assert(order_names(cur.subrange(0, k))[di] == d);
                    }
                }
            }
            // The appended run keeps names contiguous.
            assert(convex_names(cur)) by {
                assert forall|j1: int, j2: int, j3: int|
                    0 <= j1 <= j2 <= j3 < cur.len() && (#[trigger] cur[j1]).name_v()
                        == (#[trigger] cur[j3]).name_v() implies (#[trigger] cur[j2]).name_v()
                    == cur[j1].name_v() by {
                    if j3 < pre.len() {
                    } else {
                        assert(cur[j3].name_v() == n0);
                        if cur[j1].name_v() == n0 {
                            if j1 < order1.len() {
                                assert(order_names(order1)[j1] == n0);
                                assert(false);
                            }
                            if j2 < order1.len() {
                                assert(cur[j1].name_v() == cur[j2 + 0].name_v() || true);
                                assert(order1[j2] == cur[j2]);
                            }
                            assert(j1 >= order1.len());
                            assert(j2 >= order1.len());
                            if j2 < pre.len() {
                                assert(cur[j2] == items_of(items@).subrange(0, i2 as int)[j2
                                    - order1.len()]);
                                assert(cur[j2].name_v() == n0);
                            } else {
                                assert(cur[j2] == newit);
                            }
                        }
                    }
                }
            }
            assert forall|k: int| 0 <= k < cur.len() implies !(#[trigger] cur[k]).real_deps().contains(
                cur[k].name_v(),
            ) by {
                if k < pre.len() {
                    assert(cur[k] == pre[k]);
                } else {
                    assert(cur[k] == newit);
                    if newit.real_deps().contains(n0) {
                        assert(map_has_key(m, n0));
                        assert(!gray1.contains(n0));
                        assert(gray1[gray1.len() - 1] == n0);
                        assert(false);
                    }
                }
            }
            assert forall|k: int| 0 <= k < cur.len() implies map_has_key(
                m,
                (#[trigger] cur[k]).name_v(),
            ) by {
                if k < pre.len() {
                    assert(cur[k] == pre[k]);
                }
            }
            assert(order_in_registry(m, cur)) by {
                assert forall|k: int| 0 <= k < cur.len() implies exists|e: int, x: int|
                    0 <= e < m.len() && 0 <= x < m[e].1.group().len() && m[e].1.group()[x]
                        == #[trigger] cur[k] by {
                    if k < pre.len() {
                        assert(cur[k] == pre[k]);
                    } else {
                        assert(m[gk].1.group()[i2 as int] == cur[k]);
                    }
                }
            }
            assert forall|n: Seq<char>| #[trigger] gray0.contains(n) implies !order_names(
                cur,
            ).contains(n) by {
                if order_names(cur).contains(n) {
                    assert(order_names(pre).contains(n) || n == n0);
                    if n == n0 {
                        assert(gray1[gray1.len() - 1] == n0);
                        assert(gray1.no_duplicates());
                        let gi = choose|gi: int| 0 <= gi < gray0.len() && gray0[gi] == n0;
                        assert(gray1[gi] == n0);
                        assert(false);
                    }
                }
            }
        }
        i2 = i2 + 1;
    }
    let popped = gray.pop();
    proof {
        assert(gray@ =~= old(gray)@);
        assert(names_of(gray@) =~= gray0);
        let cur = items_of(deps.order@);
        assert(items_of(items@).subrange(0, items@.len() as int) =~= items_of(items@));
        assert(cur == order1 + items_of(items@));
        assert(order_names(cur).contains(n0)) by {
            assert(items_of(items@).len() > 0);
            assert(cur[order1.len() as int] == items_of(items@)[0]);
            assert(order_names(cur)[order1.len() as int] == n0);
        }
        // Re-establish the full working state with the name now appended.
        assert forall|n: Seq<char>| #[trigger] visited2.contains(n) implies order_names(
            cur,
        ).contains(n) || gray0.contains(n) by {
            if gray1.contains(n) {
                let gi = choose|gi: int| 0 <= gi < gray1.len() && gray1[gi] == n;
                if gi < gray0.len() {
                    assert(gray0[gi] == n);
                } else {
                    assert(n == n0);
                }
            }
        }
        assert forall|n: Seq<char>| #[trigger] gray0.contains(n) implies visited2.contains(n) by {
            let gi = choose|gi: int| 0 <= gi < gray0.len() && gray0[gi] == n;
            assert(gray1[gi] == n);
        }
        assert(order_ok(m, cur, gray0)) by {
            assert forall|k: int, d: Seq<char>|
                0 <= k < cur.len() && #[trigger] cur[k].real_deps().contains(d) && map_has_key(
                    m,
                    d,
                ) implies order_names(cur.subrange(0, k)).contains(d) && !gray0.contains(d) by {
                assert(!gray1.contains(d));
                if gray0.contains(d) {
                    let gi = choose|gi: int| 0 <= gi < gray0.len() && gray0[gi] == d;
                    assert(gray1[gi] == d);
                }
            }
        }
        assert(gray0.no_duplicates()) by {
            assert forall|k1: int, k2: int| 0 <= k1 < k2 < gray0.len() implies gray0[k1]
                != gray0[k2] by {
                assert(gray1[k1] == gray0[k1]);
                assert(gray1[k2] == gray0[k2]);
            }
        }
        assert(resolver_inv(m, cur, visited2, gray0));
        assert(cur.subrange(0, order0.len() as int) =~= order0) by {
            assert forall|x: int| 0 <= x < order0.len() implies cur.subrange(
                0,
                order0.len() as int,
            )[x] == order0[x] by {
                assert(cur[x] == order1[x]);
                assert(order1[x] == order1.subrange(0, order0.len() as int)[x]);
            }
        }
        assert(!gray0.contains(n0)) by {
            if gray0.contains(n0) {
                let gi = choose|gi: int| 0 <= gi < gray0.len() && gray0[gi] == n0;
                assert(gray1[gi] == n0);
                assert(gray1[gray1.len() - 1] == n0);
                assert(false);
            }
        }
    }
    Ok(())
}

} // verus!
