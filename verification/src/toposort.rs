//! Topological ordering of graph nodes: a compiled program's steps must run
//! every producer before its consumers, and a graph admits such an order
//! exactly when compilation succeeds.

use vstd::prelude::*;

use crate::graph::{conns_view, ConnV, Connection};

verus! {

broadcast use vstd::std_specs::vec::group_vec_axioms, vstd::seq::group_seq_axioms;

/// The order runs the start of the connection strictly before its end.
pub open spec fn edge_resp(order: Seq<u32>, c: ConnV) -> bool {
    exists|i: int, j: int| 0 <= i < j < order.len() && order[i] == c.0.0 && order[j] == c.1.0
}

/// `order` arranges exactly the ids of `ids`, each once, so that every
/// connection goes forward.
pub open spec fn is_topo_order(order: Seq<u32>, ids: Seq<u32>, cs: Seq<ConnV>) -> bool {
    &&& order.len() == ids.len()
    &&& order.no_duplicates()
    &&& forall|x: u32| order.contains(x) <==> ids.contains(x)
    &&& forall|k: int| 0 <= k < cs.len() ==> edge_resp(order, #[trigger] cs[k])
}

fn contains_id(v: &Vec<u32>, x: u32) -> (r: bool)
    ensures
        r == v@.contains(x),
{
    let mut i: usize = 0;
    while i < v.len()
        invariant
            0 <= i <= v@.len(),
            forall|j: int| 0 <= j < i ==> v@[j] != x,
        decreases v@.len() - i,
    {
        if v[i] == x {
            assert(v@[i as int] == x);
            return true;
        }
        i += 1;
    }
    false
}

/// Every node that feeds `x` has already been placed.
fn all_preds_done(connections: &Vec<Connection>, order: &Vec<u32>, x: u32) -> (r: bool)
    ensures
        r == forall|k: int|
            0 <= k < conns_view(connections@).len() && conns_view(connections@)[k].1.0 == x
                ==> order@.contains(#[trigger] conns_view(connections@)[k].0.0),
{
    let ghost cv = conns_view(connections@);
    let mut k: usize = 0;
    while k < connections.len()
        invariant
            0 <= k <= connections@.len(),
            cv == conns_view(connections@),
            forall|j: int|
                0 <= j < k && cv[j].1.0 == x ==> order@.contains(#[trigger] cv[j].0.0),
        decreases connections@.len() - k,
    {
        proof {
            assert(cv[k as int] == connections@[k as int]@);
        }
        if connections[k].to.node == x {
            if !contains_id(order, connections[k].from.node) {
                proof {
                    assert(cv[k as int].1.0 == x);
                    assert(!order@.contains(cv[k as int].0.0));
                }
                return false;
            }
        }
        k += 1;
    }
    true
}

/// Find a node that is not placed yet and whose feeders are all placed.
#[verifier::rlimit(50)]
fn find_ready(ids: &Vec<u32>, connections: &Vec<Connection>, order: &Vec<u32>) -> (r: Option<
    u32,
>)
    ensures
        match r {
            Some(x) => ids@.contains(x) && !order@.contains(x) && forall|k: int|
                0 <= k < conns_view(connections@).len() && conns_view(connections@)[k].1.0 == x
                    ==> order@.contains(#[trigger] conns_view(connections@)[k].0.0),
            None => forall|x: u32|
                ids@.contains(x) && !order@.contains(x) ==> exists|k: int|
                    0 <= k < conns_view(connections@).len() && conns_view(connections@)[k].1.0
                        == x && !order@.contains(conns_view(connections@)[k].0.0),
        },
{
    let ghost cv = conns_view(connections@);
    let mut i: usize = 0;
    while i < ids.len()
        invariant
            0 <= i <= ids@.len(),
            cv == conns_view(connections@),
            forall|j: int|
                0 <= j < i ==> order@.contains(#[trigger] ids@[j]) || exists|k: int|
                    0 <= k < cv.len() && cv[k].1.0 == ids@[j] && !order@.contains(cv[k].0.0),
        decreases ids@.len() - i,
    {
        let x = ids[i];
        if !contains_id(order, x) {
            if all_preds_done(connections, order, x) {
                assert(ids@[i as int] == x);
                assert(ids@.contains(x));
                return Some(x);
            }
        }
        i += 1;
    }
    proof {
        assert forall|x: u32| ids@.contains(x) && !order@.contains(x) implies exists|k: int|
            0 <= k < cv.len() && cv[k].1.0 == x && !order@.contains(cv[k].0.0) by {
            let j = choose|j: int| 0 <= j < ids@.len() && ids@[j] == x;
        }
    }
    None
}

/// A set of unplaced nodes each of which is fed by an unplaced node admits
/// no topological order.
#[verifier::rlimit(100)]
proof fn lemma_blocked_no_topo(ids: Seq<u32>, cs: Seq<ConnV>, done: Seq<u32>, order: Seq<u32>)
    requires
        exists|x: u32| ids.contains(x) && !done.contains(x),
        forall|x: u32|
            ids.contains(x) && !done.contains(x) ==> exists|k: int|
                0 <= k < cs.len() && cs[k].1.0 == x && !done.contains(cs[k].0.0)
                    && ids.contains(cs[k].0.0),
    ensures
        !is_topo_order(order, ids, cs),
{
    if is_topo_order(order, ids, cs) {
        let x0 = choose|x: u32| ids.contains(x) && !done.contains(x);
        assert(order.contains(x0));
        let j0 = choose|j: int| 0 <= j < order.len() && order[j] == x0;
        assert(ids.contains(order[j0]) && !done.contains(order[j0]));
        let jm = least_blocked(ids, done, order, 0);
        let xm = order[jm];
        let k = choose|k: int|
            0 <= k < cs.len() && cs[k].1.0 == xm && !done.contains(cs[k].0.0) && ids.contains(
                cs[k].0.0,
            );
        let f = cs[k].0.0;
        assert(edge_resp(order, cs[k]));
        let (a, b) = choose|a: int, b: int|
            0 <= a < b < order.len() && order[a] == cs[k].0.0 && order[b] == cs[k].1.0;
        // positions are unique, so the end of the connection sits at `jm`
        assert(b == jm) by {
            if b != jm {
                assert(order[b] != order[jm]);
            }
        }
        assert(a < jm);
        assert(ids.contains(order[a]) && !done.contains(order[a]));
        assert(false);
    }
}

/// The least order position holding a node that is in `ids` but not placed
/// in `done`; requires that one exists at or after `start`.
proof fn least_blocked(ids: Seq<u32>, done: Seq<u32>, order: Seq<u32>, start: int) -> (r: int)
    requires
        0 <= start <= order.len(),
        exists|j: int|
            start <= j < order.len() && ids.contains(order[j]) && !done.contains(order[j]),
        forall|i: int|
            0 <= i < start ==> !(ids.contains(order[i]) && !done.contains(order[i])),
    ensures
        start <= r < order.len(),
        ids.contains(order[r]) && !done.contains(order[r]),
        forall|i: int| 0 <= i < r ==> !(ids.contains(order[i]) && !done.contains(order[i])),
    decreases order.len() - start,
{
    if ids.contains(order[start]) && !done.contains(order[start]) {
        start
    } else {
        least_blocked(ids, done, order, start + 1)
    }
}

/// Arrange the node ids so that every connection runs forward, or report
/// that no such arrangement exists.
pub fn topo_sort(ids: &Vec<u32>, connections: &Vec<Connection>) -> (r: Result<Vec<u32>, ()>)
    requires
        ids@.no_duplicates(),
        forall|k: int|
            0 <= k < conns_view(connections@).len() ==> ids@.contains(
                #[trigger] conns_view(connections@)[k].0.0,
            ) && ids@.contains(conns_view(connections@)[k].1.0),
    ensures
        match r {
            Ok(order) => is_topo_order(order@, ids@, conns_view(connections@)),
            Err(_) => !exists|order: Seq<u32>|
                is_topo_order(order, ids@, conns_view(connections@)),
        },
{
    let ghost cv = conns_view(connections@);
    let mut order: Vec<u32> = Vec::new();
    proof {
        assert forall|k: int| 0 <= k < cv.len() implies ids@.contains(#[trigger] cv[k].0.0)
            && ids@.contains(cv[k].1.0) by {
            assert(conns_view(connections@)[k].0.0 == cv[k].0.0);
            assert(conns_view(connections@)[k].1.0 == cv[k].1.0);
            assert(ids@.contains(conns_view(connections@)[k].0.0));
        }
    }
    while order.len() < ids.len()
        invariant
            ids@.no_duplicates(),
            cv == conns_view(connections@),
            forall|k: int|
                0 <= k < cv.len() ==> ids@.contains(#[trigger] cv[k].0.0) && ids@.contains(
                    cv[k].1.0,
                ),
            order@.len() <= ids@.len(),
            order@.no_duplicates(),
            forall|j: int| 0 <= j < order@.len() ==> ids@.contains(#[trigger] order@[j]),
            forall|j: int, k: int|
                0 <= j < order@.len() && 0 <= k < cv.len() && (#[trigger] cv[k]).1.0 == (
                #[trigger] order@[j]) ==> exists|i: int| 0 <= i < j && order@[i] == cv[k].0.0,
        decreases ids@.len() - order@.len(),
    {
        match find_ready(ids, connections, &order) {
            Some(x) => {
                let ghost prev = order@;
                order.push(x);
                proof {
                    assert(order@ == prev.push(x));
                    assert forall|j: int, k: int|
                        0 <= j < order@.len() && 0 <= k < cv.len() && (#[trigger] cv[k]).1.0 == (
                        #[trigger] order@[j]) implies exists|i: int|
                        0 <= i < j && order@[i] == cv[k].0.0 by {
                        if j < prev.len() {
                            assert(prev[j] == order@[j]);
                            let i = choose|i: int| 0 <= i < j && prev[i] == cv[k].0.0;
                            assert(order@[i] == cv[k].0.0);
                        } else {
                            assert(order@[j] == x);
                            assert(prev.contains(cv[k].0.0));
                            let i = choose|i: int| 0 <= i < prev.len() && prev[i] == cv[k].0.0;
                            assert(order@[i] == cv[k].0.0);
                        }
                    }
                }
            },
            None => {
                proof {
                    // some id is unplaced: otherwise the distinct placed ids
                    // would outnumber the ids they come from
                    assert(exists|x: u32| ids@.contains(x) && !order@.contains(x)) by {
                        if forall|x: u32| ids@.contains(x) ==> order@.contains(x) {
                            ids@.unique_seq_to_set();
                            order@.unique_seq_to_set();
                            assert(ids@.to_set() <= order@.to_set()) by {
                                assert forall|x: u32| ids@.to_set().contains(x) implies order@
                                    .to_set().contains(x) by {
                                    assert(ids@.contains(x));
                                }
                            }
                            vstd::set_lib::lemma_len_subset(ids@.to_set(), order@.to_set());
                            assert(ids@.len() <= order@.len());
                            assert(false);
                        }
                    }
                    assert forall|order2: Seq<u32>| !is_topo_order(order2, ids@, cv) by {
                        assert forall|x: u32| ids@.contains(x) && !order@.contains(x) implies
                            exists|k: int|
                            0 <= k < cv.len() && cv[k].1.0 == x && !order@.contains(cv[k].0.0)
                                && ids@.contains(cv[k].0.0) by {
                            let k = choose|k: int|
                                0 <= k < cv.len() && cv[k].1.0 == x && !order@.contains(
                                    cv[k].0.0,
                                );
                        }
                        lemma_blocked_no_topo(ids@, cv, order@, order2);
                    }
                }
                return Err(());
            },
        }
    }
    proof {
        // equal length, distinct, and included: the placed ids are exactly
        // the node ids
        ids@.unique_seq_to_set();
        order@.unique_seq_to_set();
        assert(order@.to_set() <= ids@.to_set()) by {
            assert forall|x: u32| order@.to_set().contains(x) implies ids@.to_set().contains(
                x,
            ) by {
                assert(order@.contains(x));
                let j = choose|j: int| 0 <= j < order@.len() && order@[j] == x;
            }
        }
        vstd::set_lib::lemma_subset_equality(order@.to_set(), ids@.to_set());
        assert(order@.to_set() == ids@.to_set());
        assert forall|x: u32| order@.contains(x) <==> ids@.contains(x) by {
            if order@.contains(x) {
                assert(order@.to_set().contains(x));
            }
            if ids@.contains(x) {
                assert(ids@.to_set().contains(x));
                assert(order@.to_set().contains(x));
            }
        }
        assert forall|k: int| 0 <= k < cv.len() implies edge_resp(order@, #[trigger] cv[k]) by {
            assert(ids@.contains(cv[k].0.0));
            assert(ids@.contains(cv[k].1.0));
            assert(order@.contains(cv[k].1.0));
            let j = choose|j: int| 0 <= j < order@.len() && order@[j] == cv[k].1.0;
            assert(cv[k].1.0 == order@[j]);
            assert(exists|i: int| 0 <= i < j && order@[i] == cv[k].0.0);
            let i = choose|i: int| 0 <= i < j && order@[i] == cv[k].0.0;
            assert(0 <= i < j < order@.len() && order@[i] == cv[k].0.0 && order@[j] == cv[k].1.0);
        }
    }
    Ok(order)
}

} // verus!
