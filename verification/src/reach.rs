//! Backward reachability over a graph's connections: the optimization pass
//! that keeps only the nodes from which the target node can be reached, and
//! only the connections between such nodes.

use vstd::prelude::*;

use crate::graph::{conns_view, dup_node, nodes_view, ConnV, Connection, Node, NodeV};

verus! {

broadcast use vstd::std_specs::vec::group_vec_axioms, vstd::seq::group_seq_axioms;

/// Some connection wires an output of node `f` to an input of node `t`.
pub open spec fn has_edge(cs: Seq<ConnV>, f: u32, t: u32) -> bool {
    exists|k: int| 0 <= k < cs.len() && cs[k].0.0 == f && cs[k].1.0 == t
}

/// `p` is a walk along edges of `cs`.
pub open spec fn is_path(cs: Seq<ConnV>, p: Seq<u32>) -> bool {
    p.len() >= 1 && forall|i: int| 0 <= i < p.len() - 1 ==> has_edge(cs, #[trigger] p[i], p[i + 1])
}

/// Node `n` reaches node `t` along the connections (reflexively).
pub open spec fn reaches(cs: Seq<ConnV>, n: u32, t: u32) -> bool {
    exists|p: Seq<u32>| is_path(cs, p) && p.first() == n && p.last() == t
}

/// Node `n` reaches node `t` by a walk of at most `m` nodes.
pub open spec fn reaches_in(cs: Seq<ConnV>, n: u32, t: u32, m: int) -> bool {
    exists|p: Seq<u32>| is_path(cs, p) && p.first() == n && p.last() == t && p.len() <= m
}

proof fn lemma_reach_self(cs: Seq<ConnV>, t: u32)
    ensures
        reaches_in(cs, t, t, 1),
{
    let p = seq![t];
    assert(is_path(cs, p));
    assert(p.first() == t && p.last() == t && p.len() <= 1);
}

proof fn lemma_step_reach(cs: Seq<ConnV>, f: u32, x: u32, t: u32, m: int)
    requires
        has_edge(cs, f, x),
        reaches_in(cs, x, t, m),
    ensures
        reaches_in(cs, f, t, m + 1),
{
    let p = choose|p: Seq<u32>|
        is_path(cs, p) && p.first() == x && p.last() == t && p.len() <= m;
    let q = seq![f] + p;
    assert(q.len() == 1 + p.len());
    assert(q.first() == f);
    assert(q.last() == t);
    assert forall|i: int| 0 <= i < q.len() - 1 implies has_edge(cs, #[trigger] q[i], q[i + 1]) by {
        if i == 0 {
            assert(q[0] == f && q[1] == p[0]);
        } else {
            assert(q[i] == p[i - 1] && q[i + 1] == p[i]);
        }
    }
    assert(is_path(cs, q));
}

/// A walk can be shortened to one without repeated nodes.
proof fn lemma_distinct_path(cs: Seq<ConnV>, p: Seq<u32>)
    requires
        is_path(cs, p),
    ensures
        exists|q: Seq<u32>|
            is_path(cs, q) && q.first() == p.first() && q.last() == p.last()
                && q.no_duplicates(),
    decreases p.len(),
{
    if p.no_duplicates() {
        assert(is_path(cs, p) && p.first() == p.first() && p.last() == p.last()
            && p.no_duplicates());
    } else {
        let (a, b) = choose|a: int, b: int|
            0 <= a < p.len() && 0 <= b < p.len() && a != b && p[a] == p[b];
        let i = if a < b {
            a
        } else {
            b
        };
        let j = if a < b {
            b
        } else {
            a
        };
        let q = p.take(i + 1) + p.skip(j + 1);
        assert(q.len() == i + 1 + p.len() - j - 1);
        assert(q.len() < p.len());
        assert(q.len() >= 1);
        assert(q.first() == p[0]);
        assert forall|x: int| 0 <= x < q.len() - 1 implies has_edge(cs, #[trigger] q[x], q[x + 1]) by {
            if x < i {
                assert(q[x] == p[x] && q[x + 1] == p[x + 1]);
            } else if x == i {
                assert(q[x] == p[i]);
                assert(q[x + 1] == p[j + 1]);
                assert(p[i] == p[j]);
                assert(has_edge(cs, p[j], p[j + 1]));
            } else {
                assert(q[x] == p[x - i + j]);
                assert(q[x + 1] == p[x - i + j + 1]);
            }
        }
        assert(is_path(cs, q));
        if j + 1 < p.len() {
            assert(q.last() == p[p.len() - 1]);
        } else {
            assert(q.last() == p[i]);
            assert(p[i] == p[j]);
            assert(q.last() == p.last());
        }
        lemma_distinct_path(cs, q);
        let q2 = choose|q2: Seq<u32>|
            is_path(cs, q2) && q2.first() == q.first() && q2.last() == q.last()
                && q2.no_duplicates();
        assert(q2.first() == p.first() && q2.last() == p.last());
    }
}

/// A walk without repeated nodes has at most one node more than there are
/// connections: every node but the last starts some connection.
proof fn lemma_path_len_bound(cs: Seq<ConnV>, p: Seq<u32>)
    requires
        is_path(cs, p),
        p.no_duplicates(),
    ensures
        p.len() <= cs.len() + 1,
{
    let froms = cs.map_values(|c: ConnV| c.0.0);
    let starts = p.take(p.len() - 1);
    assert(starts.no_duplicates());
    assert forall|x: int| 0 <= x < starts.len() implies froms.to_set().contains(
        #[trigger] starts[x],
    ) by {
        assert(has_edge(cs, p[x], p[x + 1]));
        let k = choose|k: int| 0 <= k < cs.len() && cs[k].0.0 == p[x] && cs[k].1.0 == p[x + 1];
        assert(froms[k] == p[x]);
        assert(froms.to_set().contains(froms[k]));
    }
    starts.unique_seq_to_set();
    assert(starts.to_set().len() == starts.len());
    assert(starts.to_set() <= froms.to_set());
    froms.lemma_cardinality_of_set();
    vstd::set_lib::lemma_len_subset(starts.to_set(), froms.to_set());
    assert(starts.len() <= froms.len());
}

/// Every node that reaches `t` does so by a short walk.
proof fn lemma_reaches_bounded(cs: Seq<ConnV>, n: u32, t: u32)
    requires
        reaches(cs, n, t),
    ensures
        reaches_in(cs, n, t, cs.len() as int + 1),
{
    let p = choose|p: Seq<u32>| is_path(cs, p) && p.first() == n && p.last() == t;
    lemma_distinct_path(cs, p);
    let q = choose|q: Seq<u32>|
        is_path(cs, q) && q.first() == p.first() && q.last() == p.last() && q.no_duplicates();
    lemma_path_len_bound(cs, q);
}

fn contains_id(v: &Vec<u32>, x: u32) -> (r: bool)
    ensures
        r == v@.contains(x),
{
    let mut i: usize = 0;
    while i < v.len()
        invariant
            0 <= i <= v@.len(),
            forall|j: int| 0 <= j < i ==> v@[j] != x,
        decreases v@.len() - i,
    {
        if v[i] == x {
            assert(v@[i as int] == x);
            return true;
        }
        i += 1;
    }
    false
}

/// The nodes among the first `i` from which the target can be reached.
pub open spec fn reachable_nodes(ns: Seq<NodeV>, cs: Seq<ConnV>, target: u32, i: int) -> Seq<
    NodeV,
>
    decreases i,
{
    if i <= 0 {
        Seq::empty()
    } else {
        let prev = reachable_nodes(ns, cs, target, i - 1);
        if reaches(cs, ns[i - 1].id, target) {
            prev.push(ns[i - 1])
        } else {
            prev
        }
    }
}

/// The connections among the first `i` both of whose endpoints reach the
/// target.
pub open spec fn reachable_conns(cs: Seq<ConnV>, target: u32, i: int) -> Seq<ConnV>
    decreases i,
{
    if i <= 0 {
        Seq::empty()
    } else {
        let prev = reachable_conns(cs, target, i - 1);
        if reaches(cs, cs[i - 1].0.0, target) && reaches(cs, cs[i - 1].1.0, target) {
            prev.push(cs[i - 1])
        } else {
            prev
        }
    }
}

/// Reachability filter pass: keep the nodes from which the target node is
/// reachable along connections, and the connections between kept nodes.
pub fn filter_unconnected(nodes: &Vec<Node>, connections: &Vec<Connection>, target: u32) -> (r: (
    Vec<Node>,
    Vec<Connection>,
))
    requires
        connections@.len() < usize::MAX,
    ensures
        nodes_view(r.0@) == reachable_nodes(
            nodes_view(nodes@),
            conns_view(connections@),
            target,
            nodes@.len() as int,
        ),
        conns_view(r.1@) == reachable_conns(
            conns_view(connections@),
            target,
            connections@.len() as int,
        ),
{
    let ghost ns = nodes_view(nodes@);
    let ghost cv = conns_view(connections@);

    let mut keep: Vec<u32> = Vec::new();
    keep.push(target);
    proof {
        lemma_reach_self(cv, target);
        assert(keep@ == seq![target]);
        assert(keep@[0] == target);
        assert(keep@.contains(target));
        assert forall|x: int| 0 <= x < keep@.len() implies reaches(
            cv,
            #[trigger] keep@[x],
            target,
        ) by {
            let p = choose|p: Seq<u32>|
                is_path(cv, p) && p.first() == target && p.last() == target && p.len() <= 1;
            assert(is_path(cv, p) && p.first() == keep@[x] && p.last() == target);
        }
        assert forall|n: u32| reaches_in(cv, n, target, 1) implies keep@.contains(n) by {
            let p = choose|p: Seq<u32>|
                is_path(cv, p) && p.first() == n && p.last() == target && p.len() <= 1;
            assert(p.len() == 1);
            assert(p.first() == p.last());
            assert(n == target);
        }
    }

    let passes: usize = connections.len() + 1;
    let mut pass: usize = 0;
    while pass < passes
        invariant
            cv == conns_view(connections@),
            passes == connections@.len() + 1,
            0 <= pass <= passes,
            keep@.contains(target),
            forall|x: int| 0 <= x < keep@.len() ==> reaches(cv, #[trigger] keep@[x], target),
            forall|n: u32| reaches_in(cv, n, target, pass + 1) ==> keep@.contains(n),
        decreases passes - pass,
    {
        let ghost keep0 = keep@;
        let mut k: usize = 0;
        while k < connections.len()
            invariant
                cv == conns_view(connections@),
                0 <= k <= connections@.len(),
                keep@.contains(target),
                forall|x: int| 0 <= x < keep@.len() ==> reaches(cv, #[trigger] keep@[x], target),
                forall|n: u32| keep0.contains(n) ==> keep@.contains(n),
                forall|j: int|
                    0 <= j < k && keep0.contains(cv[j].1.0) ==> keep@.contains(cv[j].0.0),
            decreases connections@.len() - k,
        {
            let f = connections[k].from.node;
            let t = connections[k].to.node;
            proof {
                assert(cv[k as int] == connections@[k as int]@);
            }
            if contains_id(&keep, t) && !contains_id(&keep, f) {
                proof {
                    let x = choose|x: int| 0 <= x < keep@.len() && keep@[x] == t;
                    assert(reaches(cv, t, target));
                    assert(has_edge(cv, f, t)) by {
                        assert(cv[k as int].0.0 == f && cv[k as int].1.0 == t);
                    }
                    let p = choose|p: Seq<u32>|
                        is_path(cv, p) && p.first() == t && p.last() == target;
                    lemma_step_reach(cv, f, t, target, p.len() as int);
                    assert(reaches(cv, f, target));
                }
                let ghost prevk = keep@;
                keep.push(f);
                proof {
                    assert(keep@ == prevk.push(f));
                    assert(keep@[keep@.len() - 1] == f);
                    assert forall|n: u32| prevk.contains(n) implies keep@.contains(n) by {
                        let x = choose|x: int| 0 <= x < prevk.len() && prevk[x] == n;
                        assert(keep@[x] == n);
                    }
                }
            }
            k += 1;
        }
        pass += 1;
        proof {
            assert forall|n: u32| reaches_in(cv, n, target, pass + 1) implies keep@.contains(
                n,
            ) by {
                let p = choose|p: Seq<u32>|
                    is_path(cv, p) && p.first() == n && p.last() == target && p.len() <= pass
                        + 1;
                if p.len() == 1 {
                    assert(n == target);
                } else {
                    let rest = p.skip(1);
                    assert(rest.len() == p.len() - 1);
                    assert forall|i: int| 0 <= i < rest.len() - 1 implies has_edge(
                        cv,
                        #[trigger] rest[i],
                        rest[i + 1],
                    ) by {
                        assert(rest[i] == p[i + 1] && rest[i + 1] == p[i + 2]);
                    }
                    assert(is_path(cv, rest));
                    assert(rest.first() == p[1] && rest.last() == target);
                    assert(rest.len() <= pass);
                    assert(reaches_in(cv, p[1], target, pass as int));
                    assert(keep0.contains(p[1]));
                    assert(has_edge(cv, p[0], p[1]));
                    let e = choose|e: int|
                        0 <= e < cv.len() && cv[e].0.0 == p[0] && cv[e].1.0 == p[1];
                    assert(keep@.contains(cv[e].0.0));
                }
            }
        }
    }

    // every node that reaches the target is now marked, and only those
    proof {
        assert forall|n: u32| reaches(cv, n, target) implies keep@.contains(n) by {
            lemma_reaches_bounded(cv, n, target);
            assert(reaches_in(cv, n, target, pass + 1)) by {
                let p = choose|p: Seq<u32>|
                    is_path(cv, p) && p.first() == n && p.last() == target && p.len() <= cv.len() as int
                        + 1;
                assert(p.len() <= pass + 1);
            }
        }
    }

    let mut out_nodes: Vec<Node> = Vec::new();
    let mut i: usize = 0;
    proof {
        assert(nodes_view(out_nodes@) =~= reachable_nodes(ns, cv, target, 0));
    }
    while i < nodes.len()
        invariant
            0 <= i <= nodes@.len(),
            ns == nodes_view(nodes@),
            cv == conns_view(connections@),
            nodes_view(out_nodes@) == reachable_nodes(ns, cv, target, i as int),
            forall|x: int| 0 <= x < keep@.len() ==> reaches(cv, #[trigger] keep@[x], target),
            forall|n: u32| reaches(cv, n, target) ==> keep@.contains(n),
        decreases nodes@.len() - i,
    {
        proof {
            assert(ns[i as int] == nodes@[i as int]@);
        }
        let marked = contains_id(&keep, nodes[i].id);
        proof {
            if marked {
                let x = choose|x: int| 0 <= x < keep@.len() && keep@[x] == ns[i as int].id;
            }
            assert(marked == reaches(cv, ns[i as int].id, target));
        }
        if marked {
            let ghost prev = nodes_view(out_nodes@);
            out_nodes.push(dup_node(&nodes[i]));
            proof {
                assert(nodes_view(out_nodes@) =~= prev.push(ns[i as int]));
            }
        }
        i += 1;
    }

    let mut out_conns: Vec<Connection> = Vec::new();
    let mut c: usize = 0;
    proof {
        assert(conns_view(out_conns@) =~= reachable_conns(cv, target, 0));
    }
    while c < connections.len()
        invariant
            0 <= c <= connections@.len(),
            cv == conns_view(connections@),
            conns_view(out_conns@) == reachable_conns(cv, target, c as int),
            forall|x: int| 0 <= x < keep@.len() ==> reaches(cv, #[trigger] keep@[x], target),
            forall|n: u32| reaches(cv, n, target) ==> keep@.contains(n),
        decreases connections@.len() - c,
    {
        proof {
            assert(cv[c as int] == connections@[c as int]@);
        }
        let conn = &connections[c];
        let fm = contains_id(&keep, conn.from.node);
        let tm = contains_id(&keep, conn.to.node);
        proof {
            if fm {
                let x = choose|x: int| 0 <= x < keep@.len() && keep@[x] == conn.from.node;
            }
            if tm {
                let x = choose|x: int| 0 <= x < keep@.len() && keep@[x] == conn.to.node;
            }
            assert(fm == reaches(cv, cv[c as int].0.0, target));
            assert(tm == reaches(cv, cv[c as int].1.0, target));
        }
        if fm && tm {
            let ghost prev = conns_view(out_conns@);
            out_conns.push(conn.dup());
            proof {
                assert(conns_view(out_conns@) =~= prev.push(cv[c as int]));
            }
        }
        c += 1;
    }

    (out_nodes, out_conns)
}

} // verus!
