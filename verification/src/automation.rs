//! Compiling an automation graph into a program: validation, the
//! optimization passes in order, dependency extraction, materialization and
//! the topological sort.

use vstd::prelude::*;

use crate::graph::{
    added_default_conns, added_default_nodes, conns_view, default_values, sorted_dedup, deps_of,
    find_dependencies, merge_device_nodes, merged_conns, merged_nodes, nodes_view, num_targets,
    is_dup_device, unique_connections, unique_ids, Automation, ConnV, Connection, Node, NodeV,
    PropV, Properties, dup_node, count_targets, defaults_view,
};
use crate::json::JsonV;
use crate::program::{nodes_ids, rnodes_view, steps_from, NodeRV, Program, RuntimeNode, StepV};
use crate::reach::{filter_unconnected, reachable_conns, reachable_nodes};
use crate::toposort::is_topo_order;
use crate::ValueId;

verus! {

broadcast use vstd::std_specs::vec::group_vec_axioms, vstd::seq::group_seq_axioms;

/// Mathematical view of an [`Automation`].
pub struct AutomationV {
    pub counter: u32,
    pub nodes: Seq<NodeV>,
    pub conns: Seq<ConnV>,
    pub defaults: Seq<((u32, Seq<char>), JsonV)>,
}

impl View for Automation {
    type V = AutomationV;

    open spec fn view(&self) -> AutomationV {
        AutomationV {
            counter: self.counter,
            nodes: nodes_view(self.nodes@),
            conns: conns_view(self.connections@),
            defaults: defaults_view(self.defaults@),
        }
    }
}

/// Why a graph was rejected.
#[derive(Debug, Clone, Copy, PartialEq, Eq, Structural)]
pub enum CompileError {
    /// The graph holds no `Target` node, or more than one.
    NotExactlyOneTarget,
    /// Two nodes carry the same id. Such a graph has no coherent wiring,
    /// so it is rejected outright rather than compiled to an arbitrary
    /// reading of it.
    DuplicateNodeId,
    /// The nodes that matter cannot be ordered: a cycle remains after
    /// optimization.
    NotAcyclic,
}

impl CompileError {
    /// The human-readable description of the error.
    pub fn message(&self) -> (r: String)
        ensures
            (*self == CompileError::NotExactlyOneTarget ==> r@
                == "Programs requires exactly one Target"@),
            (*self == CompileError::DuplicateNodeId ==> r@ == "Node ids must be unique"@),
            (*self == CompileError::NotAcyclic ==> r@ == "Program is not acyclic"@),
    {
        match self {
            CompileError::NotExactlyOneTarget => "Programs requires exactly one Target".to_owned(),
            CompileError::DuplicateNodeId => "Node ids must be unique".to_owned(),
            CompileError::NotAcyclic => "Program is not acyclic".to_owned(),
        }
    }
}

/// The ids of a node list.
pub open spec fn ids_of_nodes(ns: Seq<NodeV>) -> Seq<u32> {
    ns.map_values(|n: NodeV| n.id)
}

/// The id of the first `Target` node.
pub open spec fn target_id(ns: Seq<NodeV>) -> u32
    decreases ns.len(),
{
    if ns.len() == 0 {
        0
    } else if ns.first().props is Target {
        ns.first().id
    } else {
        target_id(ns.drop_first())
    }
}

/// The connections both of whose endpoints are ids of surviving nodes,
/// among the first `i`.
pub open spec fn kept_conns(ns: Seq<NodeV>, cs: Seq<ConnV>, i: int) -> Seq<ConnV>
    decreases i,
{
    if i <= 0 {
        Seq::empty()
    } else {
        let prev = kept_conns(ns, cs, i - 1);
        if ids_of_nodes(ns).contains(cs[i - 1].0.0) && ids_of_nodes(ns).contains(cs[i - 1].1.0) {
            prev.push(cs[i - 1])
        } else {
            prev
        }
    }
}

proof fn lemma_kept_conns_endpoints(ns: Seq<NodeV>, cs: Seq<ConnV>, i: int)
    ensures
        forall|k: int|
            0 <= k < kept_conns(ns, cs, i).len() ==> ids_of_nodes(ns).contains(
                (#[trigger] kept_conns(ns, cs, i)[k]).0.0,
            ) && ids_of_nodes(ns).contains(kept_conns(ns, cs, i)[k].1.0),
    decreases i,
{
    if i > 0 {
        lemma_kept_conns_endpoints(ns, cs, i - 1);
        let prev = kept_conns(ns, cs, i - 1);
        let cur = kept_conns(ns, cs, i);
        assert forall|k: int|
            0 <= k < cur.len() implies ids_of_nodes(ns).contains((#[trigger] cur[k]).0.0)
            && ids_of_nodes(ns).contains(cur[k].1.0) by {
            if k < prev.len() {
                assert(cur[k] == prev[k]);
            }
        }
    }
}

/// Filtering keeps each node of the original list at most once, so distinct
/// ids stay distinct.
proof fn lemma_reachable_nodes_unique(ns: Seq<NodeV>, cs: Seq<ConnV>, t: u32, i: int)
    requires
        unique_ids(ns),
        0 <= i <= ns.len(),
    ensures
        forall|x: int|
            0 <= x < reachable_nodes(ns, cs, t, i).len() ==> exists|j: int|
                0 <= j < i && #[trigger] reachable_nodes(ns, cs, t, i)[x] == ns[j],
        unique_ids(reachable_nodes(ns, cs, t, i)),
    decreases i,
{
    if i > 0 {
        lemma_reachable_nodes_unique(ns, cs, t, i - 1);
        let prev = reachable_nodes(ns, cs, t, i - 1);
        let cur = reachable_nodes(ns, cs, t, i);
        assert forall|x: int|
            0 <= x < cur.len() implies exists|j: int| 0 <= j < i && #[trigger] cur[x] == ns[j] by {
            if x < prev.len() {
                assert(cur[x] == prev[x]);
                let j = choose|j: int| 0 <= j < i - 1 && prev[x] == ns[j];
                assert(cur[x] == ns[j]);
            } else {
                assert(cur[x] == ns[i - 1]);
            }
        }
        assert forall|x: int, y: int| 0 <= x < y < cur.len() implies cur[x].id != cur[y].id by {
            if y < prev.len() {
                assert(cur[x] == prev[x] && cur[y] == prev[y]);
            } else {
                assert(cur[y] == ns[i - 1]);
                assert(cur[x] == prev[x]);
                let j = choose|j: int| 0 <= j < i - 1 && prev[x] == ns[j];
                assert(ns[j].id != ns[i - 1].id);
            }
        }
    }
}

/// Device deduplication likewise keeps distinct ids distinct.
proof fn lemma_merged_nodes_unique(ns: Seq<NodeV>, i: int)
    requires
        unique_ids(ns),
        0 <= i <= ns.len(),
    ensures
        forall|x: int|
            0 <= x < merged_nodes(ns, i).len() ==> exists|j: int|
                0 <= j < i && #[trigger] merged_nodes(ns, i)[x] == ns[j],
        unique_ids(merged_nodes(ns, i)),
    decreases i,
{
    if i > 0 {
        lemma_merged_nodes_unique(ns, i - 1);
        let prev = merged_nodes(ns, i - 1);
        let cur = merged_nodes(ns, i);
        assert forall|x: int|
            0 <= x < cur.len() implies exists|j: int| 0 <= j < i && #[trigger] cur[x] == ns[j] by {
            if x < prev.len() {
                assert(cur[x] == prev[x]);
                let j = choose|j: int| 0 <= j < i - 1 && prev[x] == ns[j];
                assert(cur[x] == ns[j]);
            } else {
                assert(cur[x] == ns[i - 1]);
            }
        }
        assert forall|x: int, y: int| 0 <= x < y < cur.len() implies cur[x].id != cur[y].id by {
            if y < prev.len() {
                assert(cur[x] == prev[x] && cur[y] == prev[y]);
            } else {
                assert(cur[y] == ns[i - 1]);
                assert(cur[x] == prev[x]);
                let j = choose|j: int| 0 <= j < i - 1 && prev[x] == ns[j];
                assert(ns[j].id != ns[i - 1].id);
            }
        }
    }
}

/// Kept nodes come from the original list in order, and a kept node is
/// never a duplicate device occurrence.
proof fn lemma_merged_nodes_ordered(ns: Seq<NodeV>, i: int)
    requires
        0 <= i <= ns.len(),
    ensures
        forall|x: int, y: int|
            0 <= x < y < merged_nodes(ns, i).len() ==> exists|jx: int, jy: int|
                0 <= jx < jy < i && #[trigger] merged_nodes(ns, i)[x] == ns[jx] && #[trigger] merged_nodes(
                    ns,
                    i,
                )[y] == ns[jy] && !is_dup_device(ns, jy),
        forall|x: int|
            0 <= x < merged_nodes(ns, i).len() ==> exists|j: int|
                0 <= j < i && #[trigger] merged_nodes(ns, i)[x] == ns[j] && !is_dup_device(ns, j),
    decreases i,
{
    if i > 0 {
        lemma_merged_nodes_ordered(ns, i - 1);
        let prev = merged_nodes(ns, i - 1);
        let cur = merged_nodes(ns, i);
        assert forall|x: int|
            0 <= x < cur.len() implies exists|j: int|
            0 <= j < i && #[trigger] cur[x] == ns[j] && !is_dup_device(ns, j) by {
            if x < prev.len() {
                assert(cur[x] == prev[x]);
                let j = choose|j: int|
                    0 <= j < i - 1 && prev[x] == ns[j] && !is_dup_device(ns, j);
                assert(cur[x] == ns[j] && !is_dup_device(ns, j));
            } else {
                assert(cur[x] == ns[i - 1] && !is_dup_device(ns, i - 1));
            }
        }
        assert forall|x: int, y: int|
            0 <= x < y < cur.len() implies exists|jx: int, jy: int|
            0 <= jx < jy < i && #[trigger] cur[x] == ns[jx] && #[trigger] cur[y] == ns[jy]
                && !is_dup_device(ns, jy) by {
            if y < prev.len() {
                assert(cur[x] == prev[x] && cur[y] == prev[y]);
                let (jx, jy) = choose|jx: int, jy: int|
                    0 <= jx < jy < i - 1 && prev[x] == ns[jx] && prev[y] == ns[jy]
                        && !is_dup_device(ns, jy);
                assert(cur[x] == ns[jx] && cur[y] == ns[jy]);
            } else {
                assert(cur[y] == ns[i - 1] && !is_dup_device(ns, i - 1));
                assert(cur[x] == prev[x]);
                let jx = choose|jx: int|
                    0 <= jx < i - 1 && prev[x] == ns[jx] && !is_dup_device(ns, jx);
                assert(cur[x] == ns[jx]);
            }
        }
    }
}

/// After device deduplication the node list holds at most one node per
/// device: no two kept nodes name the same device.
pub proof fn lemma_at_most_one_device(ns: Seq<NodeV>, i: int)
    requires
        0 <= i <= ns.len(),
    ensures
        forall|x: int, y: int|
            0 <= x < y < merged_nodes(ns, i).len() ==> !((#[trigger] merged_nodes(ns, i)[x]).props
                is Device && (#[trigger] merged_nodes(ns, i)[y]).props is Device && merged_nodes(
                ns,
                i,
            )[x].props->Device_0 == merged_nodes(ns, i)[y].props->Device_0),
{
    lemma_merged_nodes_ordered(ns, i);
    let cur = merged_nodes(ns, i);
    assert forall|x: int, y: int|
        0 <= x < y < cur.len() implies !((#[trigger] cur[x]).props is Device && (
    #[trigger] cur[y]).props is Device && cur[x].props->Device_0 == cur[y].props->Device_0) by {
        if cur[x].props is Device && cur[y].props is Device && cur[x].props->Device_0
            == cur[y].props->Device_0 {
            let (jx, jy) = choose|jx: int, jy: int|
                0 <= jx < jy < i && cur[x] == ns[jx] && cur[y] == ns[jy] && !is_dup_device(
                    ns,
                    jy,
                );
            assert(ns[jx].props is Device);
            assert(is_dup_device(ns, jy));
            assert(false);
        }
    }
}

/// Device deduplication takes the union of the duplicates' outgoing
/// edges: the canonical connection list holds a connection exactly when
/// some surviving connection rewrites to it, the start of a dropped
/// device node's edge moving to the kept node for its device.
pub proof fn lemma_merge_unions_edges(a: AutomationV, c: ConnV)
    ensures
        opt_conns3(a).contains(c) <==> exists|i: int|
            0 <= i < opt_conns1(a).len() && c == (
                (
                    crate::graph::resolve_source(
                        opt_nodes1(a),
                        (#[trigger] opt_conns1(a)[i]).0.0,
                    ),
                    opt_conns1(a)[i].0.1,
                ),
                opt_conns1(a)[i].1,
            ),
{
    let m = merged_conns(opt_nodes1(a), opt_conns1(a));
    crate::graph::lemma_sorted_dedup_props(m, opt_conns1(a).len() as int);
    assert(m.take(opt_conns1(a).len() as int) =~= m);
    assert(opt_conns3(a).contains(c) <==> m.contains(c));
    if m.contains(c) {
        let i = choose|i: int| 0 <= i < m.len() && m[i] == c;
        assert(m[i] == (
            (
                crate::graph::resolve_source(opt_nodes1(a), opt_conns1(a)[i].0.0),
                opt_conns1(a)[i].0.1,
            ),
            opt_conns1(a)[i].1,
        ));
    }
    if exists|i: int|
        0 <= i < opt_conns1(a).len() && c == (
            (crate::graph::resolve_source(opt_nodes1(a), (#[trigger] opt_conns1(a)[i]).0.0), opt_conns1(a)[i].0.1),
            opt_conns1(a)[i].1,
        ) {
        let i = choose|i: int|
            0 <= i < opt_conns1(a).len() && c == (
                (
                    crate::graph::resolve_source(opt_nodes1(a), (#[trigger] opt_conns1(a)[i]).0.0),
                    opt_conns1(a)[i].0.1,
                ),
                opt_conns1(a)[i].1,
            );
        assert(m[i] == c);
        assert(m.contains(c));
    }
}

/// How a node's properties materialize into a runtime node.
pub open spec fn node_rv_of(p: PropV, tgt: (Seq<char>, Seq<char>)) -> NodeRV {
    match p {
        PropV::Target => NodeRV::Target(tgt),
        PropV::Device(d) => NodeRV::Device(d),
        PropV::Value(v) => NodeRV::Value(v),
        PropV::IsNull(_) => NodeRV::IsNull,
        PropV::Equals(_, _) => NodeRV::Equals,
        PropV::If(_) => NodeRV::If,
        PropV::And => NodeRV::And,
        PropV::Or => NodeRV::Or,
        PropV::Not => NodeRV::Not,
        PropV::Xor => NodeRV::Xor,
        PropV::Latch => NodeRV::Latch(false),
        PropV::Toggle => NodeRV::Toggle(false),
        PropV::MathCompare(op) => NodeRV::Compare(op),
    }
}

/// The materialized node list of an optimized graph.
pub open spec fn materialize(ns: Seq<NodeV>, tgt: (Seq<char>, Seq<char>)) -> Seq<(u32, NodeRV)> {
    ns.map_values(|n: NodeV| (n.id, node_rv_of(n.props, tgt)))
}

/// Materialize one node's properties, with fresh latch and toggle state.
pub fn prop_to_node(target: &ValueId, p: &Properties) -> (r: RuntimeNode)
    ensures
        r@ == node_rv_of(p@, target@),
{
    match p {
        Properties::Target => RuntimeNode::Target(target.dup()),
        Properties::Device(d) => RuntimeNode::Device(d.clone()),
        Properties::Value(v) => RuntimeNode::Value(crate::json::dup_value(v)),
        Properties::IsNull(_) => RuntimeNode::IsNull,
        Properties::Equals { .. } => RuntimeNode::Equals,
        Properties::If { .. } => RuntimeNode::If,
        Properties::And => RuntimeNode::And,
        Properties::Or => RuntimeNode::Or,
        Properties::Not => RuntimeNode::Not,
        Properties::Xor => RuntimeNode::Xor,
        Properties::Latch => RuntimeNode::Latch(false),
        Properties::Toggle => RuntimeNode::Toggle(false),
        Properties::MathCompare { operator } => RuntimeNode::Compare(*operator),
    }
}

fn has_duplicate_ids(nodes: &Vec<Node>) -> (r: bool)
    ensures
        r == !unique_ids(nodes_view(nodes@)),
{
    let ghost ns = nodes_view(nodes@);
    let mut i: usize = 0;
    while i < nodes.len()
        invariant
            0 <= i <= nodes@.len(),
            ns == nodes_view(nodes@),
            forall|a: int, b: int| 0 <= a < b < nodes@.len() && a < i ==> ns[a].id != ns[b].id,
        decreases nodes@.len() - i,
    {
        let mut j: usize = i + 1;
        while j < nodes.len()
            invariant
                0 <= i < j <= nodes@.len(),
                ns == nodes_view(nodes@),
                forall|b: int| i < b < j ==> ns[i as int].id != ns[b].id,
            decreases nodes@.len() - j,
        {
            proof {
                assert(ns[i as int] == nodes@[i as int]@);
                assert(ns[j as int] == nodes@[j as int]@);
            }
            if nodes[i].id == nodes[j].id {
                return true;
            }
            j += 1;
        }
        i += 1;
    }
    false
}

fn find_target_id(nodes: &Vec<Node>) -> (r: u32)
    requires
        num_targets(nodes_view(nodes@), nodes@.len() as int) == 1,
    ensures
        r == target_id(nodes_view(nodes@)),
{
    let ghost ns = nodes_view(nodes@);
    let mut i: usize = 0;
    proof {
        assert(ns.skip(0) =~= ns);
    }
    while i < nodes.len()
        invariant
            0 <= i <= nodes@.len(),
            ns == nodes_view(nodes@),
            num_targets(ns, ns.len() as int) == 1,
            target_id(ns) == target_id(ns.skip(i as int)),
            num_targets(ns, i as int) == 0,
        decreases nodes@.len() - i,
    {
        proof {
            assert(ns[i as int] == nodes@[i as int]@);
            assert(ns.skip(i as int).first() == ns[i as int]);
        }
        let found = match &nodes[i].properties {
            Properties::Target => true,
            _ => false,
        };
        if found {
            proof {
                assert(target_id(ns.skip(i as int)) == ns[i as int].id);
            }
            return nodes[i].id;
        }
        proof {
            assert(ns.skip(i as int).drop_first() =~= ns.skip(i as int + 1));
        }
        i += 1;
    }
    proof {
        assert(false);
    }
    0
}

fn restrict_conns(nodes: &Vec<Node>, conns: &Vec<Connection>) -> (r: Vec<Connection>)
    ensures
        conns_view(r@) == kept_conns(nodes_view(nodes@), conns_view(conns@), conns@.len() as int),
{
    let ghost ns = nodes_view(nodes@);
    let ghost cv = conns_view(conns@);
    let mut out: Vec<Connection> = Vec::new();
    let mut i: usize = 0;
    proof {
        assert(conns_view(out@) =~= kept_conns(ns, cv, 0));
    }
    while i < conns.len()
        invariant
            0 <= i <= conns@.len(),
            ns == nodes_view(nodes@),
            cv == conns_view(conns@),
            conns_view(out@) == kept_conns(ns, cv, i as int),
        decreases conns@.len() - i,
    {
        let c = &conns[i];
        proof {
            assert(cv[i as int] == c@);
        }
        let keep_from = has_node_id(nodes, c.from.node);
        let keep_to = has_node_id(nodes, c.to.node);
        if keep_from && keep_to {
            let ghost prev = conns_view(out@);
            out.push(c.dup());
            proof {
                assert(conns_view(out@) =~= prev.push(cv[i as int]));
            }
        }
        i += 1;
    }
    out
}

fn has_node_id(nodes: &Vec<Node>, id: u32) -> (r: bool)
    ensures
        r == ids_of_nodes(nodes_view(nodes@)).contains(id),
{
    let ghost ids = ids_of_nodes(nodes_view(nodes@));
    let mut i: usize = 0;
    while i < nodes.len()
        invariant
            0 <= i <= nodes@.len(),
            ids == ids_of_nodes(nodes_view(nodes@)),
            forall|j: int| 0 <= j < i ==> ids[j] != id,
        decreases nodes@.len() - i,
    {
        proof {
            assert(ids[i as int] == nodes_view(nodes@)[i as int].id);
            assert(nodes_view(nodes@)[i as int] == nodes@[i as int]@);
        }
        if nodes[i].id == id {
            assert(ids[i as int] == id);
            return true;
        }
        i += 1;
    }
    false
}

/// The graph with default values injected: its node and connection lists.
pub open spec fn ext_nodes(a: AutomationV) -> Seq<NodeV> {
    a.nodes + added_default_nodes(a.counter, a.conns, a.defaults, a.defaults.len() as int)
}

pub open spec fn ext_conns(a: AutomationV) -> Seq<ConnV> {
    a.conns + added_default_conns(a.counter, a.conns, a.defaults, a.defaults.len() as int)
}

/// The optimization pipeline over views: reachability filter, device
/// deduplication, connection dedup, and the final restriction to surviving
/// nodes.
pub open spec fn opt_nodes1(a: AutomationV) -> Seq<NodeV> {
    reachable_nodes(ext_nodes(a), ext_conns(a), target_id(a.nodes), ext_nodes(a).len() as int)
}

pub open spec fn opt_conns1(a: AutomationV) -> Seq<ConnV> {
    reachable_conns(ext_conns(a), target_id(a.nodes), ext_conns(a).len() as int)
}

pub open spec fn opt_nodes(a: AutomationV) -> Seq<NodeV> {
    merged_nodes(opt_nodes1(a), opt_nodes1(a).len() as int)
}

pub open spec fn opt_conns3(a: AutomationV) -> Seq<ConnV> {
    sorted_dedup(merged_conns(opt_nodes1(a), opt_conns1(a)), opt_conns1(a).len() as int)
}

/// The value ids a compiled automation depends on.
pub open spec fn auto_deps(a: AutomationV) -> Seq<(Seq<char>, Seq<char>)> {
    deps_of(opt_nodes(a), opt_conns3(a), opt_nodes(a).len() as int)
}

/// The connections a compiled program runs with.
pub open spec fn final_conns(a: AutomationV) -> Seq<ConnV> {
    kept_conns(opt_nodes(a), opt_conns3(a), opt_conns3(a).len() as int)
}

impl Automation {
    /// Compile the graph into a program and the set of value ids it depends
    /// on. Rejects a graph without exactly one `Target`, with colliding node
    /// ids, or with a cycle among the nodes that matter; a graph with no
    /// connections or no dependencies compiles to the empty program.
    pub fn compile(&self, target: &ValueId) -> (r: Result<(Program, Vec<ValueId>), CompileError>)
        requires
            self@.counter + self@.defaults.len() <= u32::MAX,
            self@.conns.len() + self@.defaults.len() < usize::MAX,
        ensures
            num_targets(self@.nodes, self@.nodes.len() as int) != 1 ==> r == Err::<
                (Program, Vec<ValueId>),
                CompileError,
            >(CompileError::NotExactlyOneTarget),
            num_targets(self@.nodes, self@.nodes.len() as int) == 1 && self@.conns.len() == 0
                ==> (match r {
                Ok((p, deps)) => p@ == Seq::<StepV>::empty() && deps@.map_values(
                    |v: ValueId| v@,
                ) == Seq::<(Seq<char>, Seq<char>)>::empty(),
                Err(_) => false,
            }),
            num_targets(self@.nodes, self@.nodes.len() as int) == 1 && self@.conns.len() > 0
                && !unique_ids(ext_nodes(self@)) ==> r == Err::<
                (Program, Vec<ValueId>),
                CompileError,
            >(CompileError::DuplicateNodeId),
            num_targets(self@.nodes, self@.nodes.len() as int) == 1 && self@.conns.len() > 0
                && unique_ids(ext_nodes(self@)) ==> (match r {
                Ok((p, deps)) => {
                    &&& deps@.map_values(|v: ValueId| v@) == (if auto_deps(self@).len() == 0 {
                        Seq::<(Seq<char>, Seq<char>)>::empty()
                    } else {
                        auto_deps(self@)
                    })
                    &&& if auto_deps(self@).len() == 0 {
                        p@ == Seq::<StepV>::empty()
                    } else {
                        exists|order: Seq<u32>|
                            is_topo_order(
                                order,
                                ids_of_nodes(opt_nodes(self@)),
                                final_conns(self@),
                            ) && p@ == steps_from(
                                order,
                                materialize(opt_nodes(self@), target@),
                                final_conns(self@),
                            )
                    }
                },
                Err(e) => e == CompileError::NotAcyclic && auto_deps(self@).len() > 0 && !exists|
                    order: Seq<u32>,
                |
                    is_topo_order(order, ids_of_nodes(opt_nodes(self@)), final_conns(self@)),
            }),
    {
        let ghost a = self@;
        let tcount = count_targets(&self.nodes);
        if tcount != 1 {
            return Err(CompileError::NotExactlyOneTarget);
        }
        if self.connections.len() == 0 {
            let deps: Vec<ValueId> = Vec::new();
            proof {
                assert(deps@.map_values(|v: ValueId| v@) =~= Seq::<
                    (Seq<char>, Seq<char>),
                >::empty());
            }
            return Ok((Program::empty(), deps));
        }

        // inject default values as constant nodes
        let (added_nodes, conns1) = default_values(self.counter, &self.connections, &self.defaults);
        let mut all_nodes: Vec<Node> = Vec::new();
        let mut i: usize = 0;
        proof {
            assert(nodes_view(all_nodes@) =~= a.nodes.take(0));
        }
        while i < self.nodes.len()
            invariant
                0 <= i <= self.nodes@.len(),
                a == self@,
                nodes_view(all_nodes@) == a.nodes.take(i as int),
            decreases self.nodes@.len() - i,
        {
            let ghost prev = nodes_view(all_nodes@);
            all_nodes.push(dup_node(&self.nodes[i]));
            proof {
                assert(nodes_view(all_nodes@) =~= prev.push(a.nodes[i as int]));
                assert(a.nodes.take(i as int + 1).drop_last() =~= a.nodes.take(i as int));
            }
            i += 1;
        }
        proof {
            assert(a.nodes.take(a.nodes.len() as int) =~= a.nodes);
        }
        let mut j: usize = 0;
        let ghost addv = nodes_view(added_nodes@);
        while j < added_nodes.len()
            invariant
                0 <= j <= added_nodes@.len(),
                addv == nodes_view(added_nodes@),
                nodes_view(all_nodes@) == a.nodes + addv.take(j as int),
            decreases added_nodes@.len() - j,
        {
            let ghost prev = nodes_view(all_nodes@);
            all_nodes.push(dup_node(&added_nodes[j]));
            proof {
                assert(nodes_view(all_nodes@) =~= prev.push(addv[j as int]));
                assert(addv.take(j as int + 1).drop_last() =~= addv.take(j as int));
                assert(nodes_view(all_nodes@) =~= a.nodes + addv.take(j as int + 1));
            }
            j += 1;
        }
        proof {
            assert(addv.take(addv.len() as int) =~= addv);
            assert(nodes_view(all_nodes@) == ext_nodes(a));
            assert(conns_view(conns1@) == ext_conns(a));
        }

        if has_duplicate_ids(&all_nodes) {
            return Err(CompileError::DuplicateNodeId);
        }

        let tid = find_target_id(&self.nodes);

        // optimization passes
        proof {
            crate::graph::lemma_added_default_conns_len(
                a.counter,
                a.conns,
                a.defaults,
                a.defaults.len() as int,
            );
            assert(conns_view(conns1@).len() < usize::MAX);
            assert(conns1@.len() < usize::MAX);
        }
        let (n1, c1) = filter_unconnected(&all_nodes, &conns1, tid);
        proof {
            lemma_reachable_nodes_unique(
                ext_nodes(a),
                ext_conns(a),
                target_id(a.nodes),
                ext_nodes(a).len() as int,
            );
        }
        let (n2, c2) = merge_device_nodes(&n1, &c1);
        let c3 = unique_connections(&c2);
        proof {
            lemma_merged_nodes_unique(opt_nodes1(a), opt_nodes1(a).len() as int);
            assert(nodes_view(n2@) == opt_nodes(a));
            assert(conns_view(c2@) == merged_conns(opt_nodes1(a), opt_conns1(a)));
            assert(c2@.len() == conns_view(c2@).len());
            assert(conns_view(c2@).len() == opt_conns1(a).len());
            assert(conns_view(c3@) == opt_conns3(a));
        }

        let deps = find_dependencies(&n2, &c3);
        if deps.len() == 0 {
            let empty_deps: Vec<ValueId> = Vec::new();
            proof {
                assert(deps@.map_values(|v: ValueId| v@).len() == 0);
                assert(auto_deps(a).len() == 0);
                assert(empty_deps@.map_values(|v: ValueId| v@) =~= Seq::<
                    (Seq<char>, Seq<char>),
                >::empty());
            }
            return Ok((Program::empty(), empty_deps));
        }

        let c4 = restrict_conns(&n2, &c3);

        // materialize the runtime nodes
        let mut rnodes: Vec<(u32, RuntimeNode)> = Vec::new();
        let mut k: usize = 0;
        let ghost n2v = nodes_view(n2@);
        proof {
            assert(rnodes_view(rnodes@) =~= materialize(n2v, target@).take(0));
        }
        while k < n2.len()
            invariant
                0 <= k <= n2@.len(),
                n2v == nodes_view(n2@),
                rnodes_view(rnodes@) == materialize(n2v, target@).take(k as int),
            decreases n2@.len() - k,
        {
            let ghost prev = rnodes_view(rnodes@);
            let node = &n2[k];
            proof {
                assert(n2v[k as int] == n2@[k as int]@);
            }
            let rn = prop_to_node(target, &node.properties);
            rnodes.push((node.id, rn));
            proof {
                assert(materialize(n2v, target@)[k as int] == (
                    n2v[k as int].id,
                    node_rv_of(n2v[k as int].props, target@),
                ));
                assert(rnodes_view(rnodes@) =~= prev.push(materialize(n2v, target@)[k as int]));
                assert(materialize(n2v, target@).take(k as int + 1).drop_last() =~= materialize(
                    n2v,
                    target@,
                ).take(k as int));
                assert(rnodes_view(rnodes@) =~= materialize(n2v, target@).take(k as int + 1));
            }
            k += 1;
        }
        proof {
            assert(materialize(n2v, target@).take(n2v.len() as int) =~= materialize(
                n2v,
                target@,
            ));
            assert(nodes_ids(rnodes_view(rnodes@)) =~= ids_of_nodes(n2v));
            lemma_kept_conns_endpoints(n2v, opt_conns3(a), opt_conns3(a).len() as int);
            assert forall|x: int|
                0 <= x < conns_view(c4@).len() implies nodes_ids(rnodes_view(rnodes@)).contains(
                (#[trigger] conns_view(c4@)[x]).0.0,
            ) && nodes_ids(rnodes_view(rnodes@)).contains(conns_view(c4@)[x].1.0) by {
                assert(conns_view(c4@)[x] == final_conns(a)[x]);
                assert(ids_of_nodes(n2v).contains(final_conns(a)[x].0.0));
                assert(ids_of_nodes(n2v).contains(final_conns(a)[x].1.0));
            }
        }

        match Program::new(&rnodes, &c4) {
            Ok(p) => {
                proof {
                    assert(c4@.len() == conns_view(c4@).len());
                    assert(c3@.len() == conns_view(c3@).len());
                    assert(conns_view(c4@) == final_conns(a));
                    let order = choose|order: Seq<u32>|
                        is_topo_order(
                            order,
                            nodes_ids(rnodes_view(rnodes@)),
                            conns_view(c4@),
                        ) && p@ == steps_from(order, rnodes_view(rnodes@), conns_view(c4@));
                    assert(is_topo_order(order, ids_of_nodes(opt_nodes(a)), final_conns(a)));
                    assert(p@ == steps_from(
                        order,
                        materialize(opt_nodes(a), target@),
                        final_conns(a),
                    ));
                }
                Ok((p, deps))
            },
            Err(_) => Err(CompileError::NotAcyclic),
        }
    }
}

} // verus!
