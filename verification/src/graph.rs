//! The automation graph as supplied by a user: nodes with properties, wires
//! between named slots, and default values, together with the optimization
//! passes that prepare a graph for compilation.

use vstd::prelude::*;

use crate::json::{dup_value, JsonV, Value};
use vstd::std_specs::iter::IteratorSpec;

verus! {

broadcast use vstd::std_specs::vec::group_vec_axioms, vstd::seq::group_seq_axioms;

/// Operator of a numeric comparison node.
#[derive(Debug, Clone, Copy, PartialEq, Eq, Structural)]
pub enum CompareOp {
    Eq,
    Gt,
    Lt,
    Ge,
    Le,
}

/// What a graph node is: the sink, a device source, a constant, or a logic
/// gate.
#[derive(Debug)]
pub enum Properties {
    Target,
    Device(String),
    Value(Value),
    IsNull(String),
    Equals { kind: String, meta: Option<Value> },
    If { kind: String },
    And,
    Or,
    Not,
    Xor,
    Latch,
    Toggle,
    MathCompare { operator: CompareOp },
}

/// Mathematical view of [`Properties`].
pub enum PropV {
    Target,
    Device(Seq<char>),
    Value(JsonV),
    IsNull(Seq<char>),
    Equals(Seq<char>, Option<JsonV>),
    If(Seq<char>),
    And,
    Or,
    Not,
    Xor,
    Latch,
    Toggle,
    MathCompare(CompareOp),
}

impl View for Properties {
    type V = PropV;

    open spec fn view(&self) -> PropV {
        match self {
            Properties::Target => PropV::Target,
            Properties::Device(d) => PropV::Device(d@),
            Properties::Value(v) => PropV::Value(v@),
            Properties::IsNull(k) => PropV::IsNull(k@),
            Properties::Equals { kind, meta } => PropV::Equals(
                kind@,
                match meta {
                    Some(m) => Some(m@),
                    None => None,
                },
            ),
            Properties::If { kind } => PropV::If(kind@),
            Properties::And => PropV::And,
            Properties::Or => PropV::Or,
            Properties::Not => PropV::Not,
            Properties::Xor => PropV::Xor,
            Properties::Latch => PropV::Latch,
            Properties::Toggle => PropV::Toggle,
            Properties::MathCompare { operator } => PropV::MathCompare(*operator),
        }
    }
}

/// One node of an automation graph.
#[derive(Debug)]
pub struct Node {
    pub id: u32,
    pub position: (i64, i64),
    pub properties: Properties,
}

/// Mathematical view of a [`Node`]: the position is presentation-only and
/// carries no meaning for compilation.
pub struct NodeV {
    pub id: u32,
    pub props: PropV,
}

impl View for Node {
    type V = NodeV;

    open spec fn view(&self) -> NodeV {
        NodeV { id: self.id, props: self.properties@ }
    }
}

/// One end of a wire: a node and the name of one of its slots.
#[derive(Debug)]
pub struct SlotRef {
    pub node: u32,
    pub name: String,
}

impl View for SlotRef {
    type V = (u32, Seq<char>);

    open spec fn view(&self) -> (u32, Seq<char>) {
        (self.node, self.name@)
    }
}

impl SlotRef {
    pub fn new(node: u32, name: &str) -> (r: SlotRef)
        ensures
            r@ == (node, name@),
    {
        SlotRef { node, name: name.to_owned() }
    }

    pub fn dup(&self) -> (r: SlotRef)
        ensures
            r@ == self@,
    {
        SlotRef { node: self.node, name: self.name.clone() }
    }

    pub fn slot_eq(&self, other: &SlotRef) -> (r: bool)
        ensures
            r == (self@ == other@),
    {
        self.node == other.node && self.name == other.name
    }
}

/// A wire from one node's output slot to another node's input slot.
#[derive(Debug)]
pub struct Connection {
    pub from: SlotRef,
    pub to: SlotRef,
}

impl View for Connection {
    type V = ((u32, Seq<char>), (u32, Seq<char>));

    open spec fn view(&self) -> ((u32, Seq<char>), (u32, Seq<char>)) {
        (self.from@, self.to@)
    }
}

impl Connection {
    pub fn new(from: SlotRef, to: SlotRef) -> (r: Connection)
        ensures
            r@ == (from@, to@),
    {
        Connection { from, to }
    }

    pub fn dup(&self) -> (r: Connection)
        ensures
            r@ == self@,
    {
        Connection { from: self.from.dup(), to: self.to.dup() }
    }

    pub fn conn_eq(&self, other: &Connection) -> (r: bool)
        ensures
            r == (self@ == other@),
    {
        self.from.slot_eq(&other.from) && self.to.slot_eq(&other.to)
    }
}

/// A user-supplied automation graph.
#[derive(Debug)]
pub struct Automation {
    pub counter: u32,
    pub nodes: Vec<Node>,
    pub connections: Vec<Connection>,
    pub defaults: Vec<(SlotRef, Value)>,
}

/// Number of `Target` nodes among the first `i` nodes.
pub open spec fn num_targets(ns: Seq<NodeV>, i: int) -> int
    decreases i,
{
    if i <= 0 {
        0
    } else {
        num_targets(ns, i - 1) + if ns[i - 1].props is Target {
            1int
        } else {
            0int
        }
    }
}

/// Counts the `Target` nodes of a graph.
pub fn count_targets(nodes: &Vec<Node>) -> (n: usize)
    ensures
        n == num_targets(nodes_view(nodes@), nodes@.len() as int),
    decreases nodes@.len(),
{
    let ghost ns = nodes_view(nodes@);
    let mut n: usize = 0;
    let mut i: usize = 0;
    while i < nodes.len()
        invariant
            0 <= i <= nodes@.len(),
            ns == nodes_view(nodes@),
            n == num_targets(ns, i as int),
            n <= i,
        decreases nodes@.len() - i,
    {
        proof {
            assert(ns[i as int] == nodes@[i as int]@);
        }
        let is_target = match &nodes[i].properties {
            Properties::Target => true,
            _ => false,
        };
        if is_target {
            n += 1;
        }
        i += 1;
    }
    n
}

/// View of a connection: `((from_node, from_slot), (to_node, to_slot))`.
pub type ConnV = ((u32, Seq<char>), (u32, Seq<char>));

pub open spec fn conns_view(cs: Seq<Connection>) -> Seq<ConnV> {
    cs.map_values(|c: Connection| c@)
}

pub open spec fn nodes_view(ns: Seq<Node>) -> Seq<NodeV> {
    ns.map_values(|n: Node| n@)
}

/// All node ids are distinct.
pub open spec fn unique_ids(ns: Seq<NodeV>) -> bool {
    forall|i: int, j: int| 0 <= i < j < ns.len() ==> ns[i].id != ns[j].id
}

/// Code-point-wise lexicographic order on names; UTF-8 preserves code
/// point order, so this is the order strings sort by.
pub open spec fn str_lt(a: Seq<char>, b: Seq<char>) -> bool
    decreases a.len(),
{
    if b.len() == 0 {
        false
    } else if a.len() == 0 {
        true
    } else if a.first() != b.first() {
        (a.first() as int) < (b.first() as int)
    } else {
        str_lt(a.drop_first(), b.drop_first())
    }
}

/// The name order is strict and total: never both ways, and one way for
/// distinct names.
pub proof fn lemma_str_lt_order(a: Seq<char>, b: Seq<char>)
    ensures
        !(str_lt(a, b) && str_lt(b, a)),
        a != b ==> (str_lt(a, b) || str_lt(b, a)),
    decreases a.len(),
{
    if a.len() == 0 && b.len() == 0 {
        assert(a =~= b);
    } else if a.len() > 0 && b.len() > 0 && a.first() == b.first() {
        lemma_str_lt_order(a.drop_first(), b.drop_first());
        if a.drop_first() == b.drop_first() {
            assert(a =~= b) by {
                assert(a.len() == b.len());
                assert forall|i: int| 0 <= i < a.len() implies a[i] == b[i] by {
                    if i > 0 {
                        assert(a[i] == a.drop_first()[i - 1]);
                        assert(b[i] == b.drop_first()[i - 1]);
                    }
                }
            }
        }
    }
}

/// The name order chains.
pub proof fn lemma_str_lt_trans(a: Seq<char>, b: Seq<char>, c: Seq<char>)
    requires
        str_lt(a, b),
        str_lt(b, c),
    ensures
        str_lt(a, c),
    decreases a.len(),
{
    if a.len() > 0 && b.len() > 0 && c.len() > 0 {
        if a.first() == b.first() && b.first() == c.first() {
            lemma_str_lt_trans(a.drop_first(), b.drop_first(), c.drop_first());
        }
    }
}

/// Strict ascending order on connections: by start node, start slot, end
/// node, end slot.
pub open spec fn conn_lt(a: ConnV, b: ConnV) -> bool {
    if a.0.0 != b.0.0 {
        a.0.0 < b.0.0
    } else if a.0.1 != b.0.1 {
        str_lt(a.0.1, b.0.1)
    } else if a.1.0 != b.1.0 {
        a.1.0 < b.1.0
    } else {
        str_lt(a.1.1, b.1.1)
    }
}

/// The connection order is strict and total.
pub proof fn lemma_conn_lt_order(a: ConnV, b: ConnV)
    ensures
        !(conn_lt(a, b) && conn_lt(b, a)),
        a != b ==> (conn_lt(a, b) || conn_lt(b, a)),
{
    lemma_str_lt_order(a.0.1, b.0.1);
    lemma_str_lt_order(a.1.1, b.1.1);
    if a.0.0 == b.0.0 && a.0.1 == b.0.1 && a.1.0 == b.1.0 && a.1.1 == b.1.1 {
        assert(a.0 == b.0);
        assert(a.1 == b.1);
        assert(a == b);
    }
}

/// The connection order chains.
pub proof fn lemma_conn_lt_trans(a: ConnV, b: ConnV, c: ConnV)
    requires
        conn_lt(a, b),
        conn_lt(b, c),
    ensures
        conn_lt(a, c),
{
    lemma_str_lt_order(a.0.1, b.0.1);
    lemma_str_lt_order(b.0.1, c.0.1);
    lemma_str_lt_order(a.1.1, b.1.1);
    lemma_str_lt_order(b.1.1, c.1.1);
    if a.0.0 == b.0.0 && a.0.1 == b.0.1 && a.1.0 == b.1.0 {
        if b.0.0 == c.0.0 && b.0.1 == c.0.1 && b.1.0 == c.1.0 {
            lemma_str_lt_trans(a.1.1, b.1.1, c.1.1);
        }
    } else if a.0.0 == b.0.0 && a.0.1 == b.0.1 {
        if b.0.0 == c.0.0 && b.0.1 == c.0.1 && b.1.0 == c.1.0 {
        }
    }
    if a.0.1 != b.0.1 && a.0.0 == b.0.0 && b.0.0 == c.0.0 && b.0.1 != c.0.1 {
        lemma_str_lt_trans(a.0.1, b.0.1, c.0.1);
    }
    if a.1.1 != b.1.1 && a.0 == b.0 && b.0 == c.0 && a.1.0 == b.1.0 && b.1.0 == c.1.0 && b.1.1
        != c.1.1 {
        lemma_str_lt_trans(a.1.1, b.1.1, c.1.1);
    }
}

/// Insert a connection into an ascending duplicate-free list, keeping it
/// ascending and duplicate-free.
pub open spec fn sorted_insert(s: Seq<ConnV>, c: ConnV) -> Seq<ConnV>
    decreases s.len(),
{
    if s.len() == 0 {
        seq![c]
    } else if conn_lt(c, s.first()) {
        seq![c] + s
    } else if c == s.first() {
        s
    } else {
        seq![s.first()] + sorted_insert(s.drop_first(), c)
    }
}

/// The distinct connections among the first `i`, in ascending order.
pub open spec fn sorted_dedup(cs: Seq<ConnV>, i: int) -> Seq<ConnV>
    decreases i,
{
    if i <= 0 {
        Seq::empty()
    } else {
        sorted_insert(sorted_dedup(cs, i - 1), cs[i - 1])
    }
}

/// Where an insertion lands: before the first element not below the new
/// connection, or nowhere when that element already is the new connection.
proof fn lemma_sorted_insert_at(s: Seq<ConnV>, c: ConnV, p: int)
    requires
        0 <= p <= s.len(),
        forall|i: int| 0 <= i < p ==> conn_lt(#[trigger] s[i], c),
        p < s.len() ==> !conn_lt(s[p], c),
    ensures
        sorted_insert(s, c) == if p < s.len() && s[p] == c {
            s
        } else {
            s.take(p) + seq![c] + s.skip(p)
        },
    decreases s.len(),
{
    if s.len() == 0 {
        assert(s.take(0) + seq![c] + s.skip(0) =~= seq![c]);
    } else if p == 0 {
        lemma_conn_lt_order(c, s[0]);
        if s[0] == c {
            assert(!conn_lt(c, s.first()));
        } else {
            assert(conn_lt(c, s.first()));
            assert(s.take(0) + seq![c] + s.skip(0) =~= seq![c] + s);
        }
    } else {
        assert(conn_lt(s[0], c));
        lemma_conn_lt_order(c, s[0]);
        assert(!conn_lt(c, s.first()));
        assert(c != s.first());
        let t = s.drop_first();
        assert forall|i: int| 0 <= i < p - 1 implies conn_lt(#[trigger] t[i], c) by {
            assert(t[i] == s[i + 1]);
        }
        if p - 1 < t.len() {
            assert(t[p - 1] == s[p]);
        }
        lemma_sorted_insert_at(t, c, p - 1);
        if p < s.len() && s[p] == c {
            assert(seq![s.first()] + t =~= s);
        } else {
            assert(seq![s.first()] + (t.take(p - 1) + seq![c] + t.skip(p - 1)) =~= s.take(p)
                + seq![c] + s.skip(p));
        }
    }
}

/// Inserting keeps the list ascending, and binds exactly the old elements
/// plus the new one.
pub proof fn lemma_sorted_insert_props(s: Seq<ConnV>, c: ConnV)
    requires
        forall|i: int, j: int| 0 <= i < j < s.len() ==> conn_lt(#[trigger] s[i], #[trigger] s[j]),
    ensures
        forall|i: int, j: int|
            0 <= i < j < sorted_insert(s, c).len() ==> conn_lt(
                #[trigger] sorted_insert(s, c)[i],
                #[trigger] sorted_insert(s, c)[j],
            ),
        forall|x: ConnV|
            #[trigger] sorted_insert(s, c).contains(x) <==> (s.contains(x) || x == c),
    decreases s.len(),
{
    let r = sorted_insert(s, c);
    if s.len() == 0 {
        assert forall|x: ConnV| #[trigger] r.contains(x) implies (s.contains(x) || x == c) by {
            let w = choose|w: int| 0 <= w < r.len() && r[w] == x;
        }
        assert(r[0] == c);
        assert(r.contains(c));
    } else if conn_lt(c, s.first()) {
        assert forall|i: int, j: int| 0 <= i < j < r.len() implies conn_lt(
            #[trigger] r[i],
            #[trigger] r[j],
        ) by {
            if i == 0 {
                assert(r[j] == s[j - 1]);
                if j == 1 {
                    assert(s[0] == s.first());
                } else {
                    assert(conn_lt(s[0], s[j - 1]));
                    lemma_conn_lt_trans(c, s[0], s[j - 1]);
                }
            } else {
                assert(r[i] == s[i - 1] && r[j] == s[j - 1]);
            }
        }
        assert forall|x: ConnV| #[trigger] r.contains(x) implies (s.contains(x) || x == c) by {
            let w = choose|w: int| 0 <= w < r.len() && r[w] == x;
            if w > 0 {
                assert(s[w - 1] == x);
                assert(s.contains(x));
            }
        }
        assert forall|x: ConnV| (s.contains(x) || x == c) implies #[trigger] r.contains(x) by {
            if s.contains(x) {
                let w = choose|w: int| 0 <= w < s.len() && s[w] == x;
                assert(r[w + 1] == x);
            } else {
                assert(r[0] == x);
            }
        }
    } else if c == s.first() {
        assert forall|x: ConnV| (s.contains(x) || x == c) implies #[trigger] r.contains(x) by {
            if x == c {
                assert(s[0] == x);
            }
        }
    } else {
        let t = s.drop_first();
        assert forall|i: int, j: int| 0 <= i < j < t.len() implies conn_lt(
            #[trigger] t[i],
            #[trigger] t[j],
        ) by {
            assert(t[i] == s[i + 1] && t[j] == s[j + 1]);
        }
        lemma_sorted_insert_props(t, c);
        lemma_conn_lt_order(c, s.first());
        let rt = sorted_insert(t, c);
        assert(r =~= seq![s.first()] + rt);
        // the head sits below everything that follows it
        assert forall|j: int| 0 <= j < rt.len() implies conn_lt(s[0], #[trigger] rt[j]) by {
            assert(rt.contains(rt[j]));
            if t.contains(rt[j]) {
                let w = choose|w: int| 0 <= w < t.len() && t[w] == rt[j];
                assert(t[w] == s[w + 1]);
                if w + 1 == 1 {
                    assert(conn_lt(s[0], s[1]));
                } else {
                    assert(conn_lt(s[0], s[w + 1]));
                }
            } else {
                assert(rt[j] == c);
                assert(conn_lt(s.first(), c));
            }
        }
        assert forall|i: int, j: int| 0 <= i < j < r.len() implies conn_lt(
            #[trigger] r[i],
            #[trigger] r[j],
        ) by {
            if i == 0 {
                assert(r[j] == rt[j - 1]);
            } else {
                assert(r[i] == rt[i - 1] && r[j] == rt[j - 1]);
            }
        }
        assert forall|x: ConnV| #[trigger] r.contains(x) implies (s.contains(x) || x == c) by {
            let w = choose|w: int| 0 <= w < r.len() && r[w] == x;
            if w == 0 {
                assert(s[0] == x);
                assert(s.contains(x));
            } else {
                assert(rt[w - 1] == x);
                assert(rt.contains(x));
                if t.contains(x) {
                    let v = choose|v: int| 0 <= v < t.len() && t[v] == x;
                    assert(s[v + 1] == x);
                    assert(s.contains(x));
                }
            }
        }
        assert forall|x: ConnV| (s.contains(x) || x == c) implies #[trigger] r.contains(x) by {
            if s.contains(x) {
                let w = choose|w: int| 0 <= w < s.len() && s[w] == x;
                if w == 0 {
                    assert(r[0] == x);
                } else {
                    assert(t[w - 1] == x);
                    assert(t.contains(x));
                    assert(rt.contains(x));
                    let v = choose|v: int| 0 <= v < rt.len() && rt[v] == x;
                    assert(r[v + 1] == x);
                }
            } else {
                assert(rt.contains(x));
                let v = choose|v: int| 0 <= v < rt.len() && rt[v] == x;
                assert(r[v + 1] == x);
            }
        }
    }
}

/// The canonical connection list is ascending and holds exactly the
/// distinct connections of the prefix.
pub proof fn lemma_sorted_dedup_props(cs: Seq<ConnV>, i: int)
    requires
        0 <= i <= cs.len(),
    ensures
        forall|x: int, y: int|
            0 <= x < y < sorted_dedup(cs, i).len() ==> conn_lt(
                #[trigger] sorted_dedup(cs, i)[x],
                #[trigger] sorted_dedup(cs, i)[y],
            ),
        forall|c: ConnV| #[trigger] sorted_dedup(cs, i).contains(c) <==> cs.take(i).contains(c),
    decreases i,
{
    if i > 0 {
        lemma_sorted_dedup_props(cs, i - 1);
        lemma_sorted_insert_props(sorted_dedup(cs, i - 1), cs[i - 1]);
        let prev = cs.take(i - 1);
        let cur = cs.take(i);
        assert(cur.drop_last() =~= prev);
        assert(cur.last() == cs[i - 1]);
        assert forall|c: ConnV| #[trigger] sorted_dedup(cs, i).contains(c) <==> cur.contains(
            c,
        ) by {
            assert(cur.contains(c) <==> (prev.contains(c) || c == cs[i - 1])) by {
                if cur.contains(c) {
                    let w = choose|w: int| 0 <= w < cur.len() && cur[w] == c;
                    if w < i - 1 {
                        assert(prev[w] == c);
                        assert(prev.contains(c));
                    }
                }
                if prev.contains(c) {
                    let w = choose|w: int| 0 <= w < prev.len() && prev[w] == c;
                    assert(cur[w] == c);
                }
                if c == cs[i - 1] {
                    assert(cur[i - 1] == c);
                }
            }
        }
    } else {
        assert(cs.take(0).len() == 0);
    }
}

/// Ascending name comparison, decided exactly.
fn str_less(a: &str, b: &str) -> (r: bool)
    ensures
        r == str_lt(a@, b@),
{
    broadcast use vstd::string::group_string_axioms;

    let ghost av = a@;
    let ghost bv = b@;
    let mut ia = a.chars();
    let mut ib = b.chars();
    let ghost mut k: int = 0;
    proof {
        assert(av.skip(0) =~= av);
        assert(bv.skip(0) =~= bv);
    }
    loop
        invariant
            av == a@,
            bv == b@,
            0 <= k <= av.len(),
            k <= bv.len(),
            ia.remaining() == av.skip(k),
            ib.remaining() == bv.skip(k),
            str_lt(av, bv) == str_lt(av.skip(k), bv.skip(k)),
        decreases av.len() - k,
    {
        let ca = ia.next();
        let cb = ib.next();
        match ca {
            None => {
                match cb {
                    None => {
                        proof {
                            assert(av.skip(k).len() == 0 && bv.skip(k).len() == 0);
                        }
                        return false;
                    },
                    Some(_) => {
                        proof {
                            assert(av.skip(k).len() == 0 && bv.skip(k).len() > 0);
                        }
                        return true;
                    },
                }
            },
            Some(ca) => {
                match cb {
                    None => {
                        proof {
                            assert(bv.skip(k).len() == 0);
                        }
                        return false;
                    },
                    Some(cb) => {
                        proof {
                            assert(av.skip(k)[0] == av[k]);
                            assert(bv.skip(k)[0] == bv[k]);
                        }
                        if ca != cb {
                            return ca < cb;
                        }
                        proof {
                            assert(av.skip(k).drop_first() =~= av.skip(k + 1));
                            assert(bv.skip(k).drop_first() =~= bv.skip(k + 1));
                            k = k + 1;
                        }
                    },
                }
            },
        }
    }
}

/// Ascending connection comparison, decided exactly.
fn conn_less(a: &Connection, b: &Connection) -> (r: bool)
    ensures
        r == conn_lt(a@, b@),
{
    if a.from.node != b.from.node {
        return a.from.node < b.from.node;
    }
    if !(a.from.name == b.from.name) {
        return str_less(a.from.name.as_str(), b.from.name.as_str());
    }
    if a.to.node != b.to.node {
        return a.to.node < b.to.node;
    }
    str_less(a.to.name.as_str(), b.to.name.as_str())
}

/// Insert a connection into an ascending duplicate-free list.
fn insert_sorted(out: &mut Vec<Connection>, c: Connection)
    ensures
        conns_view(final(out)@) == sorted_insert(conns_view(old(out)@), c@),
{
    let ghost sv = conns_view(out@);
    let ghost cv2 = c@;
    let mut p: usize = 0;
    while p < out.len() && conn_less(&out[p], &c)
        invariant
            0 <= p <= out@.len(),
            conns_view(out@) == sv,
            c@ == cv2,
            forall|i: int| 0 <= i < p ==> conn_lt(#[trigger] sv[i], cv2),
        decreases out@.len() - p,
    {
        proof {
            assert(sv[p as int] == out@[p as int]@);
        }
        p += 1;
    }
    proof {
        if p < out@.len() {
            assert(sv[p as int] == out@[p as int]@);
            assert(!conn_lt(sv[p as int], cv2));
        }
        lemma_sorted_insert_at(sv, cv2, p as int);
    }
    let duplicate = if p < out.len() {
        out[p].conn_eq(&c)
    } else {
        false
    };
    if !duplicate {
        let ghost pre = out@;
        out.insert(p, c);
        proof {
            assert(out@ == pre.insert(p as int, c));
            assert(conns_view(out@) =~= sv.take(p as int) + seq![cv2] + sv.skip(p as int));
        }
    }
}

/// Canonicalization pass: the distinct connections, in ascending order.
pub fn unique_connections(connections: &Vec<Connection>) -> (r: Vec<Connection>)
    ensures
        conns_view(r@) == sorted_dedup(conns_view(connections@), connections@.len() as int),
{
    let ghost cv = conns_view(connections@);
    let mut out: Vec<Connection> = Vec::new();
    let mut i: usize = 0;
    proof {
        assert(conns_view(out@) =~= sorted_dedup(cv, 0));
    }
    while i < connections.len()
        invariant
            0 <= i <= connections@.len(),
            cv == conns_view(connections@),
            conns_view(out@) == sorted_dedup(cv, i as int),
        decreases connections@.len() - i,
    {
        let c = connections[i].dup();
        proof {
            assert(c@ == cv[i as int]);
        }
        insert_sorted(&mut out, c);
        i += 1;
    }
    out
}

/// Deep copy of a node's properties.
pub fn dup_properties(p: &Properties) -> (r: Properties)
    ensures
        r@ == p@,
{
    match p {
        Properties::Target => Properties::Target,
        Properties::Device(d) => Properties::Device(d.clone()),
        Properties::Value(v) => Properties::Value(dup_value(v)),
        Properties::IsNull(k) => Properties::IsNull(k.clone()),
        Properties::Equals { kind, meta } => Properties::Equals {
            kind: kind.clone(),
            meta: match meta {
                Some(m) => Some(dup_value(m)),
                None => None,
            },
        },
        Properties::If { kind } => Properties::If { kind: kind.clone() },
        Properties::And => Properties::And,
        Properties::Or => Properties::Or,
        Properties::Not => Properties::Not,
        Properties::Xor => Properties::Xor,
        Properties::Latch => Properties::Latch,
        Properties::Toggle => Properties::Toggle,
        Properties::MathCompare { operator } => Properties::MathCompare { operator: *operator },
    }
}

/// Deep copy of a node.
pub fn dup_node(n: &Node) -> (r: Node)
    ensures
        r@ == n@,
{
    Node { id: n.id, position: (n.position.0, n.position.1), properties: dup_properties(&n.properties) }
}

/// The node at `i` is a duplicate device node: a `Device` node preceded by
/// another `Device` node for the same device.
pub open spec fn is_dup_device(ns: Seq<NodeV>, i: int) -> bool {
    ns[i].props is Device && exists|j: int|
        0 <= j < i && ns[j].props is Device && ns[j].props->Device_0 == ns[i].props->Device_0
}

/// The id of the first `Device` node for device `d` at or after `i`.
pub open spec fn first_device_id(ns: Seq<NodeV>, d: Seq<char>, i: int) -> u32
    decreases ns.len() - i,
{
    if i < 0 || i >= ns.len() {
        0
    } else if ns[i].props is Device && ns[i].props->Device_0 == d {
        ns[i].id
    } else {
        first_device_id(ns, d, i + 1)
    }
}

proof fn lemma_first_device_skip(ns: Seq<NodeV>, d: Seq<char>, i: int, k: int)
    requires
        0 <= i <= k < ns.len(),
        forall|j: int|
            i <= j < k ==> !(ns[j].props is Device && ns[j].props->Device_0 == d),
        ns[k].props is Device,
        ns[k].props->Device_0 == d,
    ensures
        first_device_id(ns, d, i) == ns[k].id,
    decreases k - i,
{
    if i < k {
        lemma_first_device_skip(ns, d, i + 1, k);
    }
}

/// The nodes among the first `i` that are not duplicate device nodes.
pub open spec fn merged_nodes(ns: Seq<NodeV>, i: int) -> Seq<NodeV>
    decreases i,
{
    if i <= 0 {
        Seq::empty()
    } else if is_dup_device(ns, i - 1) {
        merged_nodes(ns, i - 1)
    } else {
        merged_nodes(ns, i - 1).push(ns[i - 1])
    }
}

/// Where a connection leaving node `id` starts after device deduplication:
/// a duplicate device node is replaced by the first node for its device.
pub open spec fn resolve_source(ns: Seq<NodeV>, id: u32) -> u32 {
    if exists|i: int| 0 <= i < ns.len() && ns[i].id == id && is_dup_device(ns, i) {
        let i = choose|i: int| 0 <= i < ns.len() && ns[i].id == id && is_dup_device(ns, i);
        first_device_id(ns, ns[i].props->Device_0, 0)
    } else {
        id
    }
}

pub open spec fn merged_conns(ns: Seq<NodeV>, cs: Seq<ConnV>) -> Seq<ConnV> {
    cs.map_values(|c: ConnV| (((resolve_source(ns, c.0.0), c.0.1)), c.1))
}

spec fn has_device_before(ns: Seq<NodeV>, d: Seq<char>, k: int) -> bool {
    exists|j: int| 0 <= j < k && ns[j].props is Device && ns[j].props->Device_0 == d
}

/// Device deduplication pass: for every device keep its first node, and
/// rewrite every connection leaving a dropped node so that it leaves the
/// kept one.
pub fn merge_device_nodes(nodes: &Vec<Node>, connections: &Vec<Connection>) -> (r: (
    Vec<Node>,
    Vec<Connection>,
))
    requires
        unique_ids(nodes_view(nodes@)),
    ensures
        nodes_view(r.0@) == merged_nodes(nodes_view(nodes@), nodes@.len() as int),
        conns_view(r.1@) == merged_conns(nodes_view(nodes@), conns_view(connections@)),
{
    let ghost ns = nodes_view(nodes@);
    let ghost cv = conns_view(connections@);
    let mut first: crate::amap::AssocMap<String, u32> = crate::amap::AssocMap::new();
    let mut re: crate::amap::AssocMap<u32, u32> = crate::amap::AssocMap::new();

    let mut k: usize = 0;
    while k < nodes.len()
        invariant
            0 <= k <= nodes@.len(),
            ns == nodes_view(nodes@),
            unique_ids(ns),
            forall|d: Seq<char>|
                crate::amap::lookup(first@, d) == if has_device_before(ns, d, k as int) {
                    Some(first_device_id(ns, d, 0))
                } else {
                    None::<u32>
                },
            forall|i: int|
                0 <= i < k && is_dup_device(ns, i) ==> crate::amap::lookup(re@, ns[i].id)
                    == Some(first_device_id(ns, ns[i].props->Device_0, 0)),
            forall|id: u32|
                crate::amap::lookup(re@, id) is Some ==> exists|i: int|
                    0 <= i < k && ns[i].id == id && is_dup_device(ns, i),
        decreases nodes@.len() - k,
    {
        let node = &nodes[k];
        proof {
            assert(ns[k as int] == nodes@[k as int]@);
        }
        match &node.properties {
            Properties::Device(d) => {
                proof {
                    assert(ns[k as int].props is Device);
                    assert(ns[k as int].props->Device_0 == d@);
                }
                let found = first.get(d);
                match found {
                    Some(rep) => {
                        let rep = *rep;
                        proof {
                            assert(has_device_before(ns, d@, k as int));
                            assert(is_dup_device(ns, k as int));
                        }
                        let ghost pre = re@;
                        let ghost nid = node.id;
                        re.insert(node.id, rep);
                        proof {
                            assert forall|id: u32| #[trigger] crate::amap::lookup(re@, id) == (
                            if id == nid {
                                Some(rep)
                            } else {
                                crate::amap::lookup(pre, id)
                            }) by {
                                crate::amap::lemma_lookup_push(pre, nid, rep, id);
                            }
                        }
                    },
                    None => {
                        proof {
                            assert(!has_device_before(ns, d@, k as int));
                            let ghost kk = k as int;
                            lemma_first_device_skip(ns, d@, 0, kk);
                            assert(first_device_id(ns, d@, 0) == ns[kk].id);
                        }
                        let ghost pf = first@;
                        let ghost dv = d@;
                        let ghost nid = node.id;
                        first.insert(d.clone(), node.id);
                        proof {
                            assert forall|d2: Seq<char>| #[trigger] crate::amap::lookup(
                                first@,
                                d2,
                            ) == (if d2 == dv {
                                Some(nid)
                            } else {
                                crate::amap::lookup(pf, d2)
                            }) by {
                                crate::amap::lemma_lookup_push(pf, dv, nid, d2);
                            }
                        }
                    },
                }
            },
            _ => {
                proof {
                    assert(!(ns[k as int].props is Device));
                }
            },
        }
        k += 1;
        proof {
            assert forall|d2: Seq<char>| #[trigger] has_device_before(ns, d2, k as int) implies (
            has_device_before(ns, d2, k as int - 1) || (ns[k as int - 1].props is Device && ns[k
                as int - 1].props->Device_0 == d2)) by {
                let j = choose|j: int|
                    0 <= j < k as int && ns[j].props is Device && ns[j].props->Device_0 == d2;
                if j < k as int - 1 {
                    assert(has_device_before(ns, d2, k as int - 1));
                }
            }
        }
    }

    // keep only the nodes that are not duplicates
    let mut out_nodes: Vec<Node> = Vec::new();
    let mut i: usize = 0;
    proof {
        assert(nodes_view(out_nodes@) =~= merged_nodes(ns, 0));
    }
    while i < nodes.len()
        invariant
            0 <= i <= nodes@.len(),
            ns == nodes_view(nodes@),
            unique_ids(ns),
            nodes_view(out_nodes@) == merged_nodes(ns, i as int),
            forall|j: int|
                0 <= j < ns.len() && is_dup_device(ns, j) ==> crate::amap::lookup(re@, ns[j].id)
                    == Some(first_device_id(ns, ns[j].props->Device_0, 0)),
            forall|id: u32|
                crate::amap::lookup(re@, id) is Some ==> exists|j: int|
                    0 <= j < ns.len() && ns[j].id == id && is_dup_device(ns, j),
        decreases nodes@.len() - i,
    {
        let dropped = re.contains(&nodes[i].id);
        proof {
            if dropped {
                let j = choose|j: int|
                    0 <= j < ns.len() && ns[j].id == ns[i as int].id && is_dup_device(ns, j);
                assert(j == i as int);
            }
            assert(dropped == is_dup_device(ns, i as int));
        }
        if !dropped {
            let ghost prev = nodes_view(out_nodes@);
            out_nodes.push(dup_node(&nodes[i]));
            proof {
                assert(nodes_view(out_nodes@) =~= prev.push(ns[i as int]));
            }
        }
        i += 1;
    }

    // rewrite the start of every connection that leaves a dropped node
    let mut out_conns: Vec<Connection> = Vec::new();
    let mut c: usize = 0;
    proof {
        assert(conns_view(out_conns@) =~= merged_conns(ns, cv).take(0));
    }
    while c < connections.len()
        invariant
            0 <= c <= connections@.len(),
            ns == nodes_view(nodes@),
            cv == conns_view(connections@),
            unique_ids(ns),
            conns_view(out_conns@) == merged_conns(ns, cv).take(c as int),
            forall|j: int|
                0 <= j < ns.len() && is_dup_device(ns, j) ==> crate::amap::lookup(re@, ns[j].id)
                    == Some(first_device_id(ns, ns[j].props->Device_0, 0)),
            forall|id: u32|
                crate::amap::lookup(re@, id) is Some ==> exists|j: int|
                    0 <= j < ns.len() && ns[j].id == id && is_dup_device(ns, j),
        decreases connections@.len() - c,
    {
        let conn = &connections[c];
        let ghost prev = conns_view(out_conns@);
        let found = re.get(&conn.from.node);
        match found {
            Some(rep) => {
                let rep = *rep;
                proof {
                    let f = conn.from.node;
                    let j = choose|j: int|
                        0 <= j < ns.len() && ns[j].id == f && is_dup_device(ns, j);
                    assert(exists|i2: int|
                        0 <= i2 < ns.len() && ns[i2].id == f && is_dup_device(ns, i2));
                    let j2 = choose|i2: int|
                        0 <= i2 < ns.len() && ns[i2].id == f && is_dup_device(ns, i2);
                    assert(j2 == j);
                    assert(rep == resolve_source(ns, f));
                }
                let newc = Connection {
                    from: SlotRef { node: rep, name: conn.from.name.clone() },
                    to: conn.to.dup(),
                };
                proof {
                    assert(newc@ == ((resolve_source(ns, conn.from.node), conn.from.name@), conn.to@));
                }
                out_conns.push(newc);
            },
            None => {
                proof {
                    let f = conn.from.node;
                    assert(!exists|i2: int|
                        0 <= i2 < ns.len() && ns[i2].id == f && is_dup_device(ns, i2)) by {
                        if exists|i2: int|
                            0 <= i2 < ns.len() && ns[i2].id == f && is_dup_device(ns, i2) {
                            let j = choose|i2: int|
                                0 <= i2 < ns.len() && ns[i2].id == f && is_dup_device(ns, i2);
                            assert(crate::amap::lookup(re@, ns[j].id) is Some);
                        }
                    }
                    assert(resolve_source(ns, f) == f);
                }
                let newc = conn.dup();
                proof {
                    assert(newc@ == ((resolve_source(ns, conn.from.node), conn.from.name@), conn.to@));
                }
                out_conns.push(newc);
            },
        }
        proof {
            let m = merged_conns(ns, cv);
            assert(cv[c as int] == conn@);
            assert(m[c as int] == ((resolve_source(ns, cv[c as int].0.0), cv[c as int].0.1), cv[c as int].1));
            assert(conns_view(out_conns@) =~= prev.push(m[c as int]));
            assert(m.take(c as int + 1).drop_last() =~= m.take(c as int));
            assert(conns_view(out_conns@) =~= m.take(c as int + 1));
        }
        c += 1;
    }
    proof {
        assert(merged_conns(ns, cv).take(cv.len() as int) =~= merged_conns(ns, cv));
    }

    (out_nodes, out_conns)
}


/// Some connection already feeds this input slot.
pub open spec fn slot_connected(cs: Seq<ConnV>, slot: (u32, Seq<char>)) -> bool {
    exists|i: int| 0 <= i < cs.len() && cs[i].1 == slot
}

/// The `Value` nodes synthesized for the first `i` defaults whose slot has
/// no incoming connection; the `j`-th default gets node id `counter + j`.
pub open spec fn added_default_nodes(
    counter: u32,
    cs: Seq<ConnV>,
    ds: Seq<((u32, Seq<char>), JsonV)>,
    i: int,
) -> Seq<NodeV>
    decreases i,
{
    if i <= 0 {
        Seq::empty()
    } else {
        let prev = added_default_nodes(counter, cs, ds, i - 1);
        if slot_connected(cs, ds[i - 1].0) {
            prev
        } else {
            prev.push(NodeV { id: (counter + i - 1) as u32, props: PropV::Value(ds[i - 1].1) })
        }
    }
}

/// The wires from those synthesized nodes' `value` outputs to their slots.
pub open spec fn added_default_conns(
    counter: u32,
    cs: Seq<ConnV>,
    ds: Seq<((u32, Seq<char>), JsonV)>,
    i: int,
) -> Seq<ConnV>
    decreases i,
{
    if i <= 0 {
        Seq::empty()
    } else {
        let prev = added_default_conns(counter, cs, ds, i - 1);
        if slot_connected(cs, ds[i - 1].0) {
            prev
        } else {
            prev.push((((counter + i - 1) as u32, "value"@), ds[i - 1].0))
        }
    }
}

pub open spec fn defaults_view(ds: Seq<(SlotRef, Value)>) -> Seq<((u32, Seq<char>), JsonV)> {
    ds.map_values(|d: (SlotRef, Value)| (d.0@, d.1@))
}

/// At most one connection is added per default.
pub proof fn lemma_added_default_conns_len(
    counter: u32,
    cs: Seq<ConnV>,
    ds: Seq<((u32, Seq<char>), JsonV)>,
    i: int,
)
    ensures
        added_default_conns(counter, cs, ds, i).len() <= if i >= 0 {
            i
        } else {
            0
        },
    decreases i,
{
    if i > 0 {
        lemma_added_default_conns_len(counter, cs, ds, i - 1);
    }
}

fn is_slot_connected(cs: &Vec<Connection>, slot: &SlotRef) -> (r: bool)
    ensures
        r == slot_connected(conns_view(cs@), slot@),
{
    let mut i: usize = 0;
    while i < cs.len()
        invariant
            0 <= i <= cs@.len(),
            forall|j: int| 0 <= j < i ==> conns_view(cs@)[j].1 != slot@,
        decreases cs@.len() - i,
    {
        if cs[i].to.slot_eq(slot) {
            assert(conns_view(cs@)[i as int].1 == slot@);
            return true;
        }
        i += 1;
    }
    false
}

/// Default injection pass: for each default whose slot no connection feeds,
/// synthesize a fresh `Value` node and wire its `value` output to the slot.
pub fn default_values(
    counter: u32,
    connections: &Vec<Connection>,
    defaults: &Vec<(SlotRef, Value)>,
) -> (r: (Vec<Node>, Vec<Connection>))
    requires
        counter + defaults@.len() <= u32::MAX,
    ensures
        nodes_view(r.0@) == added_default_nodes(
            counter,
            conns_view(connections@),
            defaults_view(defaults@),
            defaults@.len() as int,
        ),
        conns_view(r.1@) == conns_view(connections@) + added_default_conns(
            counter,
            conns_view(connections@),
            defaults_view(defaults@),
            defaults@.len() as int,
        ),
{
    let ghost cv = conns_view(connections@);
    let ghost dv = defaults_view(defaults@);

    let mut out_nodes: Vec<Node> = Vec::new();
    let mut out_conns: Vec<Connection> = Vec::new();

    let mut i: usize = 0;
    while i < connections.len()
        invariant
            0 <= i <= connections@.len(),
            cv == conns_view(connections@),
            conns_view(out_conns@) == cv.take(i as int),
        decreases connections@.len() - i,
    {
        let ghost prev = conns_view(out_conns@);
        out_conns.push(connections[i].dup());
        proof {
            assert(conns_view(out_conns@) =~= prev.push(cv[i as int]));
            assert(cv.take(i as int + 1).drop_last() =~= cv.take(i as int));
        }
        i += 1;
    }
    proof {
        assert(cv.take(cv.len() as int) =~= cv);
    }

    let mut j: usize = 0;
    while j < defaults.len()
        invariant
            0 <= j <= defaults@.len(),
            cv == conns_view(connections@),
            dv == defaults_view(defaults@),
            counter + defaults@.len() <= u32::MAX,
            nodes_view(out_nodes@) == added_default_nodes(counter, cv, dv, j as int),
            conns_view(out_conns@) == cv + added_default_conns(counter, cv, dv, j as int),
        decreases defaults@.len() - j,
    {
        let slot = &defaults[j].0;
        proof {
            assert(dv[j as int] == (slot@, defaults@[j as int].1@));
        }
        if !is_slot_connected(connections, slot) {
            let id = counter + (j as u32);
            let ghost pn = nodes_view(out_nodes@);
            let ghost pc = conns_view(out_conns@);
            out_nodes.push(
                Node {
                    id,
                    position: (0, 0),
                    properties: Properties::Value(dup_value(&defaults[j].1)),
                },
            );
            out_conns.push(
                Connection { from: SlotRef::new(id, "value"), to: slot.dup() },
            );
            proof {
                assert(nodes_view(out_nodes@) =~= pn.push(
                    NodeV { id, props: PropV::Value(dv[j as int].1) },
                ));
                assert(conns_view(out_conns@) =~= pc.push(((id, "value"@), dv[j as int].0)));
            }
        }
        j += 1;
    }
    (out_nodes, out_conns)
}

/// The distinct names of output slots of node `id` that the first `i`
/// connections wire somewhere, in order of first occurrence.
pub open spec fn out_slot_names(cs: Seq<ConnV>, id: u32, i: int) -> Seq<Seq<char>>
    decreases i,
{
    if i <= 0 {
        Seq::empty()
    } else {
        let prev = out_slot_names(cs, id, i - 1);
        if cs[i - 1].0.0 == id && !prev.contains(cs[i - 1].0.1) {
            prev.push(cs[i - 1].0.1)
        } else {
            prev
        }
    }
}

/// The value ids a graph depends on: for each `Device` node among the first
/// `i`, one id per wired output slot.
pub open spec fn deps_of(ns: Seq<NodeV>, cs: Seq<ConnV>, i: int) -> Seq<(Seq<char>, Seq<char>)>
    decreases i,
{
    if i <= 0 {
        Seq::empty()
    } else {
        let prev = deps_of(ns, cs, i - 1);
        if ns[i - 1].props is Device {
            prev + out_slot_names(cs, ns[i - 1].id, cs.len() as int).map_values(
                |s: Seq<char>| (ns[i - 1].props->Device_0, s),
            )
        } else {
            prev
        }
    }
}

fn contains_name(v: &Vec<String>, name: &String) -> (r: bool)
    ensures
        r == v@.map_values(|s: String| s@).contains(name@),
{
    let ghost sv = v@.map_values(|s: String| s@);
    let mut i: usize = 0;
    while i < v.len()
        invariant
            0 <= i <= v@.len(),
            sv == v@.map_values(|s: String| s@),
            forall|j: int| 0 <= j < i ==> sv[j] != name@,
        decreases v@.len() - i,
    {
        if v[i] == *name {
            assert(sv[i as int] == name@);
            return true;
        }
        i += 1;
    }
    false
}

pub fn collect_out_slots(cs: &Vec<Connection>, id: u32) -> (r: Vec<String>)
    ensures
        r@.map_values(|s: String| s@) == out_slot_names(conns_view(cs@), id, cs@.len() as int),
{
    let ghost cv = conns_view(cs@);
    let mut out: Vec<String> = Vec::new();
    let mut i: usize = 0;
    proof {
        assert(out@.map_values(|s: String| s@) =~= out_slot_names(cv, id, 0));
    }
    while i < cs.len()
        invariant
            0 <= i <= cs@.len(),
            cv == conns_view(cs@),
            out@.map_values(|s: String| s@) == out_slot_names(cv, id, i as int),
        decreases cs@.len() - i,
    {
        let c = &cs[i];
        proof {
            assert(cv[i as int] == c@);
        }
        if c.from.node == id {
            let ghost prev = out@.map_values(|s: String| s@);
            if !contains_name(&out, &c.from.name) {
                out.push(c.from.name.clone());
                proof {
                    assert(out@.map_values(|s: String| s@) =~= prev.push(cv[i as int].0.1));
                }
            }
        }
        i += 1;
    }
    out
}

/// Dependency extraction pass: one value id per wired output slot of every
/// surviving `Device` node.
pub fn find_dependencies(nodes: &Vec<Node>, connections: &Vec<Connection>) -> (r: Vec<
    crate::ValueId,
>)
    ensures
        r@.map_values(|v: crate::ValueId| v@) == deps_of(
            nodes_view(nodes@),
            conns_view(connections@),
            nodes@.len() as int,
        ),
{
    let ghost ns = nodes_view(nodes@);
    let ghost cv = conns_view(connections@);
    let mut out: Vec<crate::ValueId> = Vec::new();
    let mut i: usize = 0;
    proof {
        assert(out@.map_values(|v: crate::ValueId| v@) =~= deps_of(ns, cv, 0));
    }
    while i < nodes.len()
        invariant
            0 <= i <= nodes@.len(),
            ns == nodes_view(nodes@),
            cv == conns_view(connections@),
            out@.map_values(|v: crate::ValueId| v@) == deps_of(ns, cv, i as int),
        decreases nodes@.len() - i,
    {
        let node = &nodes[i];
        proof {
            assert(ns[i as int] == nodes@[i as int]@);
        }
        match &node.properties {
            Properties::Device(d) => {
                let names = collect_out_slots(connections, node.id);
                let ghost base = out@.map_values(|v: crate::ValueId| v@);
                let ghost nsv = names@.map_values(|s: String| s@);
                let ghost dseq = nsv.map_values(|s: Seq<char>| (d@, s));
                let mut k: usize = 0;
                while k < names.len()
                    invariant
                        0 <= k <= names@.len(),
                        nsv == names@.map_values(|s: String| s@),
                        dseq == nsv.map_values(|s: Seq<char>| (d@, s)),
                        out@.map_values(|v: crate::ValueId| v@) == base + dseq.take(k as int),
                    decreases names@.len() - k,
                {
                    let ghost prev = out@.map_values(|v: crate::ValueId| v@);
                    out.push(crate::ValueId::new(d.as_str(), names[k].as_str()));
                    proof {
                        assert(out@.map_values(|v: crate::ValueId| v@) =~= prev.push(
                            (d@, nsv[k as int]),
                        ));
                        assert(dseq.take(k as int + 1).drop_last() =~= dseq.take(k as int));
                        assert(out@.map_values(|v: crate::ValueId| v@) =~= base + dseq.take(
                            k as int + 1,
                        ));
                    }
                    k += 1;
                }
                proof {
                    assert(dseq.take(dseq.len() as int) =~= dseq);
                    assert(out@.map_values(|v: crate::ValueId| v@) =~= deps_of(ns, cv, i as int + 1));
                }
            },
            _ => {
                proof {
                    assert(!(ns[i as int].props is Device));
                }
            },
        }
        i += 1;
    }
    out
}

} // verus!
