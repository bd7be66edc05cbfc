use vstd::prelude::*;

verus! {

/// What a node graph holds: the value cell of each node, and for each node
/// the ordered list of nodes it references.
pub struct GraphModel {
    pub values: Seq<i32>,
    pub children: Seq<Seq<usize>>,
}

/// Every reference points to a node created earlier, so the reference graph
/// is acyclic and any walk along references ends.
pub open spec fn refs_point_back(children: Seq<Seq<usize>>) -> bool {
    forall|i: int, k: int| 0 <= i < children.len() && 0 <= k < children[i].len() ==> #[trigger] children[i][k] < i
}

/// One child list per value cell, and only references to earlier nodes.
pub open spec fn graph_wf(m: GraphModel) -> bool {
    &&& m.values.len() == m.children.len()
    &&& refs_point_back(m.children)
}

/// The number of distinct walks along references from node `from` to node
/// `to`, the empty walk included when the two are the same node.
pub open spec fn path_count(children: Seq<Seq<usize>>, from: nat, to: nat) -> nat
    decreases from, 1int, 0int,
{
    (if from == to { 1nat } else { 0nat }) + paths_via_first(children, from, children[from as int].len() as int, to)
}

/// The number of walks from `from` to `to` that leave `from` through one of
/// its first `k` references.
pub open spec fn paths_via_first(children: Seq<Seq<usize>>, from: nat, k: int, to: nat) -> nat
    decreases from, 0int, k,
{
    if k <= 0 || from >= children.len() {
        0
    } else {
        let child = children[from as int][k - 1];
        paths_via_first(children, from, k - 1, to) + if child < from {
            path_count(children, child as nat, to)
        } else {
            0
        }
    }
}

/// The value node `x` holds once `delta` has been propagated from `node`:
/// one `delta` for every walk from `node` that reaches `x`.
pub open spec fn propagated_value(m: GraphModel, node: nat, delta: int, x: nat) -> int {
    m.values[x as int] + delta * path_count(m.children, node, x)
}

/// Propagating `delta` from `node` keeps every value within `i32`.
pub open spec fn propagation_fits(m: GraphModel, node: nat, delta: int) -> bool {
    forall|x: nat| x < m.values.len() ==> i32::MIN <= #[trigger] propagated_value(m, node, delta, x) <= i32::MAX
}

/// Counting more references of `from` never counts fewer walks.
proof fn lemma_paths_via_monotone(children: Seq<Seq<usize>>, from: nat, k1: int, k2: int, to: nat)
    requires
        0 <= k1 <= k2,
    ensures
        paths_via_first(children, from, k1, to) <= paths_via_first(children, from, k2, to),
    decreases k2 - k1,
{
    if k1 < k2 {
        lemma_paths_via_monotone(children, from, k1, k2 - 1, to);
    }
}

/// A value part of the way from `a` to `a + d * t` stays within `i32` when
/// both ends do.
proof fn lemma_partial_step_fits(a: int, d: int, p: int, t: int)
    requires
        0 <= p <= t,
        i32::MIN <= a <= i32::MAX,
        i32::MIN <= a + d * t <= i32::MAX,
    ensures
        i32::MIN <= a + d * p <= i32::MAX,
{
    assert(d >= 0 ==> 0 <= d * p <= d * t) by (nonlinear_arith)
        requires 0 <= p <= t;
    assert(d < 0 ==> d * t <= d * p <= 0) by (nonlinear_arith)
        requires 0 <= p <= t;
}

/// Propagating from a node that references no other node changes that node
/// alone, and changes it by exactly `delta`.
pub proof fn lemma_childless_propagation(m: GraphModel, node: nat, delta: int)
    requires
        graph_wf(m),
        node < m.values.len(),
        m.children[node as int].len() == 0,
    ensures
        forall|x: nat| x < m.values.len() ==> #[trigger] propagated_value(m, node, delta, x) == if x == node {
            m.values[x as int] + delta
        } else {
            m.values[x as int] as int
        },
{
    assert forall|x: nat| x < m.values.len() implies #[trigger] propagated_value(m, node, delta, x) == if x == node {
        m.values[x as int] + delta
    } else {
        m.values[x as int] as int
    } by {
        assert(paths_via_first(m.children, node, 0, x) == 0);
        if x == node {
            assert(delta * 1int == delta);
        } else {
            assert(delta * 0int == 0);
        }
    }
}

/// A walk count this large already makes any nonzero propagation leave `i32`.
const PATH_COUNT_CAP: u64 = 0x1_0000_0000;

/// A walk count of at least `PATH_COUNT_CAP`, times a nonzero `d`, moves
/// any `i32` out of range.
proof fn lemma_large_count_overflows(a: int, d: int, t: int)
    requires
        t >= PATH_COUNT_CAP,
        d != 0,
        i32::MIN <= a <= i32::MAX,
    ensures
        !(i32::MIN <= a + d * t <= i32::MAX),
{
    assert(d > 0 ==> d * t >= t) by (nonlinear_arith)
        requires t >= 0;
    assert(d < 0 ==> d * t <= -t) by (nonlinear_arith)
        requires t >= 0;
}

/// The increment that `update_node` applies.
pub const UPDATE_STEP: i32 = 2;

/// Nodes held in an arena: each node is named by its index, holds an `i32`
/// value and references earlier nodes by index. Several nodes may reference
/// the same node, which then sees every update made through any of them.
pub struct NodeGraph {
    values: Vec<i32>,
    children: Vec<Vec<usize>>,
}

impl View for NodeGraph {
    type V = GraphModel;

    closed spec fn view(&self) -> GraphModel {
        GraphModel { values: self.values@, children: self.children@.map_values(|c: Vec<usize>| c@) }
    }
}

impl NodeGraph {
    pub open spec fn wf(&self) -> bool {
        graph_wf(self@)
    }

    /// An empty graph.
    pub fn new() -> (g: NodeGraph)
        ensures
            g.wf(),
            g@.values.len() == 0,
    {
        NodeGraph { values: Vec::new(), children: Vec::new() }
    }

    /// The number of nodes.
    pub fn len(&self) -> (n: usize)
        requires
            self.wf(),
        ensures
            n == self@.values.len(),
    {
        self.values.len()
    }

    /// The value node `id` holds.
    pub fn value(&self, id: usize) -> (v: i32)
        requires
            self.wf(),
            id < self@.values.len(),
        ensures
            v == self@.values[id as int],
    {
        self.values[id]
    }

    /// Adds a node holding `value` that references `children`, in that order,
    /// and returns its index. A node can only reference nodes that already
    /// exist: if some index in `children` names no node, nothing is added and
    /// the result is `None`.
    pub fn add_node(&mut self, value: i32, children: Vec<usize>) -> (r: Option<usize>)
        requires
            old(self).wf(),
        ensures
            final(self).wf(),
            (forall|k: int| 0 <= k < children.len() ==> children@[k] < old(self)@.values.len()) ==> (
            r == Some(old(self)@.values.len() as usize) && final(self)@ == (GraphModel {
                values: old(self)@.values.push(value),
                children: old(self)@.children.push(children@),
            })),
            !(forall|k: int| 0 <= k < children.len() ==> children@[k] < old(self)@.values.len()) ==> (
            r is None && final(self)@ == old(self)@),
    {
        let n = self.values.len();
        let mut k: usize = 0;
        while k < children.len()
            invariant
                k <= children.len(),
                self@ == old(self)@,
                self.wf(),
                n == self@.values.len(),
                forall|j: int| 0 <= j < k ==> children@[j] < n,
            decreases children.len() - k,
        {
            if children[k] >= n {
                return None;
            }
            k += 1;
        }
        proof {
            let old_view = self@;
            assert(self.children@.push(children).map_values(|c: Vec<usize>| c@) =~= old_view.children.push(children@));
        }
        self.values.push(value);
        self.children.push(children);
        Some(n)
    }

    /// The number of walks from `from` to `to`, or `cap` when there are at
    /// least that many.
    fn count_paths(&self, from: usize, to: usize, cap: u64) -> (r: u64)
        requires
            self.wf(),
            from < self@.values.len(),
        ensures
            r == if path_count(self@.children, from as nat, to as nat) < cap {
                path_count(self@.children, from as nat, to as nat) as int
            } else {
                cap as int
            },
        decreases from,
    {
        let ghost ch = self@.children;
        let mut total: u64 = if from == to && cap > 0 { 1 } else { 0 };
        let n_children = self.children[from].len();
        let mut k: usize = 0;
        while k < n_children
            invariant
                self.wf(),
                ch == self@.children,
                from < self@.values.len(),
                k <= n_children,
                n_children == ch[from as int].len(),
                total == if (if from == to { 1int } else { 0int }) + paths_via_first(ch, from as nat, k as int, to as nat) < cap {
                    (if from == to { 1int } else { 0int }) + paths_via_first(ch, from as nat, k as int, to as nat)
                } else {
                    cap as int
                },
            decreases n_children - k,
        {
            let c = self.children[from][k];
            proof {
                assert(ch[from as int][k as int] == c);
            }
            let sub = self.count_paths(c, to, cap);
            if sub >= cap - total {
                total = cap;
            } else {
                total = total + sub;
            }
            k += 1;
        }
        total
    }

    /// Whether propagating `delta` from `node` keeps every value within
    /// `i32`, the condition `propagate` asks of its caller.
    pub fn can_propagate(&self, node: usize, delta: i32) -> (r: bool)
        requires
            self.wf(),
            node < self@.values.len(),
        ensures
            r == propagation_fits(self@, node as nat, delta as int),
    {
        let n = self.values.len();
        let mut x: usize = 0;
        while x < n
            invariant
                self.wf(),
                node < n,
                n == self@.values.len(),
                x <= n,
                forall|y: nat| y < x ==> i32::MIN <= #[trigger] propagated_value(self@, node as nat, delta as int, y) <= i32::MAX,
            decreases n - x,
        {
            let count = self.count_paths(node, x, PATH_COUNT_CAP);
            let ghost pc = path_count(self@.children, node as nat, x as nat) as int;
            if count >= PATH_COUNT_CAP {
                if delta != 0 {
                    proof {
                        lemma_large_count_overflows(self@.values[x as int] as int, delta as int, pc);
                        assert(!(i32::MIN <= propagated_value(self@, node as nat, delta as int, x as nat) <= i32::MAX));
                    }
                    return false;
                }
                assert(propagated_value(self@, node as nat, delta as int, x as nat) == self@.values[x as int]) by (nonlinear_arith)
                    requires delta == 0, propagated_value(self@, node as nat, delta as int, x as nat) == self@.values[x as int] + delta * pc;
            } else {
                assert(-0x8000_0000_0000_0000 <= delta * count <= 0x8000_0000_0000_0000) by (nonlinear_arith)
                    requires i32::MIN <= delta <= i32::MAX, 0 <= count < PATH_COUNT_CAP;
                let moved: i128 = self.values[x] as i128 + (delta as i128) * (count as i128);
                assert(moved == propagated_value(self@, node as nat, delta as int, x as nat));
                if moved < i32::MIN as i128 || moved > i32::MAX as i128 {
                    return false;
                }
            }
            x += 1;
        }
        true
    }

    /// Adds `delta` to the value of `node`, then propagates it, in list
    /// order, from each node that `node` references. A node reachable along
    /// several walks from `node` receives `delta` once per walk.
    pub fn propagate(&mut self, node: usize, delta: i32)
        requires
            old(self).wf(),
            node < old(self)@.values.len(),
            propagation_fits(old(self)@, node as nat, delta as int),
        ensures
            final(self).wf(),
            final(self)@.children == old(self)@.children,
            final(self)@.values.len() == old(self)@.values.len(),
            forall|x: nat| x < old(self)@.values.len() ==> #[trigger] final(self)@.values[x as int]
                == propagated_value(old(self)@, node as nat, delta as int, x),
        decreases node,
    {
        let ghost m0 = self@;
        let ghost ch = m0.children;
        proof {
            assert(path_count(ch, node as nat, node as nat) >= 1);
            assert(i32::MIN <= propagated_value(m0, node as nat, delta as int, node as nat) <= i32::MAX);
            lemma_partial_step_fits(m0.values[node as int] as int, delta as int, 1, path_count(ch, node as nat, node as nat) as int);
        }
        let v = self.values[node] + delta;
        self.values.set(node, v);
        let n_children = self.children[node].len();
        let mut k: usize = 0;
        proof {
            assert(self@.values == m0.values.update(node as int, v));
            assert forall|x: nat| x < m0.values.len() implies #[trigger] self@.values[x as int] == m0.values[x as int]
                + delta * ((if x == node { 1int } else { 0int }) + paths_via_first(ch, node as nat, 0, x)) by {
                assert(paths_via_first(ch, node as nat, 0, x) == 0);
                if x == node {
                    assert(delta * (1int + 0int) == delta as int);
                } else {
                    assert(delta * (0int + 0int) == 0);
                }
            }
        }
        while k < n_children
            invariant
                self.wf(),
                graph_wf(m0),
                propagation_fits(m0, node as nat, delta as int),
                self@.children == ch,
                ch == m0.children,
                self@.values.len() == m0.values.len(),
                node < m0.values.len(),
                k <= n_children,
                n_children == ch[node as int].len(),
                forall|x: nat| x < m0.values.len() ==> #[trigger] self@.values[x as int] == m0.values[x as int]
                    + delta * ((if x == node { 1int } else { 0int }) + paths_via_first(ch, node as nat, k as int, x)),
            decreases n_children - k,
        {
            let c = self.children[node][k];
            let ghost before = self@;
            proof {
                assert(ch[node as int][k as int] == c);
                assert(c < node);
                assert forall|x: nat| x < before.values.len() implies i32::MIN <= #[trigger] propagated_value(before, c as nat, delta as int, x) <= i32::MAX by {
                    let ind: int = if x == node { 1int } else { 0int };
                    let via_k = paths_via_first(ch, node as nat, k as int, x) as int;
                    let via_next = paths_via_first(ch, node as nat, k as int + 1, x) as int;
                    let pc = path_count(ch, c as nat, x) as int;
                    assert(via_next == via_k + pc);
                    lemma_paths_via_monotone(ch, node as nat, k as int + 1, n_children as int, x);
                    assert(path_count(ch, node as nat, x) == ind + paths_via_first(ch, node as nat, n_children as int, x));
                    assert(i32::MIN <= propagated_value(m0, node as nat, delta as int, x) <= i32::MAX);
                    lemma_partial_step_fits(m0.values[x as int] as int, delta as int, ind + via_next, path_count(ch, node as nat, x) as int);
                    assert(delta * (ind + via_k) + delta * pc == delta * (ind + via_next)) by (nonlinear_arith)
                        requires via_next == via_k + pc;
                }
            }
            self.propagate(c, delta);
            proof {
                assert forall|x: nat| x < m0.values.len() implies #[trigger] self@.values[x as int] == m0.values[x as int]
                    + delta * ((if x == node { 1int } else { 0int }) + paths_via_first(ch, node as nat, k as int + 1, x)) by {
                    let ind: int = if x == node { 1int } else { 0int };
                    let via_k = paths_via_first(ch, node as nat, k as int, x) as int;
                    let via_next = paths_via_first(ch, node as nat, k as int + 1, x) as int;
                    let pc = path_count(ch, c as nat, x) as int;
                    assert(via_next == via_k + pc);
                    assert(before.values[x as int] == m0.values[x as int] + delta * (ind + via_k));
                    assert(delta * (ind + via_k) + delta * pc == delta * (ind + via_next)) by (nonlinear_arith)
                        requires via_next == via_k + pc;
                }
            }
            k += 1;
        }
    }
}

/// Adds `UPDATE_STEP` to `node` and, through its references, to every node
/// reachable from it: once for each walk that reaches it.
pub fn update_node(graph: &mut NodeGraph, node: usize)
    requires
        old(graph).wf(),
        node < old(graph)@.values.len(),
        propagation_fits(old(graph)@, node as nat, UPDATE_STEP as int),
    ensures
        final(graph).wf(),
        final(graph)@.children == old(graph)@.children,
        final(graph)@.values.len() == old(graph)@.values.len(),
        forall|x: nat| x < old(graph)@.values.len() ==> #[trigger] final(graph)@.values[x as int]
            == propagated_value(old(graph)@, node as nat, UPDATE_STEP as int, x),
{
    graph.propagate(node, UPDATE_STEP);
}

} // verus!
