use vstd::prelude::*;

use crate::backend::Backend;
use crate::buffer::{Buffer, ElemType, Layout};
use crate::device::{CacheError, Device};
use crate::replay::{is_hit, place};

verus! {

/// One buffer-producing operation: what it is, which slot its output came
/// from, the layout of that output, and the ids of the nodes it read.
#[derive(Debug)]
pub struct Node {
    pub id: usize,
    pub op: u32,
    pub slot: usize,
    pub layout: Layout,
    pub inputs: Vec<usize>,
}

#[derive(Clone, Copy, Debug, PartialEq, Eq, Structural)]
pub enum GraphError {
    /// An input names a node that has not been recorded.
    UnknownInput { input: usize },
}

/// Why an operation could not produce its output.
#[derive(Clone, Copy, Debug, PartialEq, Eq, Structural)]
pub enum OpError {
    Graph(GraphError),
    Cache(CacheError),
}

/// Node `j` reads the output of node `i`.
pub open spec fn consumes(g: Seq<Node>, j: int, i: int) -> bool {
    0 <= j < g.len() && exists|m: int| 0 <= m < g[j].inputs@.len() && #[trigger] g[j].inputs@[m] as int == i
}

/// Node `j` is the one node that reads the output of node `i`.
pub open spec fn sole_consumer(g: Seq<Node>, i: int, j: int) -> bool {
    consumes(g, j, i) && forall|k: int| #[trigger] consumes(g, k, i) ==> k == j
}

/// The output of node `i` is dead once node `j` has read it, and `j`
/// produces a buffer of the same layout: `j` could write into `i`'s buffer.
pub open spec fn chains_to(g: Seq<Node>, i: int, j: int) -> bool {
    &&& i < j
    &&& sole_consumer(g, i, j)
    &&& g[j].layout == g[i].layout
}

/// The run of nodes, from `i` on, whose outputs could share one allocation.
pub open spec fn trace_from(g: Seq<Node>, i: int) -> Seq<int>
    decreases g.len() - i,
{
    if exists|j: int| chains_to(g, i, j) {
        let j = choose|j: int| chains_to(g, i, j);
        seq![i].add(trace_from(g, j))
    } else {
        seq![i]
    }
}

/// Each node reads only nodes recorded before it, and its id is its position.
pub open spec fn graph_wf(g: Seq<Node>) -> bool {
    &&& forall|i: int| 0 <= i < g.len() ==> (#[trigger] g[i]).id == i
    &&& forall|i: int, k: int|
        0 <= i < g.len() && 0 <= k < g[i].inputs@.len() ==> (#[trigger] g[i].inputs@[k] as int) < i
}

/// K nodes of one layout, the first reading nothing and each other one
/// reading only the node just before it.
pub open spec fn is_linear_chain(g: Seq<Node>) -> bool {
    &&& g.len() > 0
    &&& forall|i: int| 0 <= i < g.len() ==> (#[trigger] g[i]).layout == g[0].layout
    &&& g[0].inputs@.len() == 0
    &&& forall|i: int|
        0 < i < g.len() ==> (#[trigger] g[i]).inputs@.len() == 1 && g[i].inputs@[0] as int == i - 1
}

proof fn lemma_chain_step(g: Seq<Node>, i: int)
    requires
        is_linear_chain(g),
        0 <= i < g.len(),
    ensures
        i + 1 < g.len() ==> chains_to(g, i, i + 1),
        forall|j: int| chains_to(g, i, j) ==> j == i + 1,
{
    assert forall|k: int| #[trigger] consumes(g, k, i) implies k == i + 1 by {
        if k > 0 {
            assert(g[k].inputs@.len() == 1);
        }
    }
    if i + 1 < g.len() {
        assert(g[i + 1].inputs@[0] as int == i);
        assert(consumes(g, i + 1, i));
    }
}

proof fn lemma_chain_suffix(g: Seq<Node>, i: int)
    requires
        is_linear_chain(g),
        0 <= i < g.len(),
    ensures
        trace_from(g, i) == Seq::new((g.len() - i) as nat, |k: int| i + k),
    decreases g.len() - i,
{
    lemma_chain_step(g, i);
    if i + 1 < g.len() {
        lemma_chain_suffix(g, i + 1);
        assert(trace_from(g, i) == seq![i].add(trace_from(g, i + 1)));
        assert(trace_from(g, i) =~= Seq::new((g.len() - i) as nat, |k: int| i + k));
    } else {
        assert(trace_from(g, i) =~= Seq::new((g.len() - i) as nat, |k: int| i + k));
    }
}

/// On a linear chain of K nodes in which each output is read once, by the
/// next node, the trace from the first node holds all K ids in order.
pub proof fn linear_chain_traces_whole(g: Seq<Node>)
    requires
        is_linear_chain(g),
    ensures
        trace_from(g, 0) == Seq::new(g.len(), |k: int| k),
{
    lemma_chain_suffix(g, 0);
    assert(Seq::new((g.len() - 0) as nat, |k: int| 0 + k) =~= Seq::new(g.len(), |k: int| k));
}

/// The dependency graph of one pass, built as its operations run.
pub struct Graph {
    nodes: Vec<Node>,
}

impl View for Graph {
    type V = Seq<Node>;

    closed spec fn view(&self) -> Seq<Node> {
        self.nodes@
    }
}

pub open spec fn as_ints(s: Seq<usize>) -> Seq<int> {
    s.map_values(|x: usize| x as int)
}

fn feeds(node: &Node, i: usize) -> (r: bool)
    ensures
        r == exists|m: int| 0 <= m < node.inputs@.len() && #[trigger] node.inputs@[m] as int == i,
{
    let mut k: usize = 0;
    while k < node.inputs.len()
        invariant
            k <= node.inputs@.len(),
            forall|m: int| 0 <= m < k ==> node.inputs@[m] != i,
        decreases node.inputs@.len() - k,
    {
        if node.inputs[k] == i {
            return true;
        }
        k = k + 1;
    }
    false
}

impl Graph {
    pub fn new() -> (r: Graph)
        ensures
            r@ == Seq::<Node>::empty(),
    {
        Graph { nodes: Vec::new() }
    }

    pub fn len(&self) -> (r: usize)
        ensures
            r == self@.len(),
    {
        self.nodes.len()
    }

    pub fn node(&self, id: usize) -> (r: Option<&Node>)
        ensures
            r == if id < self@.len() {
                Some(&self@[id as int])
            } else {
                None::<&Node>
            },
    {
        if id < self.nodes.len() {
            Some(&self.nodes[id])
        } else {
            None
        }
    }

    /// Forgets every node, to record the next pass afresh.
    pub fn clear(&mut self)
        ensures
            final(self)@ == Seq::<Node>::empty(),
    {
        self.nodes.clear();
    }

    /// The first of `inputs` that names no recorded node, if any.
    pub fn unknown_input(&self, inputs: &Vec<usize>) -> (r: Option<usize>)
        ensures
            r is None <==> forall|k: int| 0 <= k < inputs@.len() ==> inputs@[k] < self@.len(),
            r matches Some(input) ==> inputs@.contains(input) && input >= self@.len(),
    {
        let n = self.nodes.len();
        let mut k: usize = 0;
        while k < inputs.len()
            invariant
                n == self@.len(),
                k <= inputs@.len(),
                forall|m: int| 0 <= m < k ==> inputs@[m] < n,
            decreases inputs@.len() - k,
        {
            if inputs[k] >= n {
                assert(inputs@.contains(inputs@[k as int]));
                return Some(inputs[k]);
            }
            k = k + 1;
        }
        None
    }

    /// Records an operation that produced a buffer of `layout` from `slot`,
    /// reading the outputs of the nodes `inputs`. Its id is the number of
    /// nodes recorded before it.
    pub fn add_node(&mut self, op: u32, slot: usize, layout: Layout, inputs: Vec<usize>) -> (r: Result<
        usize,
        GraphError,
    >)
        requires
            graph_wf(old(self)@),
        ensures
            graph_wf(final(self)@),
            r is Ok <==> forall|k: int| 0 <= k < inputs@.len() ==> inputs@[k] < old(self)@.len(),
            match r {
                Ok(id) => {
                    &&& id == old(self)@.len()
                    &&& final(self)@.len() == old(self)@.len() + 1
                    &&& final(self)@.drop_last() == old(self)@
                    &&& final(self)@.last().id == id
                    &&& final(self)@.last().op == op
                    &&& final(self)@.last().slot == slot
                    &&& final(self)@.last().layout == layout
                    &&& final(self)@.last().inputs@ == inputs@
                },
                Err(GraphError::UnknownInput { input }) => {
                    &&& inputs@.contains(input)
                    &&& input >= old(self)@.len()
                    &&& final(self)@ == old(self)@
                },
            },
    {
        let n = self.nodes.len();
        match self.unknown_input(&inputs) {
            Some(input) => {
                return Err(GraphError::UnknownInput { input });
            },
            None => {},
        }
        self.nodes.push(Node { id: n, op, slot, layout, inputs });
        assert(self@.drop_last() =~= old(self)@);
        assert forall|i: int, k: int|
            0 <= i < self@.len() && 0 <= k < self@[i].inputs@.len() implies (
            #[trigger] self@[i].inputs@[k] as int) < i by {
            if i < n {
                assert(self@[i] == old(self)@[i]);
            }
        }
        Ok(n)
    }

    /// The one node that reads the output of node `i`, if exactly one does.
    fn sole_consumer_of(&self, i: usize) -> (r: Option<usize>)
        requires
            graph_wf(self@),
            i < self@.len(),
        ensures
            match r {
                Some(j) => i < j && sole_consumer(self@, i as int, j as int),
                None => forall|j: int| !sole_consumer(self@, i as int, j),
            },
    {
        let g = Ghost(self@);
        let mut found: Option<usize> = None;
        let n = self.nodes.len();
        let mut j: usize = i + 1;
        assert forall|k: int| 0 <= k < j implies !#[trigger] consumes(g@, k, i as int) by {
            if consumes(g@, k, i as int) {
                let m = choose|m: int| 0 <= m < g@[k].inputs@.len() && #[trigger] g@[k].inputs@[m] as int == i;
                assert((g@[k].inputs@[m] as int) < k);
            }
        }
        while j < self.nodes.len()
            invariant
                g@ == self@,
                graph_wf(g@),
                i < j <= g@.len(),
                forall|k: int| 0 <= k <= i ==> !#[trigger] consumes(g@, k, i as int),
                found is None ==> forall|k: int| 0 <= k < j ==> !#[trigger] consumes(g@, k, i as int),
                found matches Some(f) ==> {
                    &&& i < f < j
                    &&& consumes(g@, f as int, i as int)
                    &&& forall|k: int| 0 <= k < j && #[trigger] consumes(g@, k, i as int) ==> k == f
                },
            decreases g@.len() - j,
        {
            if feeds(&self.nodes[j], i) {
                assert(consumes(g@, j as int, i as int));
                if found.is_some() {
                    return None;
                }
                found = Some(j);
            }
            j = j + 1;
        }
        found
    }

    /// The ids of the longest run of nodes, from `start` on, in which each
    /// node's output is read by exactly the next node of the run and has its
    /// layout: their outputs could share one allocation. `None` when no
    /// node has the id `start`.
    pub fn trace_cache_path(&self, start: usize) -> (r: Option<Vec<usize>>)
        requires
            graph_wf(self@),
        ensures
            r is Some <==> start < self@.len(),
            r matches Some(t) ==> as_ints(t@) == trace_from(self@, start as int),
    {
        if start >= self.nodes.len() {
            return None;
        }
        let mut trace: Vec<usize> = Vec::new();
        trace.push(start);
        let mut cur = start;
        loop
            invariant
                graph_wf(self@),
                start <= cur < self@.len(),
                trace@.len() >= 1,
                trace@.last() == cur,
                trace_from(self@, start as int) == as_ints(trace@.drop_last()).add(
                    trace_from(self@, cur as int),
                ),
            decreases self@.len() - cur,
        {
            let step = match self.sole_consumer_of(cur) {
                Some(j) => if self.nodes[j].layout == self.nodes[cur].layout {
                    Some(j)
                } else {
                    None
                },
                None => None,
            };
            match step {
                Some(j) => {
                    proof {
                        assert(chains_to(self@, cur as int, j as int));
                        let c = choose|x: int| chains_to(self@, cur as int, x);
                        assert(c == j);
                        assert(trace_from(self@, cur as int) == seq![cur as int].add(
                            trace_from(self@, j as int),
                        ));
                        assert(as_ints(trace@.push(j).drop_last()) =~= as_ints(trace@.drop_last()).add(
                            seq![cur as int],
                        ));
                    }
                    trace.push(j);
                    cur = j;
                },
                None => {
                    assert(!exists|x: int| chains_to(self@, cur as int, x));
                    assert(as_ints(trace@) =~= as_ints(trace@.drop_last()).add(seq![cur as int]));
                    return Some(trace);
                },
            }
        }
    }
}

/// Runs the bookkeeping of one buffer-producing operation: takes its output
/// buffer from the device's cache and records its node, reading `inputs`.
/// Nothing is allocated or recorded when an input is unknown.
pub fn record_op<B: Backend>(
    graph: &mut Graph,
    device: &mut Device<B>,
    op: u32,
    len: usize,
    elem: ElemType,
    inputs: Vec<usize>,
) -> (r: Result<(Buffer, usize), OpError>)
    requires
        graph_wf(old(graph)@),
        old(device).wf(),
    ensures
        graph_wf(final(graph)@),
        final(device).wf(),
        final(device)@.id == old(device)@.id,
        ({
            let known = forall|k: int| 0 <= k < inputs@.len() ==> inputs@[k] < old(graph)@.len();
            let c = old(device)@.counter as int;
            let l = Layout { len, elem };
            &&& !known ==> {
                &&& r matches Err(OpError::Graph(GraphError::UnknownInput { input }))
                &&& *final(device) == *old(device)
                &&& final(graph)@ == old(graph)@
            }
            &&& known && r is Err ==> {
                &&& r == Err::<(Buffer, usize), OpError>(
                    OpError::Cache(CacheError::AllocationFailure { device: old(device)@.id, layout: l }),
                )
                &&& *final(device) == *old(device)
                &&& final(graph)@ == old(graph)@
            }
            &&& known ==> (r is Ok <==> c < usize::MAX && (is_hit(old(device).layouts(), c, l) || (
            l.byte_len() <= usize::MAX && old(device).backend_state().has_room(l.byte_len()))))
            &&& r matches Ok((b, id)) ==> {
                &&& id == old(graph)@.len()
                &&& final(graph)@.drop_last() == old(graph)@
                &&& final(graph)@.last().id == id
                &&& final(graph)@.last().op == op
                &&& final(graph)@.last().slot == c
                &&& final(graph)@.last().layout == l
                &&& final(graph)@.last().inputs@ == inputs@
                &&& b.layout == l
                &&& b.device == old(device)@.id
                &&& final(device)@.counter == c + 1
                &&& b.handle == final(device)@.slots[c].handle
                &&& final(device).layouts() == place(old(device).layouts(), c, l)
                &&& final(device).backend_state().allocations() == old(device).backend_state().allocations()
                    + if is_hit(old(device).layouts(), c, l) {
                    0nat
                } else {
                    1nat
                }
                &&& forall|i: int|
                    0 <= i < old(device)@.slots.len() && i != c ==> {
                        let h = #[trigger] old(device)@.slots[i].handle;
                        &&& final(device)@.slots[i] == old(device)@.slots[i]
                        &&& final(device).memory().contains_key(h)
                        &&& final(device).memory()[h] == old(device).memory()[h]
                    }
            }
        }),
{
    match graph.unknown_input(&inputs) {
        Some(input) => {
            return Err(OpError::Graph(GraphError::UnknownInput { input }));
        },
        None => {},
    }
    let slot = device.counter();
    let b = match device.get_or_alloc(len, elem) {
        Ok(b) => b,
        Err(e) => {
            return Err(OpError::Cache(e));
        },
    };
    match graph.add_node(op, slot, b.layout, inputs) {
        Ok(id) => Ok((b, id)),
        Err(e) => Err(OpError::Graph(e)),
    }
}

} // verus!
