//! An IFDS tabulation solver over problems that give their graph and flow
//! functions.
use vstd::prelude::*;
use std::collections::VecDeque;
use vstd::std_specs::cmp::PartialEqSpec;

verus! {

/// A data-flow fact, or the zero fact that holds everywhere.
#[derive(Debug, Clone, Copy, PartialEq, Eq, Hash)]
pub enum DataFlowFact<F> {
    Zero,
    Fact(F),
}

/// A path edge: `target_fact` holds at `node` when `source_fact` held at
/// the entry of its procedure.
#[derive(Debug, Clone, PartialEq, Eq, Hash)]
pub struct PathEdge<N, F> {
    pub source_fact: DataFlowFact<F>,
    pub node: N,
    pub target_fact: DataFlowFact<F>,
}

/// A summary of a procedure: `exit_fact` at its exit from `entry_fact` at
/// its entry.
#[derive(Debug, Clone, PartialEq, Eq, Hash)]
pub struct SummaryEdge<N, F> {
    pub call_site: N,
    pub entry_fact: DataFlowFact<F>,
    pub exit_fact: DataFlowFact<F>,
}

/// The facts that hold after a node, given one that held before it.
pub trait NormalFlowFunction<F> {
    fn compute(&self, fact: &DataFlowFact<F>) -> Vec<DataFlowFact<F>>;
}

/// The facts that hold at a callee's entry, given one at the call.
pub trait CallFlowFunction<F> {
    fn compute(&self, fact: &DataFlowFact<F>) -> Vec<DataFlowFact<F>>;
}

/// The facts that hold at a return site, given one at the call and one at
/// the callee's exit.
pub trait ReturnFlowFunction<F> {
    fn compute(&self, call_site_fact: &DataFlowFact<F>, exit_fact: &DataFlowFact<F>) -> Vec<DataFlowFact<F>>;
}

/// The facts that hold at a return site along the bypass of a call.
pub trait CallToReturnFlowFunction<F> {
    fn compute(&self, fact: &DataFlowFact<F>) -> Vec<DataFlowFact<F>>;
}

/// A data-flow problem over an interprocedural graph: its seeds, its graph
/// and its flow functions.
pub trait TabulationProblem {
    type Node: Clone + PartialEq;
    type Fact: Clone + PartialEq;

    fn initial_seeds(&self) -> Vec<(Self::Node, Vec<DataFlowFact<Self::Fact>>)>;

    fn zero_value(&self) -> DataFlowFact<Self::Fact>;

    fn successors(&self, node: &Self::Node) -> Vec<Self::Node>;

    fn predecessors(&self, node: &Self::Node) -> Vec<Self::Node>;

    fn is_call_site(&self, node: &Self::Node) -> bool;

    fn is_exit_node(&self, node: &Self::Node) -> bool;

    fn normal_flow(&self, curr: &Self::Node, succ: &Self::Node, fact: &DataFlowFact<Self::Fact>) -> Vec<DataFlowFact<Self::Fact>>;

    fn call_flow(&self, call: &Self::Node, entry: &Self::Node, fact: &DataFlowFact<Self::Fact>) -> Vec<DataFlowFact<Self::Fact>>;

    fn return_flow(
        &self,
        exit: &Self::Node,
        ret: &Self::Node,
        call_site_fact: &DataFlowFact<Self::Fact>,
        exit_fact: &DataFlowFact<Self::Fact>,
    ) -> Vec<DataFlowFact<Self::Fact>>;

    fn call_to_return_flow(&self, call: &Self::Node, ret: &Self::Node, fact: &DataFlowFact<Self::Fact>) -> Vec<DataFlowFact<Self::Fact>>;
}

/// Whether two facts are equal by the fact type's `==`.
pub fn same_fact<F: PartialEq>(a: &DataFlowFact<F>, b: &DataFlowFact<F>) -> (r: bool)
    ensures
        F::obeys_eq_spec() ==> (r <==> match (*a, *b) {
            (DataFlowFact::Zero, DataFlowFact::Zero) => true,
            (DataFlowFact::Fact(x), DataFlowFact::Fact(y)) => x.eq_spec(&y),
            _ => false,
        }),
{
    match (a, b) {
        (DataFlowFact::Zero, DataFlowFact::Zero) => true,
        (DataFlowFact::Fact(x), DataFlowFact::Fact(y)) => x == y,
        _ => false,
    }
}

/// A copy of a fact.
pub fn copy_fact<F: Clone>(a: &DataFlowFact<F>) -> (r: DataFlowFact<F>)
    ensures
        match (*a, r) {
            (DataFlowFact::Zero, DataFlowFact::Zero) => true,
            (DataFlowFact::Fact(x), DataFlowFact::Fact(y)) => cloned(x, y),
            _ => false,
        },
{
    match a {
        DataFlowFact::Zero => DataFlowFact::Zero,
        DataFlowFact::Fact(x) => DataFlowFact::Fact(x.clone()),
    }
}

/// Whether two facts are equal by the fact type's `==`.
pub open spec fn fact_eq<F: PartialEq>(a: DataFlowFact<F>, b: DataFlowFact<F>) -> bool {
    match (a, b) {
        (DataFlowFact::Zero, DataFlowFact::Zero) => true,
        (DataFlowFact::Fact(x), DataFlowFact::Fact(y)) => x.eq_spec(&y),
        _ => false,
    }
}

/// Whether `b` is a clone of `a`.
pub open spec fn fact_cloned<F: Clone>(a: DataFlowFact<F>, b: DataFlowFact<F>) -> bool {
    match (a, b) {
        (DataFlowFact::Zero, DataFlowFact::Zero) => true,
        (DataFlowFact::Fact(x), DataFlowFact::Fact(y)) => cloned(x, y),
        _ => false,
    }
}

/// Whether two path edges are equal, part by part, by `==`.
pub open spec fn edge_eq<N: PartialEq, F: PartialEq>(a: PathEdge<N, F>, b: PathEdge<N, F>) -> bool {
    a.node.eq_spec(&b.node) && fact_eq(a.source_fact, b.source_fact) && fact_eq(a.target_fact, b.target_fact)
}

/// Whether `b` is a clone of `a`, part by part.
pub open spec fn edge_cloned<N: Clone, F: Clone>(a: PathEdge<N, F>, b: PathEdge<N, F>) -> bool {
    cloned(a.node, b.node) && fact_cloned(a.source_fact, b.source_fact) && fact_cloned(a.target_fact, b.target_fact)
}

/// Whether two path edges are equal, part by part.
pub fn same_edge<N: PartialEq, F: PartialEq>(a: &PathEdge<N, F>, b: &PathEdge<N, F>) -> (r: bool)
    ensures
        N::obeys_eq_spec() && F::obeys_eq_spec() ==> (r == edge_eq(*a, *b)),
{
    let n = a.node == b.node;
    let s = same_fact(&a.source_fact, &b.source_fact);
    let t = same_fact(&a.target_fact, &b.target_fact);
    n && s && t
}

/// A copy of a path edge.
pub fn copy_edge<N: Clone, F: Clone>(a: &PathEdge<N, F>) -> (r: PathEdge<N, F>)
    ensures
        edge_cloned(*a, r),
{
    PathEdge { source_fact: copy_fact(&a.source_fact), node: a.node.clone(), target_fact: copy_fact(&a.target_fact) }
}


/// The path edges of `edges` at `node` from `source`, in order.
pub open spec fn edges_at<N: PartialEq, F: PartialEq>(edges: Seq<PathEdge<N, F>>, source: DataFlowFact<F>, node: N) -> Seq<PathEdge<N, F>>
    decreases edges.len(),
{
    if edges.len() == 0 {
        Seq::empty()
    } else {
        edges_at(edges.drop_last(), source, node) + if fact_eq(edges.last().source_fact, source) && edges.last().node.eq_spec(&node) {
            seq![edges.last()]
        } else {
            Seq::empty()
        }
    }
}


/// Whether a record of callers is keyed by `entry` and fact `d`.
pub open spec fn key_match<N: PartialEq, F: PartialEq>(rec: ((N, DataFlowFact<F>), Vec<(N, N, DataFlowFact<F>)>), entry: N, d: DataFlowFact<F>) -> bool {
    rec.0.0.eq_spec(&entry) && fact_eq(rec.0.1, d)
}

/// Whether a recorded caller is the call at `call` returning to `ret` with fact `d1`.
pub open spec fn caller_eq<N: PartialEq, F: PartialEq>(c: (N, N, DataFlowFact<F>), call: N, ret: N, d1: DataFlowFact<F>) -> bool {
    c.0.eq_spec(&call) && c.1.eq_spec(&ret) && fact_eq(c.2, d1)
}

/// Whether `c` is a clone of the caller (`call`, `ret`, `d1`).
pub open spec fn caller_cloned<N: Clone, F: Clone>(call: N, ret: N, d1: DataFlowFact<F>, c: (N, N, DataFlowFact<F>)) -> bool {
    cloned(call, c.0) && cloned(ret, c.1) && fact_cloned(d1, c.2)
}

/// Whether `b` is a clone of caller `a`.
pub open spec fn callers_cloned<N: Clone, F: Clone>(a: (N, N, DataFlowFact<F>), b: (N, N, DataFlowFact<F>)) -> bool {
    caller_cloned(a.0, a.1, a.2, b)
}

/// Whether a summary is the one at `e_q` from `d1` to `d2`.
pub open spec fn summary_eq<N: PartialEq, F: PartialEq>(s: SummaryEdge<N, F>, e_q: N, d1: DataFlowFact<F>, d2: DataFlowFact<F>) -> bool {
    s.call_site.eq_spec(&e_q) && fact_eq(s.entry_fact, d1) && fact_eq(s.exit_fact, d2)
}

/// A first-in first-out queue of path edges that accepts each edge once.
pub struct Worklist<T> {
    queue: VecDeque<T>,
    visited: Vec<T>,
}

impl<N: Clone + PartialEq, F: Clone + PartialEq> Worklist<PathEdge<N, F>> {
    /// The items waiting, oldest first.
    pub closed spec fn waiting(&self) -> Seq<PathEdge<N, F>> {
        self.queue@
    }

    /// The items ever accepted.
    pub closed spec fn seen(&self) -> Seq<PathEdge<N, F>> {
        self.visited@
    }

    /// An empty worklist.
    pub fn new() -> (r: Self)
        ensures
            r.waiting() == Seq::<PathEdge<N, F>>::empty(),
            r.seen() == Seq::<PathEdge<N, F>>::empty(),
    {
        Worklist { queue: VecDeque::new(), visited: Vec::new() }
    }

    /// Queues `item` unless an equal item was accepted before; says whether
    /// it was queued. An accepted item is remembered by a clone.
    pub fn push(&mut self, item: PathEdge<N, F>) -> (r: bool)
        ensures
            N::obeys_eq_spec() && F::obeys_eq_spec() ==>
                (r <==> !exists|i: int| 0 <= i < old(self).seen().len() && edge_eq(#[trigger] old(self).seen()[i], item)),
            r ==> final(self).waiting() == old(self).waiting().push(item),
            r ==> final(self).seen().len() == old(self).seen().len() + 1,
            r ==> final(self).seen().drop_last() == old(self).seen(),
            r ==> edge_cloned(item, final(self).seen().last()),
            !r ==> final(self).waiting() == old(self).waiting(),
            !r ==> final(self).seen() == old(self).seen(),
    {
        let mut i: usize = 0;
        while i < self.visited.len()
            invariant
                i <= self.visited@.len(),
                self.visited@ == old(self).seen(),
                self.queue@ == old(self).waiting(),
                N::obeys_eq_spec() && F::obeys_eq_spec() ==>
                    forall|j: int| 0 <= j < i ==> !edge_eq(#[trigger] self.visited@[j], item),
            decreases self.visited.len() - i,
        {
            if same_edge(&self.visited[i], &item) {
                return false;
            }
            i = i + 1;
        }
        let copy = copy_edge(&item);
        self.visited.push(copy);
        self.queue.push_back(item);
        assert(self.visited@.drop_last() =~= old(self).seen());
        true
    }

    /// Queues `item`, remembering a clone of it, without looking for an
    /// equal item accepted before.
    fn enqueue(&mut self, item: PathEdge<N, F>)
        ensures
            final(self).waiting() == old(self).waiting().push(item),
            final(self).seen().len() == old(self).seen().len() + 1,
            final(self).seen().drop_last() == old(self).seen(),
            edge_cloned(item, final(self).seen().last()),
    {
        let copy = copy_edge(&item);
        self.visited.push(copy);
        self.queue.push_back(item);
        assert(self.visited@.drop_last() =~= old(self).seen());
    }

    /// Takes the oldest item, if any.
    pub fn pop(&mut self) -> (r: Option<PathEdge<N, F>>)
        ensures
            final(self).seen() == old(self).seen(),
            old(self).waiting().len() == 0 ==> r is None && final(self).waiting() == old(self).waiting(),
            old(self).waiting().len() > 0 ==> r == Some(old(self).waiting()[0]) && final(self).waiting() == old(self).waiting().drop_first(),
    {
        self.queue.pop_front()
    }

    /// Whether nothing is waiting.
    pub fn is_empty(&self) -> (r: bool)
        ensures
            r == (self.waiting().len() == 0),
    {
        self.queue.len() == 0
    }

    /// The number of items waiting.
    pub fn len(&self) -> (r: usize)
        ensures
            r == self.waiting().len(),
    {
        self.queue.len()
    }
}

} // verus!

verus! {

/// The callers recorded for one callee entry and entry fact.
pub type CallerSet<N, F> = Vec<(N, N, DataFlowFact<F>)>;

/// The IFDS tabulation solver: path edges reachable from the seeds, the
/// procedure summaries found, and the callers waiting at each entry.
pub struct IfdsSolver<P: TabulationProblem> {
    pub problem: P,
    pub worklist: Worklist<PathEdge<P::Node, P::Fact>>,
    pub path_edges: Vec<PathEdge<P::Node, P::Fact>>,
    pub summary_edges: Vec<SummaryEdge<P::Node, P::Fact>>,
    pub incoming: Vec<((P::Node, DataFlowFact<P::Fact>), CallerSet<P::Node, P::Fact>)>,
}

/// Whether `after_edges` holds `before_edges` at its start and the queue
/// `after_queue` holds `before_queue` at its start, and each path edge added
/// was queued, in the same order, by an edge of which it is a copy.
pub open spec fn grown<N: Clone + PartialEq, F: Clone + PartialEq>(before_edges: Seq<PathEdge<N, F>>, before_queue: Seq<PathEdge<N, F>>, after_edges: Seq<PathEdge<N, F>>, after_queue: Seq<PathEdge<N, F>>) -> bool {
    &&& after_edges.len() >= before_edges.len()
    &&& after_edges.subrange(0, before_edges.len() as int) == before_edges
    &&& after_queue.len() == before_queue.len() + (after_edges.len() - before_edges.len())
    &&& after_queue.subrange(0, before_queue.len() as int) == before_queue
    &&& forall|j: int| 0 <= j < after_edges.len() - before_edges.len()
        ==> edge_cloned(after_queue[before_queue.len() + j], #[trigger] after_edges[before_edges.len() + j])
}

proof fn lemma_grown_refl<N: Clone + PartialEq, F: Clone + PartialEq>(e: Seq<PathEdge<N, F>>, q: Seq<PathEdge<N, F>>)
    ensures
        grown(e, q, e, q),
{
    assert(e.subrange(0, e.len() as int) =~= e);
    assert(q.subrange(0, q.len() as int) =~= q);
}

proof fn lemma_grown_trans<N: Clone + PartialEq, F: Clone + PartialEq>(e0: Seq<PathEdge<N, F>>, q0: Seq<PathEdge<N, F>>,
    e1: Seq<PathEdge<N, F>>, q1: Seq<PathEdge<N, F>>, e2: Seq<PathEdge<N, F>>, q2: Seq<PathEdge<N, F>>)
    requires
        grown(e0, q0, e1, q1),
        grown(e1, q1, e2, q2),
    ensures
        grown(e0, q0, e2, q2),
{
    assert(e2.subrange(0, e0.len() as int) =~= e0) by {
        assert forall|k: int| 0 <= k < e0.len() implies e2[k] == e0[k] by {
            assert(e2.subrange(0, e1.len() as int)[k] == e1[k]);
            assert(e1.subrange(0, e0.len() as int)[k] == e0[k]);
        }
    }
    assert(q2.subrange(0, q0.len() as int) =~= q0) by {
        assert forall|k: int| 0 <= k < q0.len() implies q2[k] == q0[k] by {
            assert(q2.subrange(0, q1.len() as int)[k] == q1[k]);
            assert(q1.subrange(0, q0.len() as int)[k] == q0[k]);
        }
    }
    assert forall|j: int| 0 <= j < e2.len() - e0.len()
        implies edge_cloned(q2[q0.len() + j], #[trigger] e2[e0.len() + j]) by {
        if j < e1.len() - e0.len() {
            assert(e1[e0.len() + j] == e2.subrange(0, e1.len() as int)[e0.len() + j]);
            assert(q1[q0.len() + j] == q2.subrange(0, q1.len() as int)[q0.len() + j]);
        } else {
            let j2 = j - (e1.len() - e0.len());
            assert(e2[e1.len() + j2] == e2[e0.len() + j]);
        }
    }
}

/// Whether `e` stands for the path edge `(source, node, target)`: it is a
/// copy of an edge built from copies of the three, or, where both types'
/// `==` follow their specification, equal to such an edge.
pub open spec fn represents<N: Clone + PartialEq, F: Clone + PartialEq>(e: PathEdge<N, F>, source: DataFlowFact<F>, node: N, target: DataFlowFact<F>) -> bool {
    exists|b: PathEdge<N, F>| #[trigger] built_from(b, source, node, target) && stands_for(e, b)
}

/// Whether `b` was built from copies of `source`, `node` and `target`.
pub open spec fn built_from<N: Clone + PartialEq, F: Clone + PartialEq>(b: PathEdge<N, F>, source: DataFlowFact<F>, node: N, target: DataFlowFact<F>) -> bool {
    fact_cloned(source, b.source_fact) && cloned(node, b.node) && fact_cloned(target, b.target_fact)
}

/// Whether the recorded edge `e` stands for `b`: a copy of it, or, where
/// both types' `==` follow their specification, equal to it.
pub open spec fn stands_for<N: Clone + PartialEq, F: Clone + PartialEq>(e: PathEdge<N, F>, b: PathEdge<N, F>) -> bool {
    edge_cloned(b, e) || (N::obeys_eq_spec() && F::obeys_eq_spec() ==> edge_eq(e, b))
}

/// Whether some path edge of `edges` stands for `(source, node, target)`.
pub open spec fn has_edge_for<N: Clone + PartialEq, F: Clone + PartialEq>(edges: Seq<PathEdge<N, F>>, source: DataFlowFact<F>, node: N, target: DataFlowFact<F>) -> bool {
    exists|k: int| 0 <= k < edges.len() && #[trigger] represents(edges[k], source, node, target)
}

/// Whether `edges` holds a path edge from a zero fact of `problem` to
/// `fact` at `node`.
pub open spec fn seeded<P: TabulationProblem>(problem: P, edges: Seq<PathEdge<P::Node, P::Fact>>, node: P::Node, fact: DataFlowFact<P::Fact>) -> bool {
    exists|z: DataFlowFact<P::Fact>| call_ensures(P::zero_value, (&problem,), z) && has_edge_for(edges, z, node, fact)
}

/// Whether the facts that the problem's normal flow gave from `w` to its
/// successor `m` all hold at `m`, from `w`'s source fact, in `edges`.
pub open spec fn flow_reached<P: TabulationProblem>(problem: P, edges: Seq<PathEdge<P::Node, P::Fact>>, w: PathEdge<P::Node, P::Fact>, m: P::Node) -> bool {
    exists|out: Vec<DataFlowFact<P::Fact>>| {
        &&& #[trigger] call_ensures(P::normal_flow, (&problem, &w.node, &m, &w.target_fact), out)
        &&& forall|t: int| 0 <= t < out@.len() ==> has_edge_for(edges, w.source_fact, m, #[trigger] out@[t])
    }
}

/// Whether `edges` is closed under the normal flow from `w`: for each
/// successor the problem gave for `w`'s node, the facts its normal flow
/// gave hold there.
pub open spec fn normal_closed<P: TabulationProblem>(problem: P, edges: Seq<PathEdge<P::Node, P::Fact>>, w: PathEdge<P::Node, P::Fact>) -> bool {
    exists|succs: Vec<P::Node>| {
        &&& #[trigger] call_ensures(P::successors, (&problem, &w.node), succs)
        &&& forall|j: int| 0 <= j < succs@.len() ==> flow_reached(problem, edges, w, #[trigger] succs@[j])
    }
}

/// Whether the processed path edge `w` is closed in `edges`: where the
/// problem said its node is a call site, `edges` is closed at the call;
/// where it said the node is neither a call site nor an exit, `edges` is
/// closed under the normal flow from it.
pub open spec fn processed_closed<P: TabulationProblem>(problem: P, edges: Seq<PathEdge<P::Node, P::Fact>>, w: PathEdge<P::Node, P::Fact>) -> bool {
    exists|c: bool| {
        &&& #[trigger] call_ensures(P::is_call_site, (&problem, &w.node), c)
        &&& c ==> call_closed(problem, edges, w)
        &&& !c ==> exists|x: bool| {
            &&& #[trigger] call_ensures(P::is_exit_node, (&problem, &w.node), x)
            &&& !x ==> normal_closed(problem, edges, w)
        }
    }
}

/// Whether a run of the solver on `problem`, from path edges `before` and
/// queue `queued`, ended with path edges `edges` having processed exactly
/// `processed`: the edges queued at the start and then one for each path
/// edge added (which is a copy of it), each closed in `edges`.
pub open spec fn solved_from<P: TabulationProblem>(problem: P, before: Seq<PathEdge<P::Node, P::Fact>>, queued: Seq<PathEdge<P::Node, P::Fact>>,
    edges: Seq<PathEdge<P::Node, P::Fact>>, processed: Seq<PathEdge<P::Node, P::Fact>>) -> bool {
    &&& grown(before, queued, edges, processed)
    &&& forall|i: int| 0 <= i < processed.len() ==> processed_closed(problem, edges, #[trigger] processed[i])
}

/// Whether `edges` is what the solver tabulates for `problem` from
/// nothing: it holds a path edge from a zero fact for each seed fact, and
/// it was reached by processing, in order, one queued copy of each of its
/// edges, each closed in `edges`.
pub open spec fn tabulated<P: TabulationProblem>(problem: P, edges: Seq<PathEdge<P::Node, P::Fact>>) -> bool {
    &&& exists|processed: Seq<PathEdge<P::Node, P::Fact>>| #[trigger] solved_from(problem, Seq::empty(), Seq::empty(), edges, processed)
    &&& exists|seeds: Vec<(P::Node, Vec<DataFlowFact<P::Fact>>)>| {
        &&& #[trigger] call_ensures(P::initial_seeds, (&problem,), seeds)
        &&& forall|i: int, j: int| 0 <= i < seeds@.len() && 0 <= j < seeds@[i].1@.len()
            ==> seeded(problem, edges, seeds@[i].0, #[trigger] seeds@[i].1@[j])
    }
}

/// Whether `b` holds `a` at its start.
pub open spec fn keeps<N, F>(a: Seq<PathEdge<N, F>>, b: Seq<PathEdge<N, F>>) -> bool {
    b.len() >= a.len() && b.subrange(0, a.len() as int) == a
}

proof fn lemma_keeps_trans<N, F>(a: Seq<PathEdge<N, F>>, b: Seq<PathEdge<N, F>>, c: Seq<PathEdge<N, F>>)
    requires
        keeps(a, b),
        keeps(b, c),
    ensures
        keeps(a, c),
{
    assert(c.subrange(0, a.len() as int) =~= a) by {
        assert forall|k: int| 0 <= k < a.len() implies c[k] == a[k] by {
            assert(c.subrange(0, b.len() as int)[k] == b[k]);
            assert(b.subrange(0, a.len() as int)[k] == a[k]);
        }
    }
}

/// What the solver saw of whether `n` starts a procedure, given its answer
/// `r`: the problem's predecessors of `n`, all of which it said are call
/// sites when `r` holds, and one of which it said is not otherwise.
pub open spec fn entry_answer<P: TabulationProblem>(problem: P, n: P::Node, r: bool) -> bool {
    exists|preds: Vec<P::Node>| {
        &&& #[trigger] call_ensures(P::predecessors, (&problem, &n), preds)
        &&& r ==> forall|j: int| 0 <= j < preds@.len() ==> said_call(problem, #[trigger] preds@[j], true)
        &&& !r ==> exists|j: int| 0 <= j < preds@.len() && said_call(problem, #[trigger] preds@[j], false)
    }
}

/// Whether the problem said `v` of `n` being a call site.
pub open spec fn said_call<P: TabulationProblem>(problem: P, n: P::Node, v: bool) -> bool {
    exists|b: bool| #[trigger] call_ensures(P::is_call_site, (&problem, &n), b) && b == v
}

/// Whether the facts that the problem's call-to-return flow gave from `w`
/// to the return site `m` all hold at `m`, from `w`'s source fact.
pub open spec fn ret_reached<P: TabulationProblem>(problem: P, edges: Seq<PathEdge<P::Node, P::Fact>>, w: PathEdge<P::Node, P::Fact>, m: P::Node) -> bool {
    exists|out: Vec<DataFlowFact<P::Fact>>| {
        &&& #[trigger] call_ensures(P::call_to_return_flow, (&problem, &w.node, &m, &w.target_fact), out)
        &&& forall|t: int| 0 <= t < out@.len() ==> has_edge_for(edges, w.source_fact, m, #[trigger] out@[t])
    }
}

/// Whether each fact that the problem's call flow gave from `w` into the
/// callee entry `m` holds at `m` from itself.
pub open spec fn entry_reached<P: TabulationProblem>(problem: P, edges: Seq<PathEdge<P::Node, P::Fact>>, w: PathEdge<P::Node, P::Fact>, m: P::Node) -> bool {
    exists|out: Vec<DataFlowFact<P::Fact>>| {
        &&& #[trigger] call_ensures(P::call_flow, (&problem, &w.node, &m, &w.target_fact), out)
        &&& forall|t: int| 0 <= t < out@.len() ==> has_edge_for(edges, out@[t], m, #[trigger] out@[t])
    }
}

/// Whether the successors `succs` of a call site, told apart by `entry`
/// into callee entries and return sites, are reached from `w`: the first
/// return site by the call-to-return flow, each callee entry by the call
/// flow.
pub open spec fn call_parts<P: TabulationProblem>(problem: P, edges: Seq<PathEdge<P::Node, P::Fact>>, w: PathEdge<P::Node, P::Fact>,
    succs: Seq<P::Node>, entry: Seq<bool>) -> bool {
    &&& forall|j: int| 0 <= j < succs.len() && !entry[j] && (forall|i: int| 0 <= i < j ==> entry[i])
        ==> ret_reached(problem, edges, w, #[trigger] succs[j])
    &&& forall|j: int| 0 <= j < succs.len() && entry[j] ==> entry_reached(problem, edges, w, #[trigger] succs[j])
}

/// Whether `edges` is closed at the call site of `w`: under the
/// call-to-return flow to its first return site, and under the call flow
/// into each callee entry.
pub open spec fn call_closed<P: TabulationProblem>(problem: P, edges: Seq<PathEdge<P::Node, P::Fact>>, w: PathEdge<P::Node, P::Fact>) -> bool {
    exists|succs: Vec<P::Node>, entry: Seq<bool>| {
        &&& call_ensures(P::successors, (&problem, &w.node), succs)
        &&& entry.len() == succs@.len()
        &&& forall|j: int| 0 <= j < succs@.len() ==> entry_answer(problem, #[trigger] succs@[j], entry[j])
        &&& #[trigger] call_parts(problem, edges, w, succs@, entry)
    }
}

proof fn lemma_call_parts_grown<P: TabulationProblem>(problem: P, a: Seq<PathEdge<P::Node, P::Fact>>, b: Seq<PathEdge<P::Node, P::Fact>>,
    w: PathEdge<P::Node, P::Fact>, succs: Seq<P::Node>, entry: Seq<bool>, upto: int)
    requires
        keeps(a, b),
        entry.len() == succs.len(),
        forall|j: int| 0 <= j < succs.len() && !entry[j] && (forall|i: int| 0 <= i < j ==> entry[i])
            ==> ret_reached(problem, a, w, #[trigger] succs[j]),
        forall|j: int| 0 <= j < upto && entry[j] ==> entry_reached(problem, a, w, #[trigger] succs[j]),
    ensures
        forall|j: int| 0 <= j < succs.len() && !entry[j] && (forall|i: int| 0 <= i < j ==> entry[i])
            ==> ret_reached(problem, b, w, #[trigger] succs[j]),
        forall|j: int| 0 <= j < upto && entry[j] ==> entry_reached(problem, b, w, #[trigger] succs[j]),
{
    assert forall|j: int| 0 <= j < succs.len() && !entry[j] && (forall|i: int| 0 <= i < j ==> entry[i])
        implies ret_reached(problem, b, w, #[trigger] succs[j]) by {
        let out = choose|out: Vec<DataFlowFact<P::Fact>>| {
            &&& #[trigger] call_ensures(P::call_to_return_flow, (&problem, &w.node, &succs[j], &w.target_fact), out)
            &&& forall|t: int| 0 <= t < out@.len() ==> has_edge_for(a, w.source_fact, succs[j], #[trigger] out@[t])
        };
        assert forall|t: int| 0 <= t < out@.len() implies has_edge_for(b, w.source_fact, succs[j], #[trigger] out@[t]) by {
            lemma_has_edge_grown(a, b, w.source_fact, succs[j], out@[t]);
        }
    }
    assert forall|j: int| 0 <= j < upto && entry[j] implies entry_reached(problem, b, w, #[trigger] succs[j]) by {
        let out = choose|out: Vec<DataFlowFact<P::Fact>>| {
            &&& #[trigger] call_ensures(P::call_flow, (&problem, &w.node, &succs[j], &w.target_fact), out)
            &&& forall|t: int| 0 <= t < out@.len() ==> has_edge_for(a, out@[t], succs[j], #[trigger] out@[t])
        };
        assert forall|t: int| 0 <= t < out@.len() implies has_edge_for(b, out@[t], succs[j], #[trigger] out@[t]) by {
            lemma_has_edge_grown(a, b, out@[t], succs[j], out@[t]);
        }
    }
}

proof fn lemma_flow_reached_grown<P: TabulationProblem>(problem: P, a: Seq<PathEdge<P::Node, P::Fact>>, b: Seq<PathEdge<P::Node, P::Fact>>, w: PathEdge<P::Node, P::Fact>, m: P::Node)
    requires
        b.len() >= a.len(),
        b.subrange(0, a.len() as int) == a,
        flow_reached(problem, a, w, m),
    ensures
        flow_reached(problem, b, w, m),
{
    let out = choose|out: Vec<DataFlowFact<P::Fact>>| {
        &&& #[trigger] call_ensures(P::normal_flow, (&problem, &w.node, &m, &w.target_fact), out)
        &&& forall|t: int| 0 <= t < out@.len() ==> has_edge_for(a, w.source_fact, m, #[trigger] out@[t])
    };
    assert forall|t: int| 0 <= t < out@.len() implies has_edge_for(b, w.source_fact, m, #[trigger] out@[t]) by {
        lemma_has_edge_grown(a, b, w.source_fact, m, out@[t]);
    }
}

proof fn lemma_closed_grown<P: TabulationProblem>(problem: P, a: Seq<PathEdge<P::Node, P::Fact>>, b: Seq<PathEdge<P::Node, P::Fact>>, w: PathEdge<P::Node, P::Fact>)
    requires
        b.len() >= a.len(),
        b.subrange(0, a.len() as int) == a,
        processed_closed(problem, a, w),
    ensures
        processed_closed(problem, b, w),
{
    let c = choose|c: bool| {
        &&& #[trigger] call_ensures(P::is_call_site, (&problem, &w.node), c)
        &&& c ==> call_closed(problem, a, w)
        &&& !c ==> exists|x: bool| {
            &&& #[trigger] call_ensures(P::is_exit_node, (&problem, &w.node), x)
            &&& !x ==> normal_closed(problem, a, w)
        }
    };
    if c {
        assert(call_closed(problem, a, w));
        let (succs, entry) = choose|succs: Vec<P::Node>, entry: Seq<bool>| {
            &&& call_ensures(P::successors, (&problem, &w.node), succs)
            &&& entry.len() == succs@.len()
            &&& forall|j: int| 0 <= j < succs@.len() ==> entry_answer(problem, #[trigger] succs@[j], entry[j])
            &&& #[trigger] call_parts(problem, a, w, succs@, entry)
        };
        lemma_call_parts_grown(problem, a, b, w, succs@, entry, succs@.len() as int);
        assert(call_parts(problem, b, w, succs@, entry));
        assert(call_closed(problem, b, w));
    }
    if !c {
        let x = choose|x: bool| {
            &&& #[trigger] call_ensures(P::is_exit_node, (&problem, &w.node), x)
            &&& !x ==> normal_closed(problem, a, w)
        };
        if !x {
            let succs = choose|succs: Vec<P::Node>| {
                &&& #[trigger] call_ensures(P::successors, (&problem, &w.node), succs)
                &&& forall|j: int| 0 <= j < succs@.len() ==> flow_reached(problem, a, w, #[trigger] succs@[j])
            };
            assert forall|j: int| 0 <= j < succs@.len() implies flow_reached(problem, b, w, #[trigger] succs@[j]) by {
                lemma_flow_reached_grown(problem, a, b, w, succs@[j]);
            }
            assert(normal_closed(problem, b, w));
        }
    }
}

/// A grown queue with items in front: what was added is the same.
proof fn lemma_grown_front<N: Clone + PartialEq, F: Clone + PartialEq>(e1: Seq<PathEdge<N, F>>, q1: Seq<PathEdge<N, F>>,
    e2: Seq<PathEdge<N, F>>, q2: Seq<PathEdge<N, F>>, pre: Seq<PathEdge<N, F>>)
    requires
        grown(e1, q1, e2, q2),
    ensures
        grown(e1, pre + q1, e2, pre + q2),
{
    assert((pre + q2).subrange(0, (pre + q1).len() as int) =~= pre + q1) by {
        assert forall|k: int| 0 <= k < (pre + q1).len() implies (pre + q2)[k] == (pre + q1)[k] by {
            if k >= pre.len() {
                assert(q2.subrange(0, q1.len() as int)[k - pre.len()] == q1[k - pre.len()]);
            }
        }
    }
    assert forall|j: int| 0 <= j < e2.len() - e1.len()
        implies edge_cloned((pre + q2)[(pre + q1).len() + j], #[trigger] e2[e1.len() + j]) by {
        assert((pre + q2)[(pre + q1).len() + j] == q2[q1.len() + j]);
    }
}

proof fn lemma_has_edge_grown<N: Clone + PartialEq, F: Clone + PartialEq>(a: Seq<PathEdge<N, F>>, b: Seq<PathEdge<N, F>>, s: DataFlowFact<F>, n: N, t: DataFlowFact<F>)
    requires
        b.len() >= a.len(),
        b.subrange(0, a.len() as int) == a,
        has_edge_for(a, s, n, t),
    ensures
        has_edge_for(b, s, n, t),
{
    let k = choose|k: int| 0 <= k < a.len() && #[trigger] represents(a[k], s, n, t);
    assert(b.subrange(0, a.len() as int)[k] == b[k]);
    assert(represents(b[k], s, n, t));
}

proof fn lemma_seeded_grown<P: TabulationProblem>(problem: P, a: Seq<PathEdge<P::Node, P::Fact>>, b: Seq<PathEdge<P::Node, P::Fact>>, n: P::Node, f: DataFlowFact<P::Fact>)
    requires
        b.len() >= a.len(),
        b.subrange(0, a.len() as int) == a,
        seeded(problem, a, n, f),
    ensures
        seeded(problem, b, n, f),
{
    let z = choose|z: DataFlowFact<P::Fact>| call_ensures(P::zero_value, (&problem,), z) && has_edge_for(a, z, n, f);
    lemma_has_edge_grown(a, b, z, n, f);
}

impl<P: TabulationProblem> IfdsSolver<P> {
    /// A solver for `problem` with nothing found yet.
    pub fn new(problem: P) -> (r: Self)
        ensures
            r.problem == problem,
            r.worklist.waiting().len() == 0,
            r.path_edges@.len() == 0,
            r.summary_edges@.len() == 0,
            r.incoming@.len() == 0,
    {
        IfdsSolver { problem, worklist: Worklist::new(), path_edges: Vec::new(), summary_edges: Vec::new(), incoming: Vec::new() }
    }

    /// Records `edge` as a path edge and queues it, unless an equal path
    /// edge is already recorded.
    fn propagate(&mut self, edge: PathEdge<P::Node, P::Fact>)
        ensures
            grown(old(self).path_edges@, old(self).worklist.waiting(), final(self).path_edges@, final(self).worklist.waiting()),
            final(self).path_edges@.len() <= old(self).path_edges@.len() + 1,
            final(self).problem == old(self).problem,
            exists|k: int| 0 <= k < final(self).path_edges@.len() && #[trigger] stands_for(final(self).path_edges@[k], edge),
    {
        let mut i: usize = 0;
        while i < self.path_edges.len()
            invariant
                i <= self.path_edges@.len(),
            decreases self.path_edges.len() - i,
        {
            if same_edge(&self.path_edges[i], &edge) {
                proof { lemma_grown_refl(self.path_edges@, self.worklist.waiting()); }
                assert(stands_for(self.path_edges@[i as int], edge));
                return;
            }
            i = i + 1;
        }
        let copy = copy_edge(&edge);
        self.path_edges.push(copy);
        self.worklist.enqueue(edge);
        assert(self.path_edges@.subrange(0, old(self).path_edges@.len() as int) =~= old(self).path_edges@);
        assert(self.worklist.waiting().subrange(0, old(self).worklist.waiting().len() as int) =~= old(self).worklist.waiting());
        assert(self.path_edges@[old(self).path_edges@.len() + 0int] == copy);
        assert(stands_for(self.path_edges@[old(self).path_edges@.len() as int], edge));
    }

    /// Propagates `(source, node, t)` for each fact `t` of `targets`.
    fn propagate_all(&mut self, source: &DataFlowFact<P::Fact>, node: &P::Node, targets: &Vec<DataFlowFact<P::Fact>>)
        ensures
            grown(old(self).path_edges@, old(self).worklist.waiting(), final(self).path_edges@, final(self).worklist.waiting()),
            final(self).problem == old(self).problem,
            forall|j: int| 0 <= j < targets@.len() ==> has_edge_for(final(self).path_edges@, *source, *node, #[trigger] targets@[j]),
    {
        let mut k: usize = 0;
        proof { lemma_grown_refl(self.path_edges@, self.worklist.waiting()); }
        while k < targets.len()
            invariant
                k <= targets@.len(),
                grown(old(self).path_edges@, old(self).worklist.waiting(), self.path_edges@, self.worklist.waiting()),
                self.problem == old(self).problem,
                forall|j: int| 0 <= j < k ==> has_edge_for(self.path_edges@, *source, *node, #[trigger] targets@[j]),
            decreases targets.len() - k,
        {
            let ghost mid = self.path_edges@;
            let ghost midq = self.worklist.waiting();
            let edge = PathEdge { source_fact: copy_fact(source), node: node.clone(), target_fact: copy_fact(&targets[k]) };
            let ghost built = edge;
            self.propagate(edge);
            proof { lemma_grown_trans(old(self).path_edges@, old(self).worklist.waiting(), mid, midq, self.path_edges@, self.worklist.waiting()); }
            assert(self.path_edges@.subrange(0, old(self).path_edges@.len() as int) =~= old(self).path_edges@) by {
                assert(self.path_edges@.subrange(0, mid.len() as int) == mid);
                assert(mid.subrange(0, old(self).path_edges@.len() as int) == old(self).path_edges@);
            }
            proof {
                assert forall|j: int| 0 <= j < k + 1 implies has_edge_for(self.path_edges@, *source, *node, #[trigger] targets@[j]) by {
                    if j < k {
                        lemma_has_edge_grown(mid, self.path_edges@, *source, *node, targets@[j]);
                    } else {
                        let w = choose|w: int| 0 <= w < self.path_edges@.len() && #[trigger] stands_for(self.path_edges@[w], built);
                        assert(built_from(built, *source, *node, targets@[j]));
                        assert(represents(self.path_edges@[w], *source, *node, targets@[j]));
                    }
                }
            }
            k = k + 1;
        }
    }

    /// Whether `node` starts a procedure: it has no predecessor, or only
    /// call sites lead to it.
    fn is_procedure_entry(&self, node: &P::Node) -> (r: bool)
        ensures
            entry_answer(self.problem, *node, r),
    {
        let preds = self.problem.predecessors(node);
        assert(call_ensures(P::predecessors, (&self.problem, node), preds));
        let mut i: usize = 0;
        while i < preds.len()
            invariant
                i <= preds@.len(),
                forall|j: int| 0 <= j < i ==> said_call(self.problem, #[trigger] preds@[j], true),
                call_ensures(P::predecessors, (&self.problem, node), preds),
            decreases preds.len() - i,
        {
            let b = self.problem.is_call_site(&preds[i]);
            assert(call_ensures(P::is_call_site, (&self.problem, &preds@[i as int]), b));
            assert(said_call(self.problem, preds@[i as int], b));
            if !b {
                assert(0 <= i < preds@.len() && said_call(self.problem, preds@[i as int], false));
                assert(entry_answer(self.problem, *node, false));
                return false;
            }
            i = i + 1;
        }
        true
    }

    /// Whether `v` holds a node equal to `n`.
    fn holds_node(v: &Vec<P::Node>, n: &P::Node) -> (r: bool)
        ensures
            <P::Node as PartialEqSpec>::obeys_eq_spec() ==> (r <==> exists|i: int| 0 <= i < v@.len() && (#[trigger] v@[i]).eq_spec(n)),
    {
        let mut i: usize = 0;
        while i < v.len()
            invariant
                i <= v@.len(),
                <P::Node as PartialEqSpec>::obeys_eq_spec() ==> forall|j: int| 0 <= j < i ==> !(#[trigger] v@[j]).eq_spec(n),
            decreases v.len() - i,
        {
            if v[i] == *n {
                return true;
            }
            i = i + 1;
        }
        false
    }

    /// The exit nodes reachable from `entry` without entering another
    /// procedure.
    fn find_exit_nodes_of_procedure(&self, entry: &P::Node) -> Vec<P::Node> {
        let mut exits: Vec<P::Node> = Vec::new();
        let mut visited: Vec<P::Node> = Vec::new();
        let mut queue: VecDeque<P::Node> = VecDeque::new();
        queue.push_back(entry.clone());
        visited.push(entry.clone());
        loop
            decreases 2 * (usize::MAX - visited.len()) + queue@.len(),
        {
            let curr = match queue.pop_front() {
                Some(c) => c,
                None => {
                    break;
                },
            };
            if self.problem.is_exit_node(&curr) {
                exits.push(curr);
                continue;
            }
            let succs = self.problem.successors(&curr);
            let ghost vlen = visited.len();
            let ghost qlen = queue@.len();
            let mut k: usize = 0;
            while k < succs.len()
                invariant
                    k <= succs@.len(),
                    visited.len() >= vlen,
                    queue@.len() <= qlen + (visited.len() - vlen),
                decreases succs.len() - k,
            {
                let succ = &succs[k];
                if !self.is_procedure_entry(succ) && !Self::holds_node(&visited, succ) {
                    visited.push(succ.clone());
                    queue.push_back(succ.clone());
                }
                k = k + 1;
            }
        }
        exits
    }

    /// The entry node of the procedure of `exit`: the first procedure entry
    /// found walking backwards, or `exit` itself when there is none.
    fn find_entry_node_of_procedure(&self, exit: &P::Node) -> P::Node {
        let mut visited: Vec<P::Node> = Vec::new();
        let mut queue: VecDeque<P::Node> = VecDeque::new();
        queue.push_back(exit.clone());
        visited.push(exit.clone());
        loop
            decreases 2 * (usize::MAX - visited.len()) + queue@.len(),
        {
            let curr = match queue.pop_front() {
                Some(c) => c,
                None => {
                    break;
                },
            };
            if self.is_procedure_entry(&curr) {
                return curr;
            }
            let preds = self.problem.predecessors(&curr);
            let ghost vlen = visited.len();
            let ghost qlen = queue@.len();
            let mut k: usize = 0;
            while k < preds.len()
                invariant
                    k <= preds@.len(),
                    visited.len() >= vlen,
                    queue@.len() <= qlen + (visited.len() - vlen),
                decreases preds.len() - k,
            {
                if !Self::holds_node(&visited, &preds[k]) {
                    visited.push(preds[k].clone());
                    queue.push_back(preds[k].clone());
                }
                k = k + 1;
            }
        }
        exit.clone()
    }

    /// The target facts of the path edges at `node` from `source`, in
    /// order, each a clone.
    fn targets_from(&self, source: &DataFlowFact<P::Fact>, node: &P::Node) -> (out: Vec<DataFlowFact<P::Fact>>)
        ensures
            <P::Node as PartialEqSpec>::obeys_eq_spec() && <P::Fact as PartialEqSpec>::obeys_eq_spec() ==> {
                let m = edges_at(self.path_edges@, *source, *node);
                &&& out@.len() == m.len()
                &&& forall|k: int| 0 <= k < m.len() ==> fact_cloned(#[trigger] m[k].target_fact, out@[k])
            },
    {
        let mut out: Vec<DataFlowFact<P::Fact>> = Vec::new();
        let mut i: usize = 0;
        assert(self.path_edges@.take(0) =~= Seq::<PathEdge<P::Node, P::Fact>>::empty());
        while i < self.path_edges.len()
            invariant
                i <= self.path_edges@.len(),
                <P::Node as PartialEqSpec>::obeys_eq_spec() && <P::Fact as PartialEqSpec>::obeys_eq_spec() ==> {
                    let m = edges_at(self.path_edges@.take(i as int), *source, *node);
                    &&& out@.len() == m.len()
                    &&& forall|k: int| 0 <= k < m.len() ==> fact_cloned(#[trigger] m[k].target_fact, out@[k])
                },
            decreases self.path_edges.len() - i,
        {
            let e = &self.path_edges[i];
            assert(self.path_edges@.take(i + 1int).drop_last() =~= self.path_edges@.take(i as int));
            let ghost before = out@;
            if same_fact(&e.source_fact, source) && e.node == *node {
                out.push(copy_fact(&e.target_fact));
            }
            proof {
                if <P::Node as PartialEqSpec>::obeys_eq_spec() && <P::Fact as PartialEqSpec>::obeys_eq_spec() {
                    let m0 = edges_at(self.path_edges@.take(i as int), *source, *node);
                    let m1 = edges_at(self.path_edges@.take(i + 1int), *source, *node);
                    assert forall|k: int| 0 <= k < m1.len() implies fact_cloned(#[trigger] m1[k].target_fact, out@[k]) by {
                        if k < m0.len() {
                            assert(m1[k] == m0[k]);
                            assert(out@[k] == before[k]);
                        }
                    }
                }
            }
            i = i + 1;
        }
        assert(self.path_edges@.take(self.path_edges@.len() as int) =~= self.path_edges@);
        out
    }
}

} // verus!

verus! {

impl<P: TabulationProblem> IfdsSolver<P> {
    /// Records that the call at `call` with caller fact `d1` returns to
    /// `ret` when the callee is entered at `entry` with fact `d3`: the
    /// caller joins the first record for that entry and fact, unless an
    /// equal caller is there already; without such a record a new one is
    /// added at the end.
    fn record_incoming(&mut self, entry: &P::Node, d3: &DataFlowFact<P::Fact>, call: &P::Node, ret: &P::Node, d1: &DataFlowFact<P::Fact>)
        ensures
            final(self).path_edges == old(self).path_edges,
            final(self).worklist == old(self).worklist,
            final(self).problem == old(self).problem,
            final(self).summary_edges == old(self).summary_edges,
            <P::Node as PartialEqSpec>::obeys_eq_spec() && <P::Fact as PartialEqSpec>::obeys_eq_spec() ==> {
                let inc = old(self).incoming@;
                let out = final(self).incoming@;
                &&& (forall|k: int| 0 <= k < inc.len() ==> !key_match(#[trigger] inc[k], *entry, *d3)) ==> {
                    &&& out.drop_last() == inc
                    &&& out.len() == inc.len() + 1
                    &&& cloned(*entry, out.last().0.0)
                    &&& fact_cloned(*d3, out.last().0.1)
                    &&& out.last().1@.len() == 1
                    &&& caller_cloned(*call, *ret, *d1, out.last().1@[0])
                }
                &&& forall|k: int| 0 <= k < inc.len() && key_match(#[trigger] inc[k], *entry, *d3)
                    && (forall|j: int| 0 <= j < k ==> !key_match(#[trigger] inc[j], *entry, *d3)) ==> {
                    &&& out.len() == inc.len()
                    &&& forall|j: int| 0 <= j < inc.len() && j != k ==> out[j] == inc[j]
                    &&& out[k].0 == inc[k].0
                    &&& (exists|c: int| 0 <= c < inc[k].1@.len() && caller_eq(#[trigger] inc[k].1@[c], *call, *ret, *d1))
                        ==> out[k].1 == inc[k].1
                    &&& !(exists|c: int| 0 <= c < inc[k].1@.len() && caller_eq(#[trigger] inc[k].1@[c], *call, *ret, *d1))
                        ==> out[k].1@.drop_last() == inc[k].1@ && out[k].1@.len() == inc[k].1@.len() + 1
                            && caller_cloned(*call, *ret, *d1, out[k].1@.last())
                }
            },
    {
        let mut i: usize = 0;
        while i < self.incoming.len()
            invariant
                i <= self.incoming@.len(),
                self.path_edges == old(self).path_edges,
                self.worklist == old(self).worklist,
                self.problem == old(self).problem,
                self.summary_edges == old(self).summary_edges,
                self.incoming == old(self).incoming,
                <P::Node as PartialEqSpec>::obeys_eq_spec() && <P::Fact as PartialEqSpec>::obeys_eq_spec() ==>
                    forall|j: int| 0 <= j < i ==> !key_match(#[trigger] self.incoming@[j], *entry, *d3),
            decreases self.incoming.len() - i,
        {
            let key_matches = self.incoming[i].0.0 == *entry && same_fact(&self.incoming[i].0.1, d3);
            if key_matches {
                let mut j: usize = 0;
                let mut present = false;
                while j < self.incoming[i].1.len()
                    invariant
                        i < self.incoming@.len(),
                        j <= self.incoming@[i as int].1@.len(),
                        <P::Node as PartialEqSpec>::obeys_eq_spec() && <P::Fact as PartialEqSpec>::obeys_eq_spec() ==>
                            (present <==> exists|c: int| 0 <= c < j && caller_eq(#[trigger] self.incoming@[i as int].1@[c], *call, *ret, *d1)),
                    decreases self.incoming@[i as int].1@.len() - j,
                {
                    let c = &self.incoming[i].1[j];
                    if c.0 == *call && c.1 == *ret && same_fact(&c.2, d1) {
                        present = true;
                    }
                    j = j + 1;
                }
                if !present {
                    let ghost old_inc = self.incoming@;
                    let mut entry_i = self.incoming.remove(i);
                    let ghost old_callers = entry_i.1@;
                    let caller = (call.clone(), ret.clone(), copy_fact(d1));
                    entry_i.1.push(caller);
                    self.incoming.insert(i, entry_i);
                    assert(entry_i.1@.drop_last() =~= old_callers);
                    assert forall|j: int| 0 <= j < old_inc.len() && j != i implies self.incoming@[j] == old_inc[j] by {
                        if j < i {
                        } else {
                        }
                    }
                }
                return;
            }
            i = i + 1;
        }
        let caller = (call.clone(), ret.clone(), copy_fact(d1));
        let key = (entry.clone(), copy_fact(d3));
        self.incoming.push((key, vec![caller]));
        assert(self.incoming@.drop_last() =~= old(self).incoming@);
    }

    /// The callers recorded at `entry` with entry fact `d1`: clones of the
    /// callers of the first record for them, or none.
    fn callers_at(&self, entry: &P::Node, d1: &DataFlowFact<P::Fact>) -> (out: Vec<(P::Node, P::Node, DataFlowFact<P::Fact>)>)
        ensures
            <P::Node as PartialEqSpec>::obeys_eq_spec() && <P::Fact as PartialEqSpec>::obeys_eq_spec() ==> {
                let inc = self.incoming@;
                &&& (forall|k: int| 0 <= k < inc.len() ==> !key_match(#[trigger] inc[k], *entry, *d1)) ==> out@.len() == 0
                &&& forall|k: int| 0 <= k < inc.len() && key_match(#[trigger] inc[k], *entry, *d1)
                    && (forall|j: int| 0 <= j < k ==> !key_match(#[trigger] inc[j], *entry, *d1)) ==> {
                    &&& out@.len() == inc[k].1@.len()
                    &&& forall|c: int| 0 <= c < out@.len() ==> callers_cloned(#[trigger] inc[k].1@[c], out@[c])
                }
            },
    {
        let mut i: usize = 0;
        while i < self.incoming.len()
            invariant
                i <= self.incoming@.len(),
                <P::Node as PartialEqSpec>::obeys_eq_spec() && <P::Fact as PartialEqSpec>::obeys_eq_spec() ==>
                    forall|j: int| 0 <= j < i ==> !key_match(#[trigger] self.incoming@[j], *entry, *d1),
            decreases self.incoming.len() - i,
        {
            if self.incoming[i].0.0 == *entry && same_fact(&self.incoming[i].0.1, d1) {
                let callers = &self.incoming[i].1;
                let mut out: Vec<(P::Node, P::Node, DataFlowFact<P::Fact>)> = Vec::new();
                let mut j: usize = 0;
                while j < callers.len()
                    invariant
                        j <= callers@.len(),
                        out@.len() == j,
                        forall|c: int| 0 <= c < j ==> callers_cloned(#[trigger] callers@[c], out@[c]),
                    decreases callers.len() - j,
                {
                    out.push((callers[j].0.clone(), callers[j].1.clone(), copy_fact(&callers[j].2)));
                    j = j + 1;
                }
                return out;
            }
            i = i + 1;
        }
        Vec::new()
    }

    /// Records a procedure summary, once: a clone of it is added at the end
    /// unless an equal summary is recorded.
    fn add_summary(&mut self, e_q: &P::Node, d1: &DataFlowFact<P::Fact>, d2: &DataFlowFact<P::Fact>)
        ensures
            final(self).path_edges == old(self).path_edges,
            final(self).worklist == old(self).worklist,
            final(self).problem == old(self).problem,
            final(self).incoming == old(self).incoming,
            <P::Node as PartialEqSpec>::obeys_eq_spec() && <P::Fact as PartialEqSpec>::obeys_eq_spec() ==> {
                let old_s = old(self).summary_edges@;
                let new_s = final(self).summary_edges@;
                &&& (exists|i: int| 0 <= i < old_s.len() && summary_eq(#[trigger] old_s[i], *e_q, *d1, *d2)) ==> new_s == old_s
                &&& !(exists|i: int| 0 <= i < old_s.len() && summary_eq(#[trigger] old_s[i], *e_q, *d1, *d2)) ==> {
                    &&& new_s.drop_last() == old_s
                    &&& new_s.len() == old_s.len() + 1
                    &&& cloned(*e_q, new_s.last().call_site)
                    &&& fact_cloned(*d1, new_s.last().entry_fact)
                    &&& fact_cloned(*d2, new_s.last().exit_fact)
                }
            },
    {
        let mut i: usize = 0;
        while i < self.summary_edges.len()
            invariant
                i <= self.summary_edges@.len(),
                self.summary_edges == old(self).summary_edges,
                <P::Node as PartialEqSpec>::obeys_eq_spec() && <P::Fact as PartialEqSpec>::obeys_eq_spec() ==>
                    forall|j: int| 0 <= j < i ==> !summary_eq(#[trigger] self.summary_edges@[j], *e_q, *d1, *d2),
            decreases self.summary_edges.len() - i,
        {
            let s = &self.summary_edges[i];
            if s.call_site == *e_q && same_fact(&s.entry_fact, d1) && same_fact(&s.exit_fact, d2) {
                return;
            }
            i = i + 1;
        }
        let summary = SummaryEdge { call_site: e_q.clone(), entry_fact: copy_fact(d1), exit_fact: copy_fact(d2) };
        self.summary_edges.push(summary);
        assert(self.summary_edges@.drop_last() =~= old(self).summary_edges@);
    }

    /// Propagates along the normal flow of `u` to each of its successors.
    fn process_normal(&mut self, u: &P::Node, d1: &DataFlowFact<P::Fact>, d2: &DataFlowFact<P::Fact>)
        ensures
            grown(old(self).path_edges@, old(self).worklist.waiting(), final(self).path_edges@, final(self).worklist.waiting()),
            final(self).problem == old(self).problem,
            normal_closed(old(self).problem, final(self).path_edges@, PathEdge { source_fact: *d1, node: *u, target_fact: *d2 }),
    {
        let ghost w = PathEdge { source_fact: *d1, node: *u, target_fact: *d2 };
        let successors = self.problem.successors(u);
        assert(call_ensures(P::successors, (&self.problem, u), successors));
        let mut k: usize = 0;
        proof { lemma_grown_refl(self.path_edges@, self.worklist.waiting()); }
        while k < successors.len()
            invariant
                k <= successors@.len(),
                grown(old(self).path_edges@, old(self).worklist.waiting(), self.path_edges@, self.worklist.waiting()),
                self.problem == old(self).problem,
                w == (PathEdge { source_fact: *d1, node: *u, target_fact: *d2 }),
                forall|j: int| 0 <= j < k ==> flow_reached(old(self).problem, self.path_edges@, w, #[trigger] successors@[j]),
            decreases successors.len() - k,
        {
            let succ = &successors[k];
            let targets = self.problem.normal_flow(u, succ, d2);
            assert(call_ensures(P::normal_flow, (&self.problem, u, succ, d2), targets));
            let ghost mid = self.path_edges@;
            let ghost midq = self.worklist.waiting();
            self.propagate_all(d1, succ, &targets);
            proof { lemma_grown_trans(old(self).path_edges@, old(self).worklist.waiting(), mid, midq, self.path_edges@, self.worklist.waiting()); }
            assert(self.path_edges@.subrange(0, old(self).path_edges@.len() as int) =~= old(self).path_edges@) by {
                assert(self.path_edges@.subrange(0, mid.len() as int) == mid);
                assert(mid.subrange(0, old(self).path_edges@.len() as int) == old(self).path_edges@);
            }
            proof {
                assert forall|j: int| 0 <= j < k + 1 implies flow_reached(old(self).problem, self.path_edges@, w, #[trigger] successors@[j]) by {
                    if j < k {
                        lemma_flow_reached_grown(old(self).problem, mid, self.path_edges@, w, successors@[j]);
                    } else {
                        assert(forall|t: int| 0 <= t < targets@.len() ==> has_edge_for(self.path_edges@, w.source_fact, successors@[j], #[trigger] targets@[t]));
                    }
                }
            }
            k = k + 1;
        }
    }

    /// Handles a path edge at a call site: the bypass to the first return
    /// site, the entry of each callee, and the summaries already found for
    /// the callee's exits.
    fn process_call(&mut self, u: &P::Node, d1: &DataFlowFact<P::Fact>, d2: &DataFlowFact<P::Fact>)
        ensures
            grown(old(self).path_edges@, old(self).worklist.waiting(), final(self).path_edges@, final(self).worklist.waiting()),
            final(self).problem == old(self).problem,
            call_closed(old(self).problem, final(self).path_edges@, PathEdge { source_fact: *d1, node: *u, target_fact: *d2 }),
    {
        let ghost w = PathEdge { source_fact: *d1, node: *u, target_fact: *d2 };
        let successors = self.problem.successors(u);
        assert(call_ensures(P::successors, (&self.problem, u), successors));
        let mut is_entry: Vec<bool> = Vec::new();
        let mut first_ret: Option<usize> = None;
        let mut k: usize = 0;
        while k < successors.len()
            invariant
                k <= successors@.len(),
                is_entry@.len() == k,
                forall|j: int| 0 <= j < k ==> entry_answer(self.problem, #[trigger] successors@[j], is_entry@[j]),
                match first_ret {
                    Some(r) => r < k && !is_entry@[r as int] && forall|i: int| 0 <= i < r ==> is_entry@[i],
                    None => forall|i: int| 0 <= i < k ==> is_entry@[i],
                },
            decreases successors.len() - k,
        {
            let e = self.is_procedure_entry(&successors[k]);
            is_entry.push(e);
            if !e && first_ret.is_none() {
                first_ret = Some(k);
            }
            k = k + 1;
        }
        let ghost flags = is_entry@;
        proof { lemma_grown_refl(self.path_edges@, self.worklist.waiting()); }
        match first_ret {
            Some(r) => {
                let targets = self.problem.call_to_return_flow(u, &successors[r], d2);
                assert(call_ensures(P::call_to_return_flow, (&self.problem, u, &successors@[r as int], d2), targets));
                self.propagate_all(d1, &successors[r], &targets);
                assert(ret_reached(old(self).problem, self.path_edges@, w, successors@[r as int]));
            },
            None => {},
        }
        proof {
            assert forall|j: int| 0 <= j < successors@.len() && !flags[j] && (forall|i: int| 0 <= i < j ==> flags[i])
                implies ret_reached(old(self).problem, self.path_edges@, w, #[trigger] successors@[j]) by {
                if let Some(r) = first_ret {
                    if j != r as int {
                        if j < r { assert(flags[j]); } else { assert(flags[r as int]); }
                    }
                }
            }
        }
        let mut c: usize = 0;
        while c < successors.len()
            invariant
                c <= successors@.len(),
                grown(old(self).path_edges@, old(self).worklist.waiting(), self.path_edges@, self.worklist.waiting()),
                self.problem == old(self).problem,
                flags == is_entry@,
                flags.len() == successors@.len(),
                w == (PathEdge { source_fact: *d1, node: *u, target_fact: *d2 }),
                match first_ret {
                    Some(r) => r < successors@.len(),
                    None => true,
                },
                forall|j: int| 0 <= j < successors@.len() && !flags[j] && (forall|i: int| 0 <= i < j ==> flags[i])
                    ==> ret_reached(old(self).problem, self.path_edges@, w, #[trigger] successors@[j]),
                forall|j: int| 0 <= j < c && flags[j] ==> entry_reached(old(self).problem, self.path_edges@, w, #[trigger] successors@[j]),
            decreases successors.len() - c,
        {
            if is_entry[c] {
                let ghost pc = self.path_edges@;
                let s_q = &successors[c];
                let entry_facts = self.problem.call_flow(u, s_q, d2);
                assert(call_ensures(P::call_flow, (&self.problem, u, s_q, d2), entry_facts));
                let mut f: usize = 0;
                assert(keeps(pc, self.path_edges@)) by {
                    assert(self.path_edges@.subrange(0, pc.len() as int) =~= pc);
                }
                while f < entry_facts.len()
                    invariant
                        f <= entry_facts@.len(),
                        grown(old(self).path_edges@, old(self).worklist.waiting(), self.path_edges@, self.worklist.waiting()),
                        self.problem == old(self).problem,
                        keeps(pc, self.path_edges@),
                        match first_ret {
                            Some(r) => r < successors@.len(),
                            None => true,
                        },
                        forall|t: int| 0 <= t < f ==> has_edge_for(self.path_edges@, entry_facts@[t], *s_q, #[trigger] entry_facts@[t]),
                    decreases entry_facts.len() - f,
                {
                    let d3 = &entry_facts[f];
                    if let Some(r) = first_ret {
                        self.record_incoming(s_q, d3, u, &successors[r], d1);
                    }
                    let ghost m0 = self.path_edges@;
                    let ghost m0q = self.worklist.waiting();
                    let edge = PathEdge { source_fact: copy_fact(d3), node: s_q.clone(), target_fact: copy_fact(d3) };
                    let ghost built = edge;
                    self.propagate(edge);
                    proof {
                        lemma_grown_trans(old(self).path_edges@, old(self).worklist.waiting(), m0, m0q, self.path_edges@, self.worklist.waiting());
                        let wi = choose|wi: int| 0 <= wi < self.path_edges@.len() && #[trigger] stands_for(self.path_edges@[wi], built);
                        assert(built_from(built, *d3, *s_q, *d3));
                        assert(represents(self.path_edges@[wi], *d3, *s_q, *d3));
                        assert(keeps(m0, self.path_edges@));
                        lemma_keeps_trans(pc, m0, self.path_edges@);
                    }
                    let ghost base = self.path_edges@;
                    proof {
                        assert(self.path_edges@.subrange(0, base.len() as int) =~= base);
                    }
                    let exit_nodes = self.find_exit_nodes_of_procedure(s_q);
                    let mut x: usize = 0;
                    while x < exit_nodes.len()
                        invariant
                            x <= exit_nodes@.len(),
                            grown(old(self).path_edges@, old(self).worklist.waiting(), self.path_edges@, self.worklist.waiting()),
                            self.problem == old(self).problem,
                            keeps(base, self.path_edges@),
                            match first_ret {
                                Some(r) => r < successors@.len(),
                                None => true,
                            },
                        decreases exit_nodes.len() - x,
                    {
                        let e_q = &exit_nodes[x];
                        let summaries = self.targets_from(d3, e_q);
                        if let Some(r) = first_ret {
                            let mut y: usize = 0;
                            while y < summaries.len()
                                invariant
                                    y <= summaries@.len(),
                                    r < successors@.len(),
                                    grown(old(self).path_edges@, old(self).worklist.waiting(), self.path_edges@, self.worklist.waiting()),
                                    self.problem == old(self).problem,
                                    keeps(base, self.path_edges@),
                                decreases summaries.len() - y,
                            {
                                let returned = self.problem.return_flow(e_q, &successors[r], d2, &summaries[y]);
                                let ghost m1 = self.path_edges@;
                                let ghost m1q = self.worklist.waiting();
                                self.propagate_all(d1, &successors[r], &returned);
                                proof {
                                    lemma_grown_trans(old(self).path_edges@, old(self).worklist.waiting(), m1, m1q, self.path_edges@, self.worklist.waiting());
                                    lemma_keeps_trans(base, m1, self.path_edges@);
                                }
                                y = y + 1;
                            }
                        }
                        x = x + 1;
                    }
                    proof {
                        lemma_keeps_trans(pc, base, self.path_edges@);
                        lemma_keeps_trans(m0, base, self.path_edges@);
                        assert forall|t: int| 0 <= t < f + 1 implies has_edge_for(self.path_edges@, entry_facts@[t], *s_q, #[trigger] entry_facts@[t]) by {
                            if t < f {
                                lemma_has_edge_grown(m0, self.path_edges@, entry_facts@[t], *s_q, entry_facts@[t]);
                            } else {
                                lemma_has_edge_grown(base, self.path_edges@, entry_facts@[t], *s_q, entry_facts@[t]);
                            }
                        }
                    }
                    f = f + 1;
                }
                proof {
                    assert(entry_reached(old(self).problem, self.path_edges@, w, successors@[c as int]));
                    lemma_call_parts_grown(old(self).problem, pc, self.path_edges@, w, successors@, flags, c as int);
                }
            }
            c = c + 1;
        }
        proof {
            assert(call_parts(old(self).problem, self.path_edges@, w, successors@, flags));
            assert(call_closed(old(self).problem, self.path_edges@, w));
        }
    }

    /// Handles a path edge at an exit: records the summary, then returns
    /// the exit fact to each caller waiting at the procedure's entry.
    fn process_exit(&mut self, e_q: &P::Node, d1: &DataFlowFact<P::Fact>, d2: &DataFlowFact<P::Fact>)
        ensures
            grown(old(self).path_edges@, old(self).worklist.waiting(), final(self).path_edges@, final(self).worklist.waiting()),
            final(self).problem == old(self).problem,
    {
        self.add_summary(e_q, d1, d2);
        let s_q = self.find_entry_node_of_procedure(e_q);
        let callers = self.callers_at(&s_q, d1);
        proof { lemma_grown_refl(self.path_edges@, self.worklist.waiting()); }
        let mut c: usize = 0;
        while c < callers.len()
            invariant
                c <= callers@.len(),
                grown(old(self).path_edges@, old(self).worklist.waiting(), self.path_edges@, self.worklist.waiting()),
                self.problem == old(self).problem,
            decreases callers.len() - c,
        {
            let (call, ret, d3) = (&callers[c].0, &callers[c].1, &callers[c].2);
            let matching = self.targets_from(d3, call);
            let mut y: usize = 0;
            while y < matching.len()
                invariant
                    y <= matching@.len(),
                    grown(old(self).path_edges@, old(self).worklist.waiting(), self.path_edges@, self.worklist.waiting()),
                    self.problem == old(self).problem,
                decreases matching.len() - y,
            {
                let d4 = &matching[y];
                let entered = self.problem.call_flow(call, &s_q, d4);
                let mut reaches = false;
                let mut z: usize = 0;
                while z < entered.len()
                    invariant
                        z <= entered@.len(),
                    decreases entered.len() - z,
                {
                    if same_fact(&entered[z], d1) {
                        reaches = true;
                    }
                    z = z + 1;
                }
                if reaches {
                    let returned = self.problem.return_flow(e_q, ret, d4, d2);
                    let ghost m1 = self.path_edges@;
                    let ghost m1q = self.worklist.waiting();
                    self.propagate_all(d3, ret, &returned);
                    proof { lemma_grown_trans(old(self).path_edges@, old(self).worklist.waiting(), m1, m1q, self.path_edges@, self.worklist.waiting()); }
                    assert(self.path_edges@.subrange(0, old(self).path_edges@.len() as int) =~= old(self).path_edges@) by {
                        assert(self.path_edges@.subrange(0, m1.len() as int) == m1);
                        assert(m1.subrange(0, old(self).path_edges@.len() as int) == old(self).path_edges@);
                    }
                }
                y = y + 1;
            }
            c = c + 1;
        }
    }

    /// Runs the tabulation to its fixpoint: every seed becomes a path edge
    /// from the zero fact, and each queued path edge is processed as a call,
    /// an exit or an ordinary node until no edge is left to process. Path
    /// edges are only ever added; each added one was queued and processed,
    /// and every processed edge is closed: at an ordinary node under the
    /// normal flow to each successor, at a call site under the
    /// call-to-return flow to its first return site and the call flow into
    /// each callee entry.
    pub fn solve(&mut self)
        ensures
            final(self).worklist.waiting().len() == 0,
            final(self).path_edges@.len() >= old(self).path_edges@.len(),
            final(self).path_edges@.subrange(0, old(self).path_edges@.len() as int) == old(self).path_edges@,
            final(self).problem == old(self).problem,
            exists|seeds: Vec<(P::Node, Vec<DataFlowFact<P::Fact>>)>| {
                &&& call_ensures(P::initial_seeds, (&old(self).problem,), seeds)
                &&& forall|i: int, j: int| 0 <= i < seeds@.len() && 0 <= j < seeds@[i].1@.len()
                    ==> seeded(old(self).problem, final(self).path_edges@, seeds@[i].0, #[trigger] seeds@[i].1@[j])
            },
            exists|processed: Seq<PathEdge<P::Node, P::Fact>>|
                #[trigger] solved_from(old(self).problem, old(self).path_edges@, old(self).worklist.waiting(), final(self).path_edges@, processed),
            old(self).path_edges@.len() == 0 && old(self).worklist.waiting().len() == 0 ==> tabulated(old(self).problem, final(self).path_edges@),
    {
        let seeds = self.problem.initial_seeds();
        proof { lemma_grown_refl(self.path_edges@, self.worklist.waiting()); }
        let mut s: usize = 0;
        while s < seeds.len()
            invariant
                s <= seeds@.len(),
                grown(old(self).path_edges@, old(self).worklist.waiting(), self.path_edges@, self.worklist.waiting()),
                self.problem == old(self).problem,
                forall|i: int, j: int| 0 <= i < s && 0 <= j < seeds@[i].1@.len()
                    ==> seeded(old(self).problem, self.path_edges@, seeds@[i].0, #[trigger] seeds@[i].1@[j]),
            decreases seeds.len() - s,
        {
            let zero = self.problem.zero_value();
            let ghost m0 = self.path_edges@;
            let ghost m0q = self.worklist.waiting();
            self.propagate_all(&zero, &seeds[s].0, &seeds[s].1);
            proof { lemma_grown_trans(old(self).path_edges@, old(self).worklist.waiting(), m0, m0q, self.path_edges@, self.worklist.waiting()); }
            assert(self.path_edges@.subrange(0, old(self).path_edges@.len() as int) =~= old(self).path_edges@) by {
                assert(self.path_edges@.subrange(0, m0.len() as int) == m0);
                assert(m0.subrange(0, old(self).path_edges@.len() as int) == old(self).path_edges@);
            }
            proof {
                assert forall|i: int, j: int| 0 <= i < s + 1 && 0 <= j < seeds@[i].1@.len()
                    implies seeded(old(self).problem, self.path_edges@, seeds@[i].0, #[trigger] seeds@[i].1@[j]) by {
                    if i < s {
                        lemma_seeded_grown(old(self).problem, m0, self.path_edges@, seeds@[i].0, seeds@[i].1@[j]);
                    } else {
                        assert(has_edge_for(self.path_edges@, zero, seeds@[i].0, seeds@[i].1@[j]));
                    }
                }
            }
            s = s + 1;
        }
        let ghost after_seeds = self.path_edges@;
        assert(self.path_edges@.subrange(0, after_seeds.len() as int) =~= after_seeds);
        let ghost mut processed: Seq<PathEdge<P::Node, P::Fact>> = Seq::empty();
        assert(processed + self.worklist.waiting() =~= self.worklist.waiting());
        loop
            invariant
                grown(old(self).path_edges@, old(self).worklist.waiting(), self.path_edges@, processed + self.worklist.waiting()),
                forall|i: int| 0 <= i < processed.len() ==> processed_closed(old(self).problem, self.path_edges@, #[trigger] processed[i]),
                self.path_edges@.len() >= old(self).path_edges@.len(),
                self.path_edges@.subrange(0, old(self).path_edges@.len() as int) == old(self).path_edges@,
                self.path_edges@.len() >= after_seeds.len(),
                self.path_edges@.subrange(0, after_seeds.len() as int) == after_seeds,
                self.problem == old(self).problem,
            ensures
                self.worklist.waiting().len() == 0,
                grown(old(self).path_edges@, old(self).worklist.waiting(), self.path_edges@, processed + self.worklist.waiting()),
                forall|i: int| 0 <= i < processed.len() ==> processed_closed(old(self).problem, self.path_edges@, #[trigger] processed[i]),
                self.path_edges@.len() >= old(self).path_edges@.len(),
                self.path_edges@.subrange(0, old(self).path_edges@.len() as int) == old(self).path_edges@,
                self.path_edges@.len() >= after_seeds.len(),
                self.path_edges@.subrange(0, after_seeds.len() as int) == after_seeds,
                self.problem == old(self).problem,
            decreases 2 * (usize::MAX - self.path_edges.len()) + self.worklist.waiting().len(),
        {
            let ghost wait0 = self.worklist.waiting();
            let ghost done0 = processed;
            let edge = match self.worklist.pop() {
                Some(e) => e,
                None => {
                    break;
                },
            };
            proof {
                processed = processed.push(edge);
                assert(processed + self.worklist.waiting() =~= done0 + wait0);
            }
            let ghost m0 = self.path_edges@;
            let ghost m0q = self.worklist.waiting();
            let c = self.problem.is_call_site(&edge.node);
            assert(call_ensures(P::is_call_site, (&self.problem, &edge.node), c));
            if c {
                self.process_call(&edge.node, &edge.source_fact, &edge.target_fact);
            } else {
                let x = self.problem.is_exit_node(&edge.node);
                assert(call_ensures(P::is_exit_node, (&self.problem, &edge.node), x));
                if x {
                    self.process_exit(&edge.node, &edge.source_fact, &edge.target_fact);
                } else {
                    self.process_normal(&edge.node, &edge.source_fact, &edge.target_fact);
                    assert(edge == (PathEdge { source_fact: edge.source_fact, node: edge.node, target_fact: edge.target_fact }));
                }
            }
            proof {
                lemma_grown_front(m0, m0q, self.path_edges@, self.worklist.waiting(), processed);
                lemma_grown_trans(old(self).path_edges@, old(self).worklist.waiting(), m0, processed + m0q, self.path_edges@, processed + self.worklist.waiting());
                assert(processed_closed(old(self).problem, self.path_edges@, edge));
                assert forall|i: int| 0 <= i < processed.len() implies processed_closed(old(self).problem, self.path_edges@, #[trigger] processed[i]) by {
                    if i < done0.len() {
                        assert(processed[i] == done0[i]);
                        lemma_closed_grown(old(self).problem, m0, self.path_edges@, processed[i]);
                    }
                }
            }
            assert(self.path_edges@.subrange(0, old(self).path_edges@.len() as int) =~= old(self).path_edges@) by {
                assert(self.path_edges@.subrange(0, m0.len() as int) == m0);
                assert(m0.subrange(0, old(self).path_edges@.len() as int) == old(self).path_edges@);
            }
            assert(self.path_edges@.subrange(0, after_seeds.len() as int) =~= after_seeds) by {
                assert(self.path_edges@.subrange(0, m0.len() as int) == m0);
                assert(m0.subrange(0, after_seeds.len() as int) == after_seeds);
            }
        }
        proof {
            assert forall|i: int, j: int| 0 <= i < seeds@.len() && 0 <= j < seeds@[i].1@.len()
                implies seeded(old(self).problem, self.path_edges@, seeds@[i].0, #[trigger] seeds@[i].1@[j]) by {
                lemma_seeded_grown(old(self).problem, after_seeds, self.path_edges@, seeds@[i].0, seeds@[i].1@[j]);
            }
            assert(processed + self.worklist.waiting() =~= processed);
            assert(solved_from(old(self).problem, old(self).path_edges@, old(self).worklist.waiting(), self.path_edges@, processed));
            if old(self).path_edges@.len() == 0 && old(self).worklist.waiting().len() == 0 {
                assert(old(self).path_edges@ =~= Seq::<PathEdge<P::Node, P::Fact>>::empty());
                assert(old(self).worklist.waiting() =~= Seq::<PathEdge<P::Node, P::Fact>>::empty());
                assert(solved_from(old(self).problem, Seq::empty(), Seq::empty(), self.path_edges@, processed));
            }
        }
    }
}

} // verus!
