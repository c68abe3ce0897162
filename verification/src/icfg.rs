//! The interprocedural control-flow graph: the control-flow graphs of all
//! methods joined by call, return and call-to-return edges.
use vstd::prelude::*;
use crate::callgraph::{callees_at, CallGraph, CallSiteId};
use crate::cfg::{kind_of, BasicBlock, BlockId, ControlFlowGraph};
use crate::ir::{InstructionId, InstructionKind, Method, MethodId, Program};

verus! {

/// A node of the interprocedural graph.
#[derive(Debug, Clone, Copy, PartialEq, Eq, Hash, Structural)]
pub enum IcfgNode {
    Entry(MethodId),
    Exit(MethodId),
    Instruction(InstructionId),
}

/// How control passes along an interprocedural edge.
#[derive(Debug, Clone, Copy, PartialEq, Eq, Hash, Structural)]
pub enum IcfgEdgeKind {
    Normal,
    Call,
    Return,
    CallToReturn,
    Exception,
}

/// An edge of the interprocedural graph.
#[derive(Debug, Clone, Copy, PartialEq, Eq, Hash, Structural)]
pub struct IcfgEdge {
    pub from: IcfgNode,
    pub to: IcfgNode,
    pub kind: IcfgEdgeKind,
}

impl IcfgEdge {
    /// The edge from the exit of `callee` back to `return_site`.
    pub fn new_return(callee: MethodId, return_site: IcfgNode) -> (r: Self)
        ensures
            r == (IcfgEdge { from: IcfgNode::Exit(callee), to: return_site, kind: IcfgEdgeKind::Return }),
    {
        IcfgEdge { from: IcfgNode::Exit(callee), to: return_site, kind: IcfgEdgeKind::Return }
    }
}

/// The successors of `node` along `edges`, with the kinds of the edges, in
/// edge order.
pub open spec fn succs_along(edges: Seq<IcfgEdge>, node: IcfgNode) -> Seq<(IcfgNode, IcfgEdgeKind)>
    decreases edges.len(),
{
    if edges.len() == 0 {
        Seq::empty()
    } else {
        succs_along(edges.drop_last(), node) + if edges.last().from == node { seq![(edges.last().to, edges.last().kind)] } else { Seq::empty() }
    }
}

/// The predecessors of `node` along `edges`, with the kinds of the edges,
/// in edge order.
pub open spec fn preds_along(edges: Seq<IcfgEdge>, node: IcfgNode) -> Seq<(IcfgNode, IcfgEdgeKind)>
    decreases edges.len(),
{
    if edges.len() == 0 {
        Seq::empty()
    } else {
        preds_along(edges.drop_last(), node) + if edges.last().to == node { seq![(edges.last().from, edges.last().kind)] } else { Seq::empty() }
    }
}

/// The interprocedural graph: its edges in the order they were added.
#[derive(Debug, Clone)]
pub struct InterproceduralFlowGraph {
    pub edges: Vec<IcfgEdge>,
}

impl InterproceduralFlowGraph {
    /// The graph with no edge.
    pub fn new() -> (r: Self)
        ensures
            r.edges@ == Seq::<IcfgEdge>::empty(),
    {
        InterproceduralFlowGraph { edges: Vec::new() }
    }

    /// Adds an edge at the end.
    pub fn add_edge(&mut self, edge: IcfgEdge)
        ensures
            final(self).edges@ == old(self).edges@.push(edge),
    {
        self.edges.push(edge);
    }

    /// The successors of `node`, with the kinds of the edges that lead to
    /// them, in the order the edges were added.
    pub fn successors(&self, node: IcfgNode) -> (r: Vec<(IcfgNode, IcfgEdgeKind)>)
        ensures
            r@ == succs_along(self.edges@, node),
    {
        let mut r: Vec<(IcfgNode, IcfgEdgeKind)> = Vec::new();
        let mut i: usize = 0;
        while i < self.edges.len()
            invariant
                i <= self.edges@.len(),
                r@ == succs_along(self.edges@.take(i as int), node),
            decreases self.edges.len() - i,
        {
            assert(self.edges@.take(i + 1int).drop_last() =~= self.edges@.take(i as int));
            let e = self.edges[i];
            if e.from == node {
                r.push((e.to, e.kind));
            }
            assert(r@ =~= succs_along(self.edges@.take(i + 1int), node));
            i = i + 1;
        }
        assert(self.edges@.take(self.edges@.len() as int) =~= self.edges@);
        r
    }

    /// The predecessors of `node`, with the kinds of the edges that lead
    /// from them, in the order the edges were added.
    pub fn predecessors(&self, node: IcfgNode) -> (r: Vec<(IcfgNode, IcfgEdgeKind)>)
        ensures
            r@ == preds_along(self.edges@, node),
    {
        let mut r: Vec<(IcfgNode, IcfgEdgeKind)> = Vec::new();
        let mut i: usize = 0;
        while i < self.edges.len()
            invariant
                i <= self.edges@.len(),
                r@ == preds_along(self.edges@.take(i as int), node),
            decreases self.edges.len() - i,
        {
            assert(self.edges@.take(i + 1int).drop_last() =~= self.edges@.take(i as int));
            let e = self.edges[i];
            if e.to == node {
                r.push((e.from, e.kind));
            }
            assert(r@ =~= preds_along(self.edges@.take(i + 1int), node));
            i = i + 1;
        }
        assert(self.edges@.take(self.edges@.len() as int) =~= self.edges@);
        r
    }
}

/// The graph of method `m` among `cfgs`; the last one given wins.
pub open spec fn cfg_for(cfgs: Seq<(MethodId, ControlFlowGraph)>, m: MethodId) -> Option<ControlFlowGraph>
    decreases cfgs.len(),
{
    if cfgs.len() == 0 {
        None
    } else if cfgs.last().0 == m {
        Some(cfgs.last().1)
    } else {
        cfg_for(cfgs.drop_last(), m)
    }
}

/// The target of the first edge out of the entry block, if any.
pub open spec fn entry_target(edges: Seq<crate::cfg::CfgEdge>) -> Option<BlockId>
    decreases edges.len(),
{
    if edges.len() == 0 {
        None
    } else if edges[0].from == BlockId(0) {
        Some(edges[0].to)
    } else {
        entry_target(edges.drop_first())
    }
}

/// The first block with identifier `id`, if any.
pub open spec fn block_with_id(blocks: Seq<BasicBlock>, id: BlockId) -> Option<BasicBlock>
    decreases blocks.len(),
{
    if blocks.len() == 0 {
        None
    } else if blocks[0].id == id {
        Some(blocks[0])
    } else {
        block_with_id(blocks.drop_first(), id)
    }
}

/// The edge from the entry of `m` to the first instruction of its first
/// block, when there is one.
pub open spec fn entry_edges(m: MethodId, cfg: ControlFlowGraph) -> Seq<IcfgEdge> {
    match entry_target(cfg.edges@) {
        Some(fb) => match block_with_id(cfg.blocks@, fb) {
            Some(b) => if b.instructions@.len() > 0 {
                seq![IcfgEdge { from: IcfgNode::Entry(m), to: IcfgNode::Instruction(b.instructions@[0]), kind: IcfgEdgeKind::Normal }]
            } else {
                Seq::empty()
            },
            None => Seq::empty(),
        },
        None => Seq::empty(),
    }
}

/// The edges between consecutive instructions of the first `n` of `insts`.
pub open spec fn chain_edges(insts: Seq<InstructionId>, n: nat) -> Seq<IcfgEdge>
    decreases n,
{
    if n <= 1 || n > insts.len() {
        Seq::empty()
    } else {
        chain_edges(insts, (n - 1) as nat) + seq![IcfgEdge {
            from: IcfgNode::Instruction(insts[n - 2]),
            to: IcfgNode::Instruction(insts[n - 1]),
            kind: IcfgEdgeKind::Normal,
        }]
    }
}

/// The edges inside the first `n` blocks, skipping entry and exit.
pub open spec fn intra_edges(blocks: Seq<BasicBlock>, n: nat) -> Seq<IcfgEdge>
    decreases n,
{
    if n == 0 || n > blocks.len() {
        Seq::empty()
    } else {
        let b = blocks[n - 1];
        intra_edges(blocks, (n - 1) as nat) + if b.id.0 == 0 || b.id.0 == 0xffff_ffff {
            Seq::empty()
        } else {
            chain_edges(b.instructions@, b.instructions@.len())
        }
    }
}

/// The edge standing for one block edge of `m`'s graph: last instruction
/// to the exit, or last instruction to first instruction.
pub open spec fn boundary_edge(m: MethodId, blocks: Seq<BasicBlock>, e: crate::cfg::CfgEdge) -> Seq<IcfgEdge> {
    if e.from.0 == 0 || e.to.0 == 0 {
        Seq::empty()
    } else if e.to.0 == 0xffff_ffff {
        match block_with_id(blocks, e.from) {
            Some(fb) => if fb.instructions@.len() > 0 {
                seq![IcfgEdge { from: IcfgNode::Instruction(fb.instructions@.last()), to: IcfgNode::Exit(m), kind: IcfgEdgeKind::Normal }]
            } else {
                Seq::empty()
            },
            None => Seq::empty(),
        }
    } else {
        match (block_with_id(blocks, e.from), block_with_id(blocks, e.to)) {
            (Some(fb), Some(tb)) => if fb.instructions@.len() > 0 && tb.instructions@.len() > 0 {
                seq![IcfgEdge {
                    from: IcfgNode::Instruction(fb.instructions@.last()),
                    to: IcfgNode::Instruction(tb.instructions@[0]),
                    kind: IcfgEdgeKind::Normal,
                }]
            } else {
                Seq::empty()
            },
            _ => Seq::empty(),
        }
    }
}

/// The edges standing for the first `n` block edges of `m`'s graph.
pub open spec fn boundary_edges(m: MethodId, cfg: ControlFlowGraph, n: nat) -> Seq<IcfgEdge>
    decreases n,
{
    if n == 0 || n > cfg.edges@.len() {
        Seq::empty()
    } else {
        boundary_edges(m, cfg, (n - 1) as nat) + boundary_edge(m, cfg.blocks@, cfg.edges@[n - 1])
    }
}

/// The interprocedural edges of the call at position `idx` of `m`'s body:
/// call-to-return to the next instruction (or the exit), then a call edge
/// and a return edge per callee.
pub open spec fn call_site_edges(p: Program, cg: CallGraph, m: Method, idx: int) -> Seq<IcfgEdge> {
    let inst = m.body@[idx];
    match kind_of(p, inst) {
        Some(InstructionKind::Call { .. }) => {
            let site = IcfgNode::Instruction(inst);
            let ret = if idx + 1 < m.body@.len() { IcfgNode::Instruction(m.body@[idx + 1]) } else { IcfgNode::Exit(m.id) };
            seq![IcfgEdge { from: site, to: ret, kind: IcfgEdgeKind::CallToReturn }]
                + callee_edges(site, ret, callees_at(cg.edges@, CallSiteId(inst)), callees_at(cg.edges@, CallSiteId(inst)).len())
        },
        _ => Seq::empty(),
    }
}

/// A call edge and a return edge for each of the first `n` callees.
pub open spec fn callee_edges(site: IcfgNode, ret: IcfgNode, callees: Seq<MethodId>, n: nat) -> Seq<IcfgEdge>
    decreases n,
{
    if n == 0 || n > callees.len() {
        Seq::empty()
    } else {
        callee_edges(site, ret, callees, (n - 1) as nat) + seq![
            IcfgEdge { from: site, to: IcfgNode::Entry(callees[n - 1]), kind: IcfgEdgeKind::Call },
            IcfgEdge { from: IcfgNode::Exit(callees[n - 1]), to: ret, kind: IcfgEdgeKind::Return },
        ]
    }
}

/// The interprocedural edges of the calls among the first `n` instructions
/// of `m`'s body.
pub open spec fn call_edges(p: Program, cg: CallGraph, m: Method, n: nat) -> Seq<IcfgEdge>
    decreases n,
{
    if n == 0 || n > m.body@.len() {
        Seq::empty()
    } else {
        call_edges(p, cg, m, (n - 1) as nat) + call_site_edges(p, cg, m, n - 1)
    }
}

/// All edges contributed by method `m`, when it has a graph.
pub open spec fn method_edges(p: Program, cg: CallGraph, cfgs: Seq<(MethodId, ControlFlowGraph)>, m: Method) -> Seq<IcfgEdge> {
    match cfg_for(cfgs, m.id) {
        Some(cfg) => entry_edges(m.id, cfg) + intra_edges(cfg.blocks@, cfg.blocks@.len())
            + boundary_edges(m.id, cfg, cfg.edges@.len()) + call_edges(p, cg, m, m.body@.len()),
        None => Seq::empty(),
    }
}

/// The edges of the first `n` methods, method by method.
pub open spec fn icfg_edges(p: Program, cg: CallGraph, cfgs: Seq<(MethodId, ControlFlowGraph)>, n: nat) -> Seq<IcfgEdge>
    decreases n,
{
    if n == 0 || n > p.methods@.len() {
        Seq::empty()
    } else {
        icfg_edges(p, cg, cfgs, (n - 1) as nat) + method_edges(p, cg, cfgs, p.methods@[n - 1])
    }
}

} // verus!

verus! {

/// The position of the last graph given for `m`, if any.
fn find_cfg(cfgs: &Vec<(MethodId, ControlFlowGraph)>, m: MethodId) -> (r: Option<usize>)
    ensures
        match r {
            Some(i) => i < cfgs@.len() && cfg_for(cfgs@, m) == Some(cfgs@[i as int].1),
            None => cfg_for(cfgs@, m) is None,
        },
{
    let mut i: usize = cfgs.len();
    assert(cfgs@.take(i as int) =~= cfgs@);
    while i > 0
        invariant
            i <= cfgs@.len(),
            cfg_for(cfgs@, m) == cfg_for(cfgs@.take(i as int), m),
        decreases i,
    {
        assert(cfgs@.take(i as int).drop_last() =~= cfgs@.take(i - 1));
        if cfgs[i - 1].0 == m {
            return Some(i - 1);
        }
        i = i - 1;
    }
    None
}

/// The target of the first edge out of the entry block, if any.
fn find_entry_target(edges: &Vec<crate::cfg::CfgEdge>) -> (r: Option<BlockId>)
    ensures
        r == entry_target(edges@),
{
    let mut i: usize = 0;
    assert(edges@.skip(0) =~= edges@);
    while i < edges.len()
        invariant
            i <= edges@.len(),
            entry_target(edges@) == entry_target(edges@.skip(i as int)),
        decreases edges.len() - i,
    {
        assert(edges@.skip(i as int)[0] == edges@[i as int]);
        assert(edges@.skip(i as int).drop_first() =~= edges@.skip(i + 1int));
        if edges[i].from == BlockId(0) {
            return Some(edges[i].to);
        }
        i = i + 1;
    }
    assert(edges@.skip(i as int) =~= Seq::<crate::cfg::CfgEdge>::empty());
    None
}

/// The position of the first block with identifier `id`, if any.
fn find_block(blocks: &Vec<BasicBlock>, id: BlockId) -> (r: Option<usize>)
    ensures
        match r {
            Some(i) => i < blocks@.len() && block_with_id(blocks@, id) == Some(blocks@[i as int]),
            None => block_with_id(blocks@, id) is None,
        },
{
    let mut i: usize = 0;
    assert(blocks@.skip(0) =~= blocks@);
    while i < blocks.len()
        invariant
            i <= blocks@.len(),
            block_with_id(blocks@, id) == block_with_id(blocks@.skip(i as int), id),
        decreases blocks.len() - i,
    {
        assert(blocks@.skip(i as int)[0] == blocks@[i as int]);
        assert(blocks@.skip(i as int).drop_first() =~= blocks@.skip(i + 1int));
        if blocks[i].id == id {
            return Some(i);
        }
        i = i + 1;
    }
    assert(blocks@.skip(i as int) =~= Seq::<BasicBlock>::empty());
    None
}

/// Adds the entry edge of method `m`.
fn add_entry_edges(icfg: &mut InterproceduralFlowGraph, m: MethodId, cfg: &ControlFlowGraph)
    ensures
        final(icfg).edges@ == old(icfg).edges@ + entry_edges(m, *cfg),
{
    match find_entry_target(&cfg.edges) {
        Some(fb) => match find_block(&cfg.blocks, fb) {
            Some(bi) => {
                let b = &cfg.blocks[bi];
                if b.instructions.len() > 0 {
                    icfg.add_edge(IcfgEdge { from: IcfgNode::Entry(m), to: IcfgNode::Instruction(b.instructions[0]), kind: IcfgEdgeKind::Normal });
                }
            },
            None => {},
        },
        None => {},
    }
    assert(icfg.edges@ =~= old(icfg).edges@ + entry_edges(m, *cfg));
}

/// Adds the edges inside each block of `cfg`.
fn add_intra_edges(icfg: &mut InterproceduralFlowGraph, cfg: &ControlFlowGraph)
    ensures
        final(icfg).edges@ == old(icfg).edges@ + intra_edges(cfg.blocks@, cfg.blocks@.len()),
{
    let mut k: usize = 0;
    while k < cfg.blocks.len()
        invariant
            k <= cfg.blocks@.len(),
            icfg.edges@ == old(icfg).edges@ + intra_edges(cfg.blocks@, k as nat),
        decreases cfg.blocks.len() - k,
    {
        let b = &cfg.blocks[k];
        let ghost before = icfg.edges@;
        if b.id.0 != 0 && b.id.0 != u32::MAX {
            let mut idx: usize = 1;
            while idx < b.instructions.len()
                invariant
                    1 <= idx,
                    idx <= b.instructions@.len() || b.instructions@.len() == 0,
                    icfg.edges@ == before + chain_edges(b.instructions@, idx as nat),
                decreases b.instructions.len() - idx,
            {
                icfg.add_edge(IcfgEdge {
                    from: IcfgNode::Instruction(b.instructions[idx - 1]),
                    to: IcfgNode::Instruction(b.instructions[idx]),
                    kind: IcfgEdgeKind::Normal,
                });
                assert(icfg.edges@ =~= before + chain_edges(b.instructions@, (idx + 1) as nat));
                idx = idx + 1;
            }
            assert(chain_edges(b.instructions@, b.instructions@.len()) == chain_edges(b.instructions@, idx as nat));
        }
        assert(icfg.edges@ =~= old(icfg).edges@ + intra_edges(cfg.blocks@, (k + 1) as nat));
        k = k + 1;
    }
}

/// Adds the edges standing for the block edges of `m`'s graph.
fn add_boundary_edges(icfg: &mut InterproceduralFlowGraph, m: MethodId, cfg: &ControlFlowGraph)
    ensures
        final(icfg).edges@ == old(icfg).edges@ + boundary_edges(m, *cfg, cfg.edges@.len()),
{
    let mut k: usize = 0;
    while k < cfg.edges.len()
        invariant
            k <= cfg.edges@.len(),
            icfg.edges@ == old(icfg).edges@ + boundary_edges(m, *cfg, k as nat),
        decreases cfg.edges.len() - k,
    {
        let e = cfg.edges[k];
        let ghost before = icfg.edges@;
        if e.from.0 != 0 && e.to.0 != 0 {
            if e.to.0 == u32::MAX {
                match find_block(&cfg.blocks, e.from) {
                    Some(fi) => {
                        let fb = &cfg.blocks[fi];
                        if fb.instructions.len() > 0 {
                            icfg.add_edge(IcfgEdge {
                                from: IcfgNode::Instruction(fb.instructions[fb.instructions.len() - 1]),
                                to: IcfgNode::Exit(m),
                                kind: IcfgEdgeKind::Normal,
                            });
                        }
                    },
                    None => {},
                }
            } else {
                match (find_block(&cfg.blocks, e.from), find_block(&cfg.blocks, e.to)) {
                    (Some(fi), Some(ti)) => {
                        let fb = &cfg.blocks[fi];
                        let tb = &cfg.blocks[ti];
                        if fb.instructions.len() > 0 && tb.instructions.len() > 0 {
                            icfg.add_edge(IcfgEdge {
                                from: IcfgNode::Instruction(fb.instructions[fb.instructions.len() - 1]),
                                to: IcfgNode::Instruction(tb.instructions[0]),
                                kind: IcfgEdgeKind::Normal,
                            });
                        }
                    },
                    _ => {},
                }
            }
        }
        assert(icfg.edges@ =~= before + boundary_edge(m, cfg.blocks@, cfg.edges@[k as int]));
        k = k + 1;
    }
}

/// Adds the interprocedural edges of the calls of method `m`.
fn add_call_edges(icfg: &mut InterproceduralFlowGraph, p: &Program, cg: &CallGraph, m: &Method)
    requires
        p.wf(),
    ensures
        final(icfg).edges@ == old(icfg).edges@ + call_edges(*p, *cg, *m, m.body@.len()),
{
    let mut idx: usize = 0;
    while idx < m.body.len()
        invariant
            p.wf(),
            idx <= m.body@.len(),
            icfg.edges@ == old(icfg).edges@ + call_edges(*p, *cg, *m, idx as nat),
        decreases m.body.len() - idx,
    {
        let inst_id = m.body[idx];
        let ghost before = icfg.edges@;
        match p.instruction(inst_id) {
            Some(inst) => match &inst.kind {
                InstructionKind::Call { .. } => {
                    let site = IcfgNode::Instruction(inst_id);
                    let ret = if idx + 1 < m.body.len() { IcfgNode::Instruction(m.body[idx + 1]) } else { IcfgNode::Exit(m.id) };
                    icfg.add_edge(IcfgEdge { from: site, to: ret, kind: IcfgEdgeKind::CallToReturn });
                    let callees = cg.callsite_to_callees(CallSiteId(inst_id));
                    let ghost mid = icfg.edges@;
                    let mut t: usize = 0;
                    while t < callees.len()
                        invariant
                            t <= callees@.len(),
                            icfg.edges@ == mid + callee_edges(site, ret, callees@, t as nat),
                        decreases callees.len() - t,
                    {
                        icfg.add_edge(IcfgEdge { from: site, to: IcfgNode::Entry(callees[t]), kind: IcfgEdgeKind::Call });
                        icfg.add_edge(IcfgEdge::new_return(callees[t], ret));
                        assert(icfg.edges@ =~= mid + callee_edges(site, ret, callees@, (t + 1) as nat));
                        t = t + 1;
                    }
                },
                _ => {},
            },
            None => {},
        }
        assert(icfg.edges@ =~= before + call_site_edges(*p, *cg, *m, idx as int));
        assert(icfg.edges@ =~= old(icfg).edges@ + call_edges(*p, *cg, *m, (idx + 1) as nat));
        idx = idx + 1;
    }
}

/// Builds the interprocedural graph of a program from its call graph and
/// the control-flow graphs of its methods.
pub struct IcfgBuilder<'a> {
    program: &'a Program,
    call_graph: &'a CallGraph,
    cfgs: &'a Vec<(MethodId, ControlFlowGraph)>,
}

impl<'a> IcfgBuilder<'a> {
    /// The program whose methods are joined.
    pub closed spec fn prog(&self) -> Program {
        *self.program
    }

    /// The call graph that gives the callees.
    pub closed spec fn calls(&self) -> CallGraph {
        *self.call_graph
    }

    /// The control-flow graphs, by method.
    pub closed spec fn graphs(&self) -> Seq<(MethodId, ControlFlowGraph)> {
        self.cfgs@
    }

    /// A builder over a program, its call graph and its methods' graphs.
    pub fn new(program: &'a Program, call_graph: &'a CallGraph, cfgs: &'a Vec<(MethodId, ControlFlowGraph)>) -> (r: Self)
        ensures
            r.prog() == *program,
            r.calls() == *call_graph,
            r.graphs() == cfgs@,
    {
        IcfgBuilder { program, call_graph, cfgs }
    }

    /// The interprocedural graph: for each method with a graph, in
    /// identifier order, the entry edge, the edges inside blocks, the edges
    /// between blocks and to the exit, then the edges of its calls.
    pub fn build(&self) -> (r: InterproceduralFlowGraph)
        requires
            self.prog().wf(),
        ensures
            r.edges@ == icfg_edges(self.prog(), self.calls(), self.graphs(), self.prog().methods@.len()),
    {
        let p = self.program;
        let mut icfg = InterproceduralFlowGraph::new();
        let mut i: usize = 0;
        while i < p.methods.len()
            invariant
                p.wf(),
                *p == self.prog(),
                i <= p.methods@.len(),
                icfg.edges@ == icfg_edges(*p, self.calls(), self.graphs(), i as nat),
            decreases p.methods.len() - i,
        {
            let m = &p.methods[i];
            let ghost before = icfg.edges@;
            match find_cfg(self.cfgs, m.id) {
                Some(ci) => {
                    let cfg = &self.cfgs[ci].1;
                    add_entry_edges(&mut icfg, m.id, cfg);
                    add_intra_edges(&mut icfg, cfg);
                    add_boundary_edges(&mut icfg, m.id, cfg);
                    add_call_edges(&mut icfg, p, self.call_graph, m);
                    assert(icfg.edges@ =~= before + method_edges(*p, self.calls(), self.graphs(), *m));
                },
                None => {},
            }
            i = i + 1;
        }
        icfg
    }
}

} // verus!
