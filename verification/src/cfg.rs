//! Control-flow graphs of instruction sequences: basic blocks split at
//! leaders, and the edges between them.
use vstd::prelude::*;
use crate::ir::{InstructionId, InstructionKind, Label, Program};

verus! {

/// The identifier of a basic block.
#[derive(Debug, Clone, Copy, PartialEq, Eq, Hash, Structural)]
pub struct BlockId(pub u32);

/// How control passes along an edge.
#[derive(Debug, Clone, Copy, PartialEq, Eq, Hash, Structural)]
pub enum EdgeKind {
    Fallthrough,
    BranchTrue,
    BranchFalse,
    Unconditional,
    LoopBack,
    Exception,
}

/// An edge between two blocks.
#[derive(Debug, Clone, Copy, PartialEq, Eq, Structural)]
pub struct CfgEdge {
    pub from: BlockId,
    pub to: BlockId,
    pub kind: EdgeKind,
}

/// A maximal run of instructions entered only at its first one.
#[derive(Debug, Clone)]
pub struct BasicBlock {
    pub id: BlockId,
    pub instructions: Vec<InstructionId>,
}

/// A control-flow graph: its blocks, its edges, and the identifiers of its
/// empty entry and exit blocks.
#[derive(Debug, Clone)]
pub struct ControlFlowGraph {
    pub blocks: Vec<BasicBlock>,
    pub edges: Vec<CfgEdge>,
    pub entry: BlockId,
    pub exit: BlockId,
}

/// The identifier of the entry block.
pub open spec fn entry_block() -> BlockId {
    BlockId(0)
}

/// The identifier of the exit block.
pub open spec fn exit_block() -> BlockId {
    BlockId(0xffff_ffff)
}

/// The kind of the instruction with identifier `id`, if the program has it.
pub open spec fn kind_of(p: Program, id: InstructionId) -> Option<InstructionKind> {
    match p.instruction_index(id) {
        Some(k) => Some(p.instructions@[k].kind),
        None => None,
    }
}

/// Whether an instruction of this kind ends a block: a branch, a jump or a
/// return.
pub open spec fn ends_block(k: Option<InstructionKind>) -> bool {
    match k {
        Some(InstructionKind::Branch { .. }) => true,
        Some(InstructionKind::Jump { .. }) => true,
        Some(InstructionKind::Return { .. }) => true,
        _ => false,
    }
}

/// The label that an instruction of this kind places, if it is a label.
pub open spec fn label_of(k: Option<InstructionKind>) -> Option<Label> {
    match k {
        Some(InstructionKind::Label(l)) => Some(l),
        _ => None,
    }
}

/// Whether position `i` starts a block: the first position, one after a
/// branch, jump or return, or a label.
pub open spec fn is_leader(p: Program, insts: Seq<InstructionId>, i: int) -> bool {
    ||| i == 0
    ||| (0 < i && ends_block(kind_of(p, insts[i - 1])))
    ||| label_of(kind_of(p, insts[i])) is Some
}

/// The leaders among the first `n` positions, in increasing order.
pub open spec fn leaders_upto(p: Program, insts: Seq<InstructionId>, n: nat) -> Seq<usize>
    decreases n,
{
    if n == 0 {
        Seq::empty()
    } else if is_leader(p, insts, n - 1) {
        leaders_upto(p, insts, (n - 1) as nat).push((n - 1) as usize)
    } else {
        leaders_upto(p, insts, (n - 1) as nat)
    }
}

/// The leaders of `insts`, in increasing order.
pub open spec fn leaders(p: Program, insts: Seq<InstructionId>) -> Seq<usize> {
    leaders_upto(p, insts, insts.len())
}

/// Where block `j` ends: at the next leader, or at the end.
pub open spec fn block_end(ls: Seq<usize>, j: int, len: nat) -> int {
    if j + 1 < ls.len() {
        ls[j + 1] as int
    } else {
        len as int
    }
}

/// Whether every block of `insts` ends with an instruction the program has.
pub open spec fn block_ends_known(p: Program, insts: Seq<InstructionId>) -> bool {
    forall|i: int| 0 <= i < insts.len() && (i + 1 == insts.len() || is_leader(p, insts, i + 1))
        ==> kind_of(p, #[trigger] insts[i]) is Some
}

/// The label placed at the start of each block that starts with one, with
/// that block's identifier, for the first `m` blocks; `first` numbers block 0.
pub open spec fn block_labels(p: Program, insts: Seq<InstructionId>, ls: Seq<usize>, first: nat, m: nat) -> Seq<(Label, u32)>
    decreases m,
{
    if m == 0 {
        Seq::empty()
    } else {
        let rest = block_labels(p, insts, ls, first, (m - 1) as nat);
        match label_of(kind_of(p, insts[ls[m - 1] as int])) {
            Some(l) => rest.push((l, (first + m - 1) as u32)),
            None => rest,
        }
    }
}

/// The block of the last entry for `lbl`, if any.
pub open spec fn find_label(entries: Seq<(Label, u32)>, lbl: Label) -> Option<u32>
    decreases entries.len(),
{
    if entries.len() == 0 {
        None
    } else if entries.last().0 == lbl {
        Some(entries.last().1)
    } else {
        find_label(entries.drop_last(), lbl)
    }
}

/// The edges out of block `j` of `n`, numbered from `first`, given where
/// each label leads.
pub open spec fn block_edges(
    p: Program,
    insts: Seq<InstructionId>,
    ls: Seq<usize>,
    first: nat,
    labels: Seq<(Label, u32)>,
    j: int,
) -> Seq<CfgEdge> {
    let n = ls.len();
    let b = BlockId((first + j) as u32);
    let last = insts[block_end(ls, j, insts.len()) - 1];
    let next = BlockId((first + j + 1) as u32);
    match kind_of(p, last) {
        Some(InstructionKind::Jump { target }) => match find_label(labels, target) {
            Some(t) => seq![CfgEdge { from: b, to: BlockId(t), kind: if t <= b.0 { EdgeKind::LoopBack } else { EdgeKind::Unconditional } }],
            None => Seq::empty(),
        },
        Some(InstructionKind::Branch { target, .. }) =>
            (match find_label(labels, target) {
                Some(t) => seq![CfgEdge { from: b, to: BlockId(t), kind: EdgeKind::BranchTrue }],
                None => Seq::empty(),
            }) + (if j + 1 < n { seq![CfgEdge { from: b, to: next, kind: EdgeKind::BranchFalse }] } else { Seq::empty() }),
        Some(InstructionKind::Return { .. }) => seq![CfgEdge { from: b, to: exit_block(), kind: EdgeKind::Fallthrough }],
        _ => if j + 1 < n {
            seq![CfgEdge { from: b, to: next, kind: EdgeKind::Fallthrough }]
        } else {
            seq![CfgEdge { from: b, to: exit_block(), kind: EdgeKind::Fallthrough }]
        },
    }
}

/// The edges out of the first `m` blocks, block by block.
pub open spec fn edges_upto(
    p: Program,
    insts: Seq<InstructionId>,
    ls: Seq<usize>,
    first: nat,
    labels: Seq<(Label, u32)>,
    m: nat,
) -> Seq<CfgEdge>
    decreases m,
{
    if m == 0 {
        Seq::empty()
    } else {
        edges_upto(p, insts, ls, first, labels, (m - 1) as nat) + block_edges(p, insts, ls, first, labels, m - 1)
    }
}

/// The edges of the graph of `insts` whose blocks are numbered from `first`:
/// entry to exit for an empty body; otherwise entry to the first block,
/// then the edges out of each block.
pub open spec fn cfg_edges(p: Program, insts: Seq<InstructionId>, first: nat) -> Seq<CfgEdge> {
    let ls = leaders(p, insts);
    if insts.len() == 0 {
        seq![CfgEdge { from: entry_block(), to: exit_block(), kind: EdgeKind::Fallthrough }]
    } else {
        seq![CfgEdge { from: entry_block(), to: BlockId(first as u32), kind: EdgeKind::Fallthrough }]
            + edges_upto(p, insts, ls, first, block_labels(p, insts, ls, first, ls.len()), ls.len())
    }
}

/// What the leaders of the first `n` positions are like: increasing,
/// below `n`, leaders, and starting with 0.
pub(crate) proof fn lemma_leaders(p: Program, insts: Seq<InstructionId>, n: nat)
    requires
        n <= insts.len(),
        insts.len() <= usize::MAX,
    ensures
        leaders_upto(p, insts, n).len() <= n,
        forall|k: int| 0 <= k < leaders_upto(p, insts, n).len() ==> (#[trigger] leaders_upto(p, insts, n)[k]) < n,
        forall|k: int| 0 <= k < leaders_upto(p, insts, n).len() ==> is_leader(p, insts, #[trigger] leaders_upto(p, insts, n)[k] as int),
        forall|a: int, b: int| 0 <= a < b < leaders_upto(p, insts, n).len() ==>
            (#[trigger] leaders_upto(p, insts, n)[a]) < (#[trigger] leaders_upto(p, insts, n)[b]),
        n > 0 ==> leaders_upto(p, insts, n).len() > 0 && leaders_upto(p, insts, n)[0] == 0,
        forall|i: int| 0 <= i < n && is_leader(p, insts, i) ==> leaders_upto(p, insts, n).contains(i as usize),
    decreases n,
{
    if n > 0 {
        lemma_leaders(p, insts, (n - 1) as nat);
        let prev = leaders_upto(p, insts, (n - 1) as nat);
        if is_leader(p, insts, n - 1) {
            let cur = prev.push((n - 1) as usize);
            assert forall|k: int| 0 <= k < cur.len() implies is_leader(p, insts, #[trigger] cur[k] as int) by {
                if k < prev.len() {
                    assert(cur[k] == prev[k]);
                }
            }
            assert forall|a: int, b: int| 0 <= a < b < cur.len() implies (#[trigger] cur[a]) < (#[trigger] cur[b]) by {
                assert(cur[a] == prev[a]);
                if b < prev.len() {
                    assert(cur[b] == prev[b]);
                }
            }
            assert forall|i: int| 0 <= i < n && is_leader(p, insts, i) implies cur.contains(i as usize) by {
                if i < n - 1 {
                    let k = choose|k: int| 0 <= k < prev.len() && prev[k] == i as usize;
                    assert(cur[k] == i as usize);
                } else {
                    assert(cur[prev.len() as int] == i as usize);
                }
            }
        }
        if n == 1 {
            assert(is_leader(p, insts, 0));
        }
    }
}

} // verus!

verus! {

/// The kind of the instruction with identifier `id`, if the program has it.
fn kind_at<'b>(p: &'b Program, id: InstructionId) -> (r: Option<&'b InstructionKind>)
    requires
        p.wf(),
    ensures
        match r {
            Some(k) => kind_of(*p, id) == Some(*k),
            None => kind_of(*p, id) is None,
        },
{
    match p.instruction(id) {
        Some(inst) => Some(&inst.kind),
        None => None,
    }
}

/// Whether the instruction `id` ends a block.
fn ends_block_at(p: &Program, id: InstructionId) -> (r: bool)
    requires
        p.wf(),
    ensures
        r == ends_block(kind_of(*p, id)),
{
    match kind_at(p, id) {
        Some(InstructionKind::Branch { .. }) => true,
        Some(InstructionKind::Jump { .. }) => true,
        Some(InstructionKind::Return { .. }) => true,
        _ => false,
    }
}

/// The label that the instruction `id` places, if it is a label.
fn label_at(p: &Program, id: InstructionId) -> (r: Option<Label>)
    requires
        p.wf(),
    ensures
        r == label_of(kind_of(*p, id)),
{
    match kind_at(p, id) {
        Some(InstructionKind::Label(l)) => Some(*l),
        _ => None,
    }
}

/// The block of the last entry for `lbl`, if any.
fn lookup_label(entries: &Vec<(Label, u32)>, lbl: Label) -> (r: Option<u32>)
    ensures
        r == find_label(entries@, lbl),
{
    let mut i: usize = entries.len();
    assert(entries@.take(i as int) =~= entries@);
    while i > 0
        invariant
            i <= entries@.len(),
            find_label(entries@, lbl) == find_label(entries@.take(i as int), lbl),
        decreases i,
    {
        let e = entries[i - 1];
        assert(entries@.take(i as int).drop_last() =~= entries@.take(i - 1));
        if e.0 == lbl {
            return Some(e.1);
        }
        i = i - 1;
    }
    None
}

/// The positions `start..end` of `insts`.
fn copy_range(insts: &[InstructionId], start: usize, end: usize) -> (r: Vec<InstructionId>)
    requires
        start <= end <= insts@.len(),
    ensures
        r@ == insts@.subrange(start as int, end as int),
{
    let mut r: Vec<InstructionId> = Vec::new();
    let mut t: usize = start;
    while t < end
        invariant
            start <= t <= end,
            end <= insts@.len(),
            r@ == insts@.subrange(start as int, t as int),
        decreases end - t,
    {
        r.push(insts[t]);
        assert(insts@.subrange(start as int, t + 1int) =~= insts@.subrange(start as int, t as int).push(insts@[t as int]));
        t = t + 1;
    }
    r
}

/// The edges out of block `j`.
fn edges_of_block(p: &Program, insts: &[InstructionId], ls: &Vec<usize>, first: u32, labels: &Vec<(Label, u32)>, j: usize) -> (r: Vec<CfgEdge>)
    requires
        p.wf(),
        j < ls@.len(),
        insts@.len() > 0,
        first + ls@.len() <= u32::MAX,
        block_ends_known(*p, insts@),
        forall|a: int| 0 <= a < ls@.len() ==> (#[trigger] ls@[a]) < insts@.len(),
        forall|a: int, b: int| 0 <= a < b < ls@.len() ==> (#[trigger] ls@[a]) < (#[trigger] ls@[b]),
        forall|a: int| 0 <= a < ls@.len() ==> is_leader(*p, insts@, #[trigger] ls@[a] as int),
    ensures
        r@ == block_edges(*p, insts@, ls@, first as nat, labels@, j as int),
{
    let n = ls.len();
    let len = insts.len();
    let end = if j + 1 < n { ls[j + 1] } else { len };
    assert(ls@[j as int] < end);
    let last = insts[end - 1];
    proof {
        if j + 1 < n {
            assert(is_leader(*p, insts@, ls@[j + 1] as int));
        }
        assert(kind_of(*p, insts@[end - 1]) is Some);
    }
    let b = BlockId(first + j as u32);
    let mut r: Vec<CfgEdge> = Vec::new();
    match kind_at(p, last) {
        Some(InstructionKind::Jump { target }) => {
            match lookup_label(labels, *target) {
                Some(t) => {
                    let kind = if t <= b.0 { EdgeKind::LoopBack } else { EdgeKind::Unconditional };
                    r.push(CfgEdge { from: b, to: BlockId(t), kind });
                },
                None => {},
            }
        },
        Some(InstructionKind::Branch { target, .. }) => {
            match lookup_label(labels, *target) {
                Some(t) => {
                    r.push(CfgEdge { from: b, to: BlockId(t), kind: EdgeKind::BranchTrue });
                },
                None => {},
            }
            if j + 1 < n {
                r.push(CfgEdge { from: b, to: BlockId(first + j as u32 + 1), kind: EdgeKind::BranchFalse });
            }
        },
        Some(InstructionKind::Return { .. }) => {
            r.push(CfgEdge { from: b, to: BlockId(u32::MAX), kind: EdgeKind::Fallthrough });
        },
        _ => {
            if j + 1 < n {
                r.push(CfgEdge { from: b, to: BlockId(first + j as u32 + 1), kind: EdgeKind::Fallthrough });
            } else {
                r.push(CfgEdge { from: b, to: BlockId(u32::MAX), kind: EdgeKind::Fallthrough });
            }
        },
    }
    assert(r@ =~= block_edges(*p, insts@, ls@, first as nat, labels@, j as int));
    r
}

/// Builds control-flow graphs over one program, numbering blocks across
/// the graphs it builds.
pub struct CfgBuilder<'a> {
    program: &'a Program,
    next_block_id: u32,
}

impl<'a> CfgBuilder<'a> {
    /// The program whose instructions are read.
    pub closed spec fn prog(&self) -> Program {
        *self.program
    }

    /// The identifier the next block will get.
    pub closed spec fn next_id(&self) -> u32 {
        self.next_block_id
    }

    /// A builder over `program`; blocks are numbered from 1.
    pub fn new(program: &'a Program) -> (r: Self)
        ensures
            r.prog() == *program,
            r.next_id() == 1,
    {
        CfgBuilder { program, next_block_id: 1 }
    }

    /// The identifier the next block will get.
    pub fn next_block(&self) -> (r: u32)
        ensures
            r == self.next_id(),
    {
        self.next_block_id
    }

    fn next_block_id(&mut self) -> (r: BlockId)
        requires
            old(self).next_id() < u32::MAX,
        ensures
            r.0 == old(self).next_id(),
            final(self).next_id() == old(self).next_id() + 1,
            final(self).prog() == old(self).prog(),
    {
        let id = self.next_block_id;
        self.next_block_id = self.next_block_id + 1;
        BlockId(id)
    }

    /// The control-flow graph of `insts`. Blocks start at the leaders; each
    /// gets the next identifier. The graph holds the empty entry and exit
    /// blocks first, then the blocks in order, and the edges of
    /// `cfg_edges`.
    pub fn build(&mut self, insts: &[InstructionId]) -> (cfg: ControlFlowGraph)
        requires
            old(self).prog().wf(),
            block_ends_known(old(self).prog(), insts@),
            old(self).next_id() + leaders(old(self).prog(), insts@).len() <= u32::MAX,
        ensures
            final(self).prog() == old(self).prog(),
            final(self).next_id() == old(self).next_id() + leaders(old(self).prog(), insts@).len(),
            cfg.entry == entry_block(),
            cfg.exit == exit_block(),
            cfg.edges@ == cfg_edges(old(self).prog(), insts@, old(self).next_id() as nat),
            cfg.blocks@.len() == 2 + leaders(old(self).prog(), insts@).len(),
            cfg.blocks@[0].id == entry_block(),
            cfg.blocks@[0].instructions@ == Seq::<InstructionId>::empty(),
            cfg.blocks@[1].id == exit_block(),
            cfg.blocks@[1].instructions@ == Seq::<InstructionId>::empty(),
            forall|j: int| 0 <= j < leaders(old(self).prog(), insts@).len() ==> {
                let ls = leaders(old(self).prog(), insts@);
                &&& (#[trigger] cfg.blocks@[2 + j]).id == BlockId((old(self).next_id() + j) as u32)
                &&& cfg.blocks@[2 + j].instructions@ == insts@.subrange(ls[j] as int, block_end(ls, j, insts@.len()))
            },
    {
        let p: &Program = self.program;
        let ghost pv = *p;
        let len = insts.len();
        let entry_id = BlockId(0);
        let exit_id = BlockId(u32::MAX);
        let mut blocks: Vec<BasicBlock> = Vec::new();
        blocks.push(BasicBlock { id: entry_id, instructions: Vec::new() });
        blocks.push(BasicBlock { id: exit_id, instructions: Vec::new() });
        let mut edges: Vec<CfgEdge> = Vec::new();
        if len == 0 {
            edges.push(CfgEdge { from: entry_id, to: exit_id, kind: EdgeKind::Fallthrough });
            assert(edges@ =~= cfg_edges(pv, insts@, self.next_block_id as nat));
            return ControlFlowGraph { blocks, edges, entry: entry_id, exit: exit_id };
        }

        // 1. The leaders, in increasing order.
        let mut ls: Vec<usize> = Vec::new();
        let mut i: usize = 0;
        while i < len
            invariant
                i <= len,
                len == insts@.len(),
                pv == *p,
                pv.wf(),
                ls@ == leaders_upto(pv, insts@, i as nat),
            decreases len - i,
        {
            let lead = i == 0 || ends_block_at(p, insts[i - 1]) || label_at(p, insts[i]).is_some();
            if lead {
                ls.push(i);
            }
            i = i + 1;
        }
        proof {
            lemma_leaders(pv, insts@, len as nat);
        }
        let ghost lsv = ls@;
        let n = ls.len();

        // 2. One block per leader, and the label that starts it, if any.
        let first = self.next_block_id;
        let mut labels: Vec<(Label, u32)> = Vec::new();
        let mut j: usize = 0;
        while j < n
            invariant
                j <= n,
                n == lsv.len(),
                ls@ == lsv,
                lsv == leaders(pv, insts@),
                len == insts@.len(),
                pv == *p,
                pv.wf(),
                self.prog() == pv,
                first + n <= u32::MAX,
                self.next_id() == first + j,
                labels@ == block_labels(pv, insts@, lsv, first as nat, j as nat),
                blocks@.len() == 2 + j,
                blocks@[0].id == entry_block(),
                blocks@[0].instructions@ == Seq::<InstructionId>::empty(),
                blocks@[1].id == exit_block(),
                blocks@[1].instructions@ == Seq::<InstructionId>::empty(),
                forall|a: int| 0 <= a < lsv.len() ==> (#[trigger] lsv[a]) < len,
                forall|a: int, b: int| 0 <= a < b < lsv.len() ==> (#[trigger] lsv[a]) < (#[trigger] lsv[b]),
                forall|k: int| 0 <= k < j ==> {
                    &&& (#[trigger] blocks@[2 + k]).id == BlockId((first + k) as u32)
                    &&& blocks@[2 + k].instructions@ == insts@.subrange(lsv[k] as int, block_end(lsv, k, insts@.len()))
                },
            decreases n - j,
        {
            let start = ls[j];
            let end = if j + 1 < n { ls[j + 1] } else { len };
            let block_insts = copy_range(insts, start, end);
            let b_id = self.next_block_id();
            match label_at(p, insts[start]) {
                Some(l) => {
                    labels.push((l, b_id.0));
                },
                None => {},
            }
            blocks.push(BasicBlock { id: b_id, instructions: block_insts });
            j = j + 1;
        }
        let ghost lbv = labels@;
        assert(lbv == block_labels(pv, insts@, lsv, first as nat, n as nat));

        // 3. The edges: entry to the first block, then out of each block.
        edges.push(CfgEdge { from: entry_id, to: BlockId(first), kind: EdgeKind::Fallthrough });
        let mut j: usize = 0;
        while j < n
            invariant
                j <= n,
                n == lsv.len(),
                ls@ == lsv,
                labels@ == lbv,
                lsv == leaders(pv, insts@),
                len == insts@.len(),
                len > 0,
                pv == *p,
                pv.wf(),
                first + n <= u32::MAX,
                block_ends_known(pv, insts@),
                forall|a: int| 0 <= a < lsv.len() ==> (#[trigger] lsv[a]) < len,
                forall|a: int, b: int| 0 <= a < b < lsv.len() ==> (#[trigger] lsv[a]) < (#[trigger] lsv[b]),
                forall|a: int| 0 <= a < lsv.len() ==> is_leader(pv, insts@, #[trigger] lsv[a] as int),
                edges@ == seq![CfgEdge { from: entry_block(), to: BlockId(first), kind: EdgeKind::Fallthrough }]
                    + edges_upto(pv, insts@, lsv, first as nat, lbv, j as nat),
            decreases n - j,
        {
            let mut be = edges_of_block(p, insts, &ls, first, &labels, j);
            proof {
                assert(lsv.len() == n);
            }
            let ghost before = edges@;
            edges.append(&mut be);
            assert(edges@ =~= before + block_edges(pv, insts@, lsv, first as nat, lbv, j as int));
            j = j + 1;
        }
        ControlFlowGraph { blocks, edges, entry: entry_id, exit: exit_id }
    }
}

} // verus!

verus! {

/// Whether `b` is a block of a graph whose `n` blocks are numbered from
/// `first`, beside entry and exit.
pub open spec fn is_graph_block(first: nat, n: nat, b: BlockId) -> bool {
    b == entry_block() || b == exit_block() || (first <= b.0 && b.0 < first + n)
}

proof fn lemma_block_labels_in_range(p: Program, insts: Seq<InstructionId>, ls: Seq<usize>, first: nat, m: nat, lbl: Label)
    requires
        first + m <= u32::MAX,
    ensures
        find_label(block_labels(p, insts, ls, first, m), lbl) matches Some(t) ==> first <= t && t < first + m,
    decreases m,
{
    if m > 0 {
        lemma_block_labels_in_range(p, insts, ls, first, (m - 1) as nat, lbl);
        let rest = block_labels(p, insts, ls, first, (m - 1) as nat);
        match label_of(kind_of(p, insts[ls[m - 1] as int])) {
            Some(l) => {
                assert(rest.push((l, (first + m - 1) as u32)).drop_last() =~= rest);
            },
            None => {},
        }
    }
}

proof fn lemma_edges_upto_in_range(p: Program, insts: Seq<InstructionId>, ls: Seq<usize>, first: nat, m: nat)
    requires
        first + ls.len() <= u32::MAX,
        m <= ls.len(),
    ensures
        forall|k: int| 0 <= k < edges_upto(p, insts, ls, first, block_labels(p, insts, ls, first, ls.len()), m).len() ==> {
            let e = #[trigger] edges_upto(p, insts, ls, first, block_labels(p, insts, ls, first, ls.len()), m)[k];
            is_graph_block(first, ls.len(), e.from) && is_graph_block(first, ls.len(), e.to)
        },
    decreases m,
{
    if m > 0 {
        let labels = block_labels(p, insts, ls, first, ls.len());
        lemma_edges_upto_in_range(p, insts, ls, first, (m - 1) as nat);
        let j = m - 1;
        let last = insts[block_end(ls, j, insts.len()) - 1];
        match kind_of(p, last) {
            Some(InstructionKind::Jump { target }) => {
                lemma_block_labels_in_range(p, insts, ls, first, ls.len(), target);
            },
            Some(InstructionKind::Branch { target, .. }) => {
                lemma_block_labels_in_range(p, insts, ls, first, ls.len(), target);
            },
            _ => {},
        }
        let prev = edges_upto(p, insts, ls, first, labels, (m - 1) as nat);
        let be = block_edges(p, insts, ls, first, labels, j);
        assert forall|k: int| 0 <= k < (prev + be).len() implies
            is_graph_block(first, ls.len(), (#[trigger] (prev + be)[k]).from) && is_graph_block(first, ls.len(), (prev + be)[k].to) by {
            if k < prev.len() {
                assert((prev + be)[k] == prev[k]);
            } else {
                assert((prev + be)[k] == be[k - prev.len()]);
            }
        }
    }
}

/// Every edge of a control-flow graph joins two of its blocks: entry,
/// exit, or one of the blocks numbered from `first`.
pub proof fn law_edges_join_blocks(p: Program, insts: Seq<InstructionId>, first: nat)
    requires
        first + leaders(p, insts).len() <= u32::MAX,
    ensures
        forall|k: int| 0 <= k < cfg_edges(p, insts, first).len() ==>
            is_graph_block(first, leaders(p, insts).len(), (#[trigger] cfg_edges(p, insts, first)[k]).from)
            && is_graph_block(first, leaders(p, insts).len(), cfg_edges(p, insts, first)[k].to),
{
    let ls = leaders(p, insts);
    if insts.len() > 0 {
        lemma_edges_upto_in_range(p, insts, ls, first, ls.len());
        let head = seq![CfgEdge { from: entry_block(), to: BlockId(first as u32), kind: EdgeKind::Fallthrough }];
        let rest = edges_upto(p, insts, ls, first, block_labels(p, insts, ls, first, ls.len()), ls.len());
        lemma_leaders_nonempty(p, insts);
        assert forall|k: int| 0 <= k < (head + rest).len() implies
            is_graph_block(first, ls.len(), (#[trigger] (head + rest)[k]).from) && is_graph_block(first, ls.len(), (head + rest)[k].to) by {
            if k > 0 {
                assert((head + rest)[k] == rest[k - 1]);
            }
        }
    }
}

/// The instructions of the first `m` blocks that start at `ls`, block after block.
pub open spec fn blocks_text(insts: Seq<InstructionId>, ls: Seq<usize>, m: nat) -> Seq<InstructionId>
    decreases m,
{
    if m == 0 {
        Seq::empty()
    } else {
        blocks_text(insts, ls, (m - 1) as nat) + insts.subrange(ls[m - 1] as int, block_end(ls, m - 1, insts.len()))
    }
}

proof fn lemma_blocks_text(insts: Seq<InstructionId>, ls: Seq<usize>, m: nat)
    requires
        1 <= m <= ls.len(),
        ls[0] == 0,
        forall|k: int| 0 <= k < ls.len() ==> (#[trigger] ls[k]) < insts.len(),
        forall|a: int, b: int| 0 <= a < b < ls.len() ==> (#[trigger] ls[a]) < (#[trigger] ls[b]),
    ensures
        blocks_text(insts, ls, m) == insts.subrange(0, block_end(ls, m - 1, insts.len())),
    decreases m,
{
    if m == 1 {
        assert(blocks_text(insts, ls, 0) == Seq::<InstructionId>::empty());
        assert(blocks_text(insts, ls, 1) =~= insts.subrange(0, block_end(ls, 0, insts.len())));
    } else {
        lemma_blocks_text(insts, ls, (m - 1) as nat);
        assert(ls[m - 2] < ls[m - 1]);
        if m < ls.len() {
            assert(ls[m - 1] < ls[m as int]);
        }
        assert(insts.subrange(0, ls[m - 1] as int) + insts.subrange(ls[m - 1] as int, block_end(ls, m - 1, insts.len()))
            =~= insts.subrange(0, block_end(ls, m - 1, insts.len())));
    }
}

/// The blocks of a body split it: a position starts a block exactly when it
/// is the first one, follows a branch, jump or return, or holds a label;
/// the blocks start in increasing order, the first at the first position;
/// and their instructions, block after block, are the body.
pub proof fn law_blocks_split_body(p: Program, insts: Seq<InstructionId>)
    requires
        0 < insts.len() <= usize::MAX,
    ensures
        leaders(p, insts)[0] == 0,
        forall|a: int, b: int| 0 <= a < b < leaders(p, insts).len() ==>
            (#[trigger] leaders(p, insts)[a]) < (#[trigger] leaders(p, insts)[b]),
        forall|i: int| 0 <= i < insts.len() ==> (leaders(p, insts).contains(i as usize) <==> #[trigger] is_leader(p, insts, i)),
        blocks_text(insts, leaders(p, insts), leaders(p, insts).len()) == insts,
{
    lemma_leaders(p, insts, insts.len());
    let ls = leaders(p, insts);
    assert forall|i: int| 0 <= i < insts.len() implies (ls.contains(i as usize) <==> #[trigger] is_leader(p, insts, i)) by {
        if ls.contains(i as usize) {
            let k = choose|k: int| 0 <= k < ls.len() && ls[k] == i as usize;
            assert(is_leader(p, insts, ls[k] as int));
        }
    }
    lemma_blocks_text(insts, ls, ls.len());
    assert(insts.subrange(0, insts.len() as int) =~= insts);
}

proof fn lemma_leaders_nonempty(p: Program, insts: Seq<InstructionId>)
    requires
        insts.len() > 0,
    ensures
        leaders(p, insts).len() > 0,
    decreases insts.len(),
{
    lemma_leaders_upto_nonempty(p, insts, insts.len());
}

proof fn lemma_leaders_upto_nonempty(p: Program, insts: Seq<InstructionId>, n: nat)
    requires
        n > 0,
    ensures
        leaders_upto(p, insts, n).len() > 0,
    decreases n,
{
    if n > 1 {
        lemma_leaders_upto_nonempty(p, insts, (n - 1) as nat);
    }
}

} // verus!
