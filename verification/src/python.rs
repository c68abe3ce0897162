//! The Python front end: lowers a syntax tree to three-address code, one
//! method per function and a `__module__` method for module-level code.
use vstd::prelude::*;
use crate::ir::{Constant, ConstantView, Instruction, InstructionId, InstructionKind, Label, MethodId, ModuleId, Operand, Program, TypeId};
use crate::java::single_module;
use crate::parser::SimpleCstNode;
use crate::semantic::{find_child_identifier, find_parent_class, kind_eq, SemanticInfo, SymbolKind};
use crate::text::{chars_of, string_from_chars, trim, trimmed};

verus! {

broadcast use vstd::string::group_string_axioms;

/// The Python front end.
pub struct PythonFrontend;

/// The state of a lowering: where it stands and its counters.
struct Translator<'a> {
    semantic_info: &'a SemanticInfo,
    module_id: ModuleId,
    current_class_id: Option<TypeId>,
    current_method_id: Option<MethodId>,
    temp_counter: u32,
    label_counter: u32,
}

/// Whether a program is one well-formed file program with module `name`
/// for `path`.
pub open spec fn file_program(p: Program, name: Seq<char>, path: Seq<char>) -> bool {
    p.wf() && p.bodies_known() && single_module(p, name, path)
}

/// The name of the callee of a call node: the trimmed text of its first
/// child, or `callee`.
fn extract_callee_name(node: &SimpleCstNode) -> (r: String)
    ensures
        r@ == if node.children@.len() > 0 { trim(node.children@[0].raw@) } else { "callee"@ },
{
    if node.children.len() > 0 {
        trimmed(node.children[0].raw.as_str())
    } else {
        String::from_str("callee")
    }
}

/// The constant a literal reads as: a quoted text without its quotes (an
/// error when only the quote is there), a boolean, null, an integer that
/// fits an `i64`, or else a float kept as its text.
pub open spec fn literal_value(raw: Seq<char>) -> Result<ConstantView, ()> {
    let t = trim(raw);
    if t.len() > 0 && (t[0] == '"' || t[0] == '\'') {
        if t.len() < 2 { Err(()) } else { Ok(ConstantView::String(t.subrange(1, t.len() - 1))) }
    } else if t == seq!['T', 'r', 'u', 'e'] || t == seq!['t', 'r', 'u', 'e'] {
        Ok(ConstantView::Bool(true))
    } else if t == seq!['F', 'a', 'l', 's', 'e'] || t == seq!['f', 'a', 'l', 's', 'e'] {
        Ok(ConstantView::Bool(false))
    } else if t == seq!['N', 'o', 'n', 'e'] || t == seq!['n', 'o', 'n', 'e'] || t == seq!['n', 'u', 'l', 'l'] {
        Ok(ConstantView::Null)
    } else {
        match crate::chars::i64_text(t) {
            Some(v) => Ok(ConstantView::Int(v as i64)),
            None => Ok(ConstantView::Float(t)),
        }
    }
}

/// The constant a literal reads as.
fn literal_constant(raw: &str) -> (r: Result<Constant, String>)
    ensures
        match r {
            Ok(c) => literal_value(raw@) == Ok::<ConstantView, ()>(c@),
            Err(_) => literal_value(raw@) is Err,
        },
{
    let c = chars_of(raw);
    let t = crate::text::trim_chars(c.as_slice());
    if t.len() > 0 && (t[0] == '"' || t[0] == '\'') {
        if t.len() < 2 {
            return Err(String::from_str("Malformed string literal"));
        }
        let inner = crate::chars::slice_of(t.as_slice(), 1, t.len() - 1);
        return Ok(Constant::String(string_from_chars(inner.as_slice())));
    }
    let ts = t.as_slice();
    assert(ts@ == trim(raw@));
    if crate::chars::same_chars(ts, &['T', 'r', 'u', 'e']) || crate::chars::same_chars(ts, &['t', 'r', 'u', 'e']) {
        Ok(Constant::Bool(true))
    } else if crate::chars::same_chars(ts, &['F', 'a', 'l', 's', 'e']) || crate::chars::same_chars(ts, &['f', 'a', 'l', 's', 'e']) {
        Ok(Constant::Bool(false))
    } else if crate::chars::same_chars(ts, &['N', 'o', 'n', 'e']) || crate::chars::same_chars(ts, &['n', 'o', 'n', 'e'])
        || crate::chars::same_chars(ts, &['n', 'u', 'l', 'l']) {
        Ok(Constant::Null)
    } else {
        match crate::chars::parse_i64(ts) {
            Some(v) => Ok(Constant::Int(v)),
            None => Ok(Constant::Float(string_from_chars(ts))),
        }
    }
}

/// An operand over plain values.
pub enum OperandView {
    Var(Seq<char>),
    Temp(u32),
    Const(ConstantView),
}

/// An operand as plain values.
pub open spec fn operand_view(o: Operand) -> OperandView {
    match o {
        Operand::Var(v) => OperandView::Var(v@),
        Operand::Temp(t) => OperandView::Temp(t),
        Operand::Const(c) => OperandView::Const(c@),
    }
}

/// Operands as plain values.
pub open spec fn operand_views(v: Seq<Operand>) -> Seq<OperandView> {
    v.map_values(|o: Operand| operand_view(o))
}

/// An instruction that an expression emits, over plain values: an
/// allocation, a call with a destination, a field load or a binary
/// operation.
pub enum EmitView {
    Alloc(OperandView, Seq<char>),
    Call(OperandView, Seq<char>, Seq<OperandView>),
    Load(OperandView, OperandView, Seq<char>),
    BinOp(OperandView, Seq<char>, OperandView, OperandView),
}

/// Whether `k` is the instruction that `e` describes.
pub open spec fn kind_shows(k: InstructionKind, e: EmitView) -> bool {
    match e {
        EmitView::Alloc(d, c) => (k matches InstructionKind::Alloc { dest, class_name }
            && operand_view(dest) == d && class_name@ == c),
        EmitView::Call(d, c, a) => (k matches InstructionKind::Call { dest: Some(dest), callee, args }
            && operand_view(dest) == d && callee@ == c && operand_views(args@) == a),
        EmitView::Load(d, b, f) => (k matches InstructionKind::HeapLoad { dest, base, field }
            && operand_view(dest) == d && operand_view(base) == b && field@ == f),
        EmitView::BinOp(d, o, l, r) => (k matches InstructionKind::BinaryOp { dest, op, lhs, rhs }
            && operand_view(dest) == d && op@ == o && operand_view(lhs) == l && operand_view(rhs) == r),
    }
}

/// What lowering an expression gives: the instructions it emits, in order,
/// each with its span; the next free temporary; and the operand holding the
/// value, or a failure.
pub struct LowerOut {
    pub emitted: Seq<(EmitView, crate::common::Span)>,
    pub temp: int,
    pub result: Result<OperandView, ()>,
}

/// Whether an instruction can still be added: always without a current
/// method, else while identifiers remain after the `n` instructions emitted
/// so far over `count`.
pub open spec fn room(has_method: bool, count: int, n: int) -> bool {
    !has_method || count + n + 2 < u32::MAX
}

/// The number of instructions after `n` more are emitted: they are only
/// added when there is a current method.
pub open spec fn after(has_method: bool, count: int, n: int) -> int {
    if has_method { count + n } else { count }
}

/// Whether `p1` has the methods of `p0`, each with its name and
/// parameters.
pub open spec fn names_kept(p0: Program, p1: Program) -> bool {
    &&& p1.methods@.len() >= p0.methods@.len()
    &&& forall|i: int| 0 <= i < p0.methods@.len() ==> {
        &&& (#[trigger] p1.methods@[i]).name == p0.methods@[i].name
        &&& p1.methods@[i].parameters@ == p0.methods@[i].parameters@
    }
}

/// The position of the first node of kind `k` among `cs`, or its length.
pub open spec fn first_kind(cs: Seq<crate::parser::CstView>, k: Seq<char>) -> int
    decreases cs.len(),
{
    if cs.len() == 0 {
        0
    } else if cs[0].kind == k {
        0
    } else {
        first_kind(cs.drop_first(), k) + 1
    }
}

/// The last step of an expression: with the operands ready, take the next
/// temporary and emit `e` built on it.
pub open spec fn finish(has_method: bool, count: int, em: Seq<(EmitView, crate::common::Span)>, temp: int, e: EmitView, span: crate::common::Span) -> LowerOut {
    if temp >= u32::MAX {
        LowerOut { emitted: em, temp, result: Err(()) }
    } else if room(has_method, count, em.len() as int) {
        LowerOut { emitted: em.push((e, span)), temp: temp + 1, result: Ok(OperandView::Temp(temp as u32)) }
    } else {
        LowerOut { emitted: em, temp: temp + 1, result: Err(()) }
    }
}

/// The destination temporary that `finish` builds on.
pub open spec fn dest_of(temp: int) -> OperandView {
    OperandView::Temp(temp as u32)
}

/// Lowering an expression: a name is its variable and a literal its
/// constant; a call lowers its arguments, then allocates when the callee
/// names a class and calls otherwise; an attribute loads its field from
/// its lowered base; a binary or comparison operation combines its lowered
/// operands; any other node is its first child, or null.
pub open spec fn lower_of(info: SemanticInfo, has_method: bool, count: int, temp: int, n: crate::parser::CstView) -> LowerOut
    decreases n, 0int,
{
    if n.kind == "Identifier"@ {
        LowerOut { emitted: Seq::empty(), temp, result: Ok(OperandView::Var(trim(n.raw))) }
    } else if n.kind == "Literal"@ {
        LowerOut {
            emitted: Seq::empty(),
            temp,
            result: match literal_value(n.raw) {
                Ok(c) => Ok(OperandView::Const(c)),
                Err(_) => Err(()),
            },
        }
    } else if n.kind == "CallExpression"@ {
        let callee = if n.children.len() > 0 { trim(n.children[0].raw) } else { "callee"@ };
        let is_alloc = crate::semantic::lookup_from(info.scopes@, callee, 0, (info.scopes@.len() + 1) as nat) matches Some(sym)
            && sym.kind == SymbolKind::Class;
        let p = first_kind(n.children, "argument_list"@);
        let a = if 0 <= p < n.children.len() {
            args_of(info, has_method, count, temp, n.children[p].children, n.children[p].children.len() as int)
        } else {
            (Seq::empty(), temp, Ok(Seq::empty()))
        };
        match a.2 {
            Ok(args) => finish(has_method, count, a.0, a.1,
                if is_alloc { EmitView::Alloc(dest_of(a.1), callee) } else { EmitView::Call(dest_of(a.1), callee, args) },
                n.span),
            Err(_) => LowerOut { emitted: a.0, temp: a.1, result: Err(()) },
        }
    } else if n.kind == "attribute"@ {
        if n.children.len() == 0 {
            LowerOut { emitted: Seq::empty(), temp, result: Err(()) }
        } else {
            let b = lower_of(info, has_method, count, temp, n.children[0]);
            match b.result {
                Ok(base) => match crate::semantic::first_identifier(n.children) {
                    Some(f) => finish(has_method, count, b.emitted, b.temp, EmitView::Load(dest_of(b.temp), base, f), n.span),
                    None => LowerOut { emitted: b.emitted, temp: b.temp, result: Err(()) },
                },
                Err(_) => b,
            }
        }
    } else if n.kind == "binary_operator"@ || n.kind == "comparison_operator"@ {
        if n.children.len() < 2 {
            LowerOut { emitted: Seq::empty(), temp, result: Err(()) }
        } else {
            let rhs_index: int = if n.children.len() >= 3 { 2 } else { 1 };
            let op = if n.children.len() >= 3 { trim(n.children[1].raw) } else { "+"@ };
            let l = lower_of(info, has_method, count, temp, n.children[0]);
            match l.result {
                Ok(lhs) => {
                    let r = lower_of(info, has_method, after(has_method, count, l.emitted.len() as int), l.temp, n.children[rhs_index]);
                    match r.result {
                        Ok(rhs) => finish(has_method, count, l.emitted + r.emitted, r.temp,
                            EmitView::BinOp(dest_of(r.temp), op, lhs, rhs), n.span),
                        Err(_) => LowerOut { emitted: l.emitted + r.emitted, temp: r.temp, result: Err(()) },
                    }
                },
                Err(_) => l,
            }
        }
    } else if n.children.len() > 0 {
        lower_of(info, has_method, count, temp, n.children[0])
    } else {
        LowerOut { emitted: Seq::empty(), temp, result: Ok(OperandView::Const(ConstantView::Null)) }
    }
}

/// Lowering the first `k` arguments of `cs` in order, stopping at the first
/// that fails: what they emit, the next free temporary, and their operands.
pub open spec fn args_of(info: SemanticInfo, has_method: bool, count: int, temp: int, cs: Seq<crate::parser::CstView>, k: int)
    -> (Seq<(EmitView, crate::common::Span)>, int, Result<Seq<OperandView>, ()>)
    decreases cs, k,
{
    if k <= 0 || k > cs.len() {
        (Seq::empty(), temp, Ok(Seq::empty()))
    } else {
        let a = args_of(info, has_method, count, temp, cs, k - 1);
        match a.2 {
            Ok(ops) => {
                let o = lower_of(info, has_method, after(has_method, count, a.0.len() as int), a.1, cs[k - 1]);
                match o.result {
                    Ok(op) => (a.0 + o.emitted, o.temp, Ok(ops.push(op))),
                    Err(_) => (a.0 + o.emitted, o.temp, Err(())),
                }
            },
            Err(_) => a,
        }
    }
}

/// The identifiers of `n` instructions added after the first `start`.
pub open spec fn new_ids(start: int, n: int) -> Seq<InstructionId> {
    Seq::new(n as nat, |k: int| InstructionId((start + k + 1) as u32))
}

/// Whether `p1` is `p0` with the instructions `em` added in order and
/// appended to the body of method `m`.
pub open spec fn grew(p0: Program, p1: Program, m: MethodId, em: Seq<(EmitView, crate::common::Span)>) -> bool {
    let n0 = p0.instructions@.len();
    &&& names_kept(p0, p1)
    &&& p1.instructions@.len() == n0 + em.len()
    &&& p1.instructions@.subrange(0, n0 as int) == p0.instructions@
    &&& forall|k: int| 0 <= k < em.len() ==> {
        let ins = #[trigger] p1.instructions@[n0 + k];
        &&& ins.id == InstructionId((n0 + k + 1) as u32)
        &&& kind_shows(ins.kind, em[k].0)
        &&& ins.span == Some(em[k].1)
    }
    &&& p1.modules == p0.modules
    &&& p1.methods@.len() == p0.methods@.len()
    &&& forall|i: int| 0 <= i < p0.methods@.len() ==> (#[trigger] p1.methods@[i]).id == p0.methods@[i].id
    &&& forall|i: int| 0 <= i < p0.methods@.len() ==>
        (#[trigger] p1.methods@[i]).body@ == if p0.methods@[i].id == m {
            p0.methods@[i].body@ + new_ids(n0 as int, em.len() as int)
        } else {
            p0.methods@[i].body@
        }
}

proof fn lemma_grew_refl(p: Program, m: MethodId)
    ensures
        grew(p, p, m, Seq::empty()),
{
    assert(p.instructions@.subrange(0, p.instructions@.len() as int) =~= p.instructions@);
    assert forall|i: int| 0 <= i < p.methods@.len() implies
        (#[trigger] p.methods@[i]).body@ == if p.methods@[i].id == m {
            p.methods@[i].body@ + new_ids(p.instructions@.len() as int, 0)
        } else {
            p.methods@[i].body@
        } by {
        assert(p.methods@[i].body@ + new_ids(p.instructions@.len() as int, 0) =~= p.methods@[i].body@);
    }
}

proof fn lemma_grew_trans(p0: Program, p1: Program, p2: Program, m: MethodId, e1: Seq<(EmitView, crate::common::Span)>, e2: Seq<(EmitView, crate::common::Span)>)
    requires
        grew(p0, p1, m, e1),
        grew(p1, p2, m, e2),
    ensures
        grew(p0, p2, m, e1 + e2),
{
    assert forall|i: int| 0 <= i < p0.methods@.len() implies {
        &&& (#[trigger] p2.methods@[i]).name == p0.methods@[i].name
        &&& p2.methods@[i].parameters@ == p0.methods@[i].parameters@
    } by {
        assert(p1.methods@[i].name == p0.methods@[i].name);
    }
    let n0 = p0.instructions@.len();
    let n1 = p1.instructions@.len();
    assert(p2.instructions@.subrange(0, n0 as int) =~= p1.instructions@.subrange(0, n0 as int)) by {
        assert forall|k: int| 0 <= k < n0 implies p2.instructions@[k] == p1.instructions@[k] by {
            assert(p2.instructions@.subrange(0, n1 as int)[k] == p1.instructions@[k]);
        }
    }
    let e = e1 + e2;
    assert forall|k: int| 0 <= k < e.len() implies {
        let ins = #[trigger] p2.instructions@[n0 + k];
        &&& ins.id == InstructionId((n0 + k + 1) as u32)
        &&& kind_shows(ins.kind, e[k].0)
        &&& ins.span == Some(e[k].1)
    } by {
        if k < e1.len() {
            assert(p2.instructions@.subrange(0, n1 as int)[n0 + k] == p1.instructions@[n0 + k]);
            let ins = p1.instructions@[n0 + k];
            assert(ins.id == InstructionId((n0 + k + 1) as u32));
            assert(kind_shows(ins.kind, e1[k].0));
            assert(e[k] == e1[k]);
        } else {
            let j = k - e1.len();
            assert(0 <= j < e2.len());
            let ins = p2.instructions@[n1 + j];
            assert(ins.id == InstructionId((n1 + j + 1) as u32));
            assert(kind_shows(ins.kind, e2[j].0));
            assert(e[k] == e2[j]);
            assert(n1 + j == n0 + k);
        }
    }
    assert forall|i: int| 0 <= i < p0.methods@.len() implies
        (#[trigger] p2.methods@[i]).body@ == if p0.methods@[i].id == m {
            p0.methods@[i].body@ + new_ids(n0 as int, e.len() as int)
        } else {
            p0.methods@[i].body@
        } by {
        let b0 = p0.methods@[i].body@;
        let b1 = p1.methods@[i].body@;
        let b2 = p2.methods@[i].body@;
        assert(b2 == if p1.methods@[i].id == m { b1 + new_ids(n1 as int, e2.len() as int) } else { b1 });
        if p0.methods@[i].id == m {
            assert(new_ids(n0 as int, e1.len() as int) + new_ids(n1 as int, e2.len() as int) =~= new_ids(n0 as int, e.len() as int));
            assert(p0.methods@[i].body@ + new_ids(n0 as int, e1.len() as int) + new_ids(n1 as int, e2.len() as int)
                =~= p0.methods@[i].body@ + new_ids(n0 as int, e.len() as int));
        }
    }
}

/// Whether `p1` is `p0` after emitting `em` into the method `mid`: with no
/// method nothing changes.
pub open spec fn lowered_into(p0: Program, p1: Program, mid: Option<MethodId>, em: Seq<(EmitView, crate::common::Span)>) -> bool {
    match mid {
        Some(m) => grew(p0, p1, m, em),
        None => p1 == p0,
    }
}

proof fn lemma_lowered_refl(p: Program, mid: Option<MethodId>)
    ensures
        lowered_into(p, p, mid, Seq::empty()),
{
    if let Some(m) = mid {
        lemma_grew_refl(p, m);
    }
}

proof fn lemma_lowered_trans(p0: Program, p1: Program, p2: Program, mid: Option<MethodId>, e1: Seq<(EmitView, crate::common::Span)>, e2: Seq<(EmitView, crate::common::Span)>)
    requires
        lowered_into(p0, p1, mid, e1),
        lowered_into(p1, p2, mid, e2),
    ensures
        lowered_into(p0, p2, mid, e1 + e2),
{
    if let Some(m) = mid {
        lemma_grew_trans(p0, p1, p2, m, e1, e2);
    }
}

proof fn lemma_grew_one(p0: Program, p1: Program, m: MethodId, kind: InstructionKind, span: crate::common::Span, e: EmitView)
    requires
        kind_shows(kind, e),
        names_kept(p0, p1),
        p1.instructions@ == p0.instructions@.push(Instruction {
            id: InstructionId((p0.instructions@.len() + 1) as u32),
            kind,
            span: Some(span),
        }),
        p1.modules == p0.modules,
        p1.methods@.len() == p0.methods@.len(),
        forall|i: int| #![trigger p1.methods@[i]] 0 <= i < p0.methods@.len() ==> p1.methods@[i].id == p0.methods@[i].id,
        forall|i: int| #![trigger p1.methods@[i]] 0 <= i < p0.methods@.len() ==>
            p1.methods@[i].body@ == if p0.methods@[i].id == m {
                p0.methods@[i].body@.push(InstructionId((p0.instructions@.len() + 1) as u32))
            } else {
                p0.methods@[i].body@
            },
    ensures
        grew(p0, p1, m, seq![(e, span)]),
{
    let n0 = p0.instructions@.len();
    assert(p1.instructions@.subrange(0, n0 as int) =~= p0.instructions@);
    assert(p1.instructions@[n0 + 0int] == p1.instructions@[n0 as int]);
    assert forall|i: int| 0 <= i < p0.methods@.len() implies
        (#[trigger] p1.methods@[i]).body@ == if p0.methods@[i].id == m {
            p0.methods@[i].body@ + new_ids(n0 as int, 1)
        } else {
            p0.methods@[i].body@
        } by {
        assert(p0.methods@[i].body@.push(InstructionId((n0 + 1) as u32)) =~= p0.methods@[i].body@ + new_ids(n0 as int, 1));
    }
}

proof fn lemma_args_err_stable(info: SemanticInfo, hm: bool, count: int, temp: int, cs: Seq<crate::parser::CstView>, k: int, j: int)
    requires
        1 <= k <= j <= cs.len(),
        args_of(info, hm, count, temp, cs, k).2 is Err,
    ensures
        args_of(info, hm, count, temp, cs, j) == args_of(info, hm, count, temp, cs, k),
    decreases j - k,
{
    if j > k {
        lemma_args_err_stable(info, hm, count, temp, cs, k, j - 1);
    }
}

proof fn lemma_first_kind(cs: Seq<crate::parser::CstView>, k: Seq<char>, i: int)
    requires
        0 <= i <= cs.len(),
        forall|j: int| 0 <= j < i ==> cs[j].kind != k,
        i < cs.len() ==> cs[i].kind == k,
    ensures
        first_kind(cs, k) == i,
    decreases i,
{
    if i > 0 {
        lemma_first_kind(cs.drop_first(), k, i - 1);
    }
}

/// An instruction that a statement emits, over plain values: one an
/// expression emits, a copy into a variable, a field store, a return, a
/// branch, a jump or a label.
pub enum StmtEmit {
    Expr(EmitView),
    Copy(Seq<char>, OperandView),
    Store(OperandView, Seq<char>, OperandView),
    Ret(Option<OperandView>),
    Branch(OperandView, u32),
    Jump(u32),
    Mark(u32),
}

/// Whether `k` is the instruction that `e` describes.
pub open spec fn stmt_shows(k: InstructionKind, e: StmtEmit) -> bool {
    match e {
        StmtEmit::Expr(x) => kind_shows(k, x),
        StmtEmit::Copy(d, v) => (k matches InstructionKind::Assign { dest: Operand::Var(dv), src }
            && dv@ == d && operand_view(src) == v),
        StmtEmit::Store(b, f, v) => (k matches InstructionKind::HeapStore { base, field, src }
            && operand_view(base) == b && field@ == f && operand_view(src) == v),
        StmtEmit::Ret(v) => (k matches InstructionKind::Return { val } && match v {
            Some(o) => (val matches Some(x) && operand_view(x) == o),
            None => val is None,
        }),
        StmtEmit::Branch(c, l) => (k matches InstructionKind::Branch { cond, target } && operand_view(cond) == c && target == Label(l)),
        StmtEmit::Jump(l) => (k matches InstructionKind::Jump { target } && target == Label(l)),
        StmtEmit::Mark(l) => (k matches InstructionKind::Label(x) && x == Label(l)),
    }
}

/// What an expression emitted, as statement emissions with their spans.
pub open spec fn lift(em: Seq<(EmitView, crate::common::Span)>) -> Seq<(StmtEmit, Option<crate::common::Span>)> {
    em.map_values(|x: (EmitView, crate::common::Span)| (StmtEmit::Expr(x.0), Some(x.1)))
}

/// Whether `i1` is `i0` with the instructions `em` added in order.
pub open spec fn stmt_emitted(i0: Seq<Instruction>, i1: Seq<Instruction>, em: Seq<(StmtEmit, Option<crate::common::Span>)>) -> bool {
    &&& i1.len() == i0.len() + em.len()
    &&& i1.subrange(0, i0.len() as int) == i0
    &&& forall|k: int| 0 <= k < em.len() ==> stmt_shows((#[trigger] i1[i0.len() + k]).kind, em[k].0)
        && i1[i0.len() + k].span == em[k].1
}

/// Where a lowering stands: whether a method is current and its
/// identifier, how many instructions, types and methods there are, and the
/// next temporary and label.
pub struct WalkState {
    pub has_method: bool,
    pub method: int,
    pub count: int,
    pub temp: int,
    pub label: int,
    pub types: int,
    pub methods: int,
}

/// What lowering gives: where it ends, what it emitted, the identifier of
/// the method whose body took each emitted instruction (0 for none), and
/// whether it succeeded.
pub struct WalkOut {
    pub st: WalkState,
    pub emitted: Seq<(StmtEmit, Option<crate::common::Span>)>,
    pub owners: Seq<int>,
    pub made: Seq<(Seq<char>, Seq<Seq<char>>)>,
    pub ok: bool,
}

/// The method whose body takes what is emitted in `st`: the current one
/// when the program has it, else none (0).
pub open spec fn owner(st: WalkState) -> int {
    if st.has_method && 1 <= st.method <= st.methods { st.method } else { 0 }
}

/// Nothing emitted yet from `st`.
pub open spec fn begin(st: WalkState) -> WalkOut {
    WalkOut { st, emitted: Seq::empty(), owners: Seq::empty(), made: Seq::empty(), ok: true }
}

/// `prev`, failed.
pub open spec fn fail(prev: WalkOut) -> WalkOut {
    WalkOut { ok: false, ..prev }
}

/// `prev`, then emitting `e` into the current method; failing when
/// identifiers would run out.
pub open spec fn emit_out(prev: WalkOut, e: StmtEmit, sp: Option<crate::common::Span>) -> WalkOut {
    if !prev.ok || !prev.st.has_method {
        prev
    } else if prev.st.count + 2 < u32::MAX {
        WalkOut {
            st: WalkState { count: prev.st.count + 1, ..prev.st },
            emitted: prev.emitted.push((e, sp)),
            owners: prev.owners.push(owner(prev.st)),
            made: prev.made,
            ok: true,
        }
    } else {
        fail(prev)
    }
}

/// `prev`, then lowering the expression `n`.
pub open spec fn expr_out(info: SemanticInfo, prev: WalkOut, n: crate::parser::CstView) -> WalkOut {
    if !prev.ok {
        prev
    } else {
        let o = lower_of(info, prev.st.has_method, prev.st.count, prev.st.temp, n);
        WalkOut {
            st: WalkState { count: after(prev.st.has_method, prev.st.count, o.emitted.len() as int), temp: o.temp, ..prev.st },
            emitted: prev.emitted + lift(o.emitted),
            owners: prev.owners + Seq::new(o.emitted.len(), |_k: int| owner(prev.st)),
            made: prev.made,
            ok: o.result is Ok,
        }
    }
}

/// The operand that lowering `n` after `prev` gives.
pub open spec fn expr_val(info: SemanticInfo, prev: WalkOut, n: crate::parser::CstView) -> OperandView {
    lower_of(info, prev.st.has_method, prev.st.count, prev.st.temp, n).result->Ok_0
}

/// `prev`, then taking the next label; failing at its largest.
pub open spec fn label_out(prev: WalkOut) -> WalkOut {
    if !prev.ok {
        prev
    } else if prev.st.label >= u32::MAX {
        fail(prev)
    } else {
        WalkOut { st: WalkState { label: prev.st.label + 1, ..prev.st }, ..prev }
    }
}

/// `prev`, then lowering the statement `n`; on success the current method
/// is as before.
pub open spec fn walk_out(info: SemanticInfo, prev: WalkOut, n: crate::parser::CstView) -> WalkOut
    decreases n, 2int,
{
    if !prev.ok {
        prev
    } else {
        let w = walk_of(info, prev.st, n);
        WalkOut {
            st: if w.ok { WalkState { has_method: prev.st.has_method, method: prev.st.method, ..w.st } } else { w.st },
            emitted: prev.emitted + w.emitted,
            owners: prev.owners + w.owners,
            made: prev.made + w.made,
            ok: w.ok,
        }
    }
}

/// `prev`, then lowering the first `k` of `cs` in order, parameter lists
/// left out when `skip` holds.
pub open spec fn walk_list(info: SemanticInfo, prev: WalkOut, cs: Seq<crate::parser::CstView>, k: int, skip: bool) -> WalkOut
    decreases cs, k,
{
    if k <= 0 || k > cs.len() {
        prev
    } else {
        let p = walk_list(info, prev, cs, k - 1, skip);
        if skip && cs[k - 1].kind == "parameters"@ { p } else { walk_out(info, p, cs[k - 1]) }
    }
}

/// Lowering a statement: a class walks its children, a function walks its
/// children (but its parameter list) as a new current method with
/// temporaries from 1; inside a method, an assignment copies or stores its
/// lowered right side, a return returns its lowered value, an `if` branches
/// to the second child and falls through to the third, a `while` loops on
/// its condition over its second child, and a call is lowered for its
/// effect; any other node walks its children.
pub open spec fn walk_of(info: SemanticInfo, st: WalkState, n: crate::parser::CstView) -> WalkOut
    decreases n, 1int,
{
    if n.kind == "ClassDefinition"@ {
        class_walk(info, st, n)
    } else if n.kind == "FunctionDefinition"@ {
        function_walk(info, st, n)
    } else if n.kind == "AssignmentExpression"@ {
        assign_walk(info, st, n)
    } else if n.kind == "ReturnStatement"@ {
        return_walk(info, st, n)
    } else if n.kind == "IfStatement"@ {
        if_walk(info, st, n)
    } else if n.kind == "WhileStatement"@ {
        while_walk(info, st, n)
    } else if n.kind == "CallExpression"@ {
        call_walk(info, st, n)
    } else {
        walk_list(info, begin(st), n.children, n.children.len() as int, false)
    }
}

/// Lowering a class: a new type, then its children in order.
pub open spec fn class_walk(info: SemanticInfo, st: WalkState, n: crate::parser::CstView) -> WalkOut
    decreases n, 0int,
{
    let start = begin(st);
    let len = n.children.len() as int;
    if st.types >= 0xffff_fff0 {
        fail(start)
    } else {
        walk_list(info, WalkOut { st: WalkState { types: st.types + 1, ..st }, ..start }, n.children, len, false)
    }
}

/// The name a function definition gives its method: its first
/// identifier, or `unknown_func`.
pub open spec fn fname_of(n: crate::parser::CstView) -> Seq<char> {
    match crate::semantic::first_identifier(n.children) {
        Some(f) => f,
        None => "unknown_func"@,
    }
}

/// The trimmed texts of the identifiers among `cs`, in order.
pub open spec fn idents(cs: Seq<crate::parser::CstView>) -> Seq<Seq<char>>
    decreases cs.len(),
{
    if cs.len() == 0 {
        Seq::empty()
    } else {
        idents(cs.drop_last()) + if cs.last().kind == "Identifier"@ { seq![trim(cs.last().raw)] } else { Seq::empty() }
    }
}

/// The parameters a function definition gives its method: the identifiers
/// of its first parameter list, if it has one.
pub open spec fn params_of(n: crate::parser::CstView) -> Seq<Seq<char>> {
    let i = first_kind(n.children, "parameters"@);
    if i < n.children.len() { idents(n.children[i].children) } else { Seq::empty() }
}

/// Texts as character sequences.
pub open spec fn param_views(v: Seq<String>) -> Seq<Seq<char>> {
    v.map_values(|s: String| s@)
}

/// Whether `p1` is `p0`'s methods, each with its name and parameters,
/// followed by one method for each of `made`, in order, named and with the
/// parameters it gives.
pub open spec fn methods_made(p0: Program, p1: Program, made: Seq<(Seq<char>, Seq<Seq<char>>)>) -> bool {
    &&& names_kept(p0, p1)
    &&& p1.methods@.len() == p0.methods@.len() + made.len()
    &&& forall|k: int| 0 <= k < made.len() ==> {
        &&& (#[trigger] p1.methods@[p0.methods@.len() + k]).name@ == made[k].0
        &&& param_views(p1.methods@[p0.methods@.len() + k].parameters@) == made[k].1
    }
}

pub(crate) proof fn lemma_made_refl(p: Program)
    ensures
        methods_made(p, p, Seq::empty()),
{
}

pub(crate) proof fn lemma_made_keep(p0: Program, p1: Program, p2: Program, made: Seq<(Seq<char>, Seq<Seq<char>>)>)
    requires
        methods_made(p0, p1, made),
        names_kept(p1, p2),
        p2.methods@.len() == p1.methods@.len(),
    ensures
        methods_made(p0, p2, made),
{
    assert forall|i: int| 0 <= i < p0.methods@.len() implies {
        &&& (#[trigger] p2.methods@[i]).name == p0.methods@[i].name
        &&& p2.methods@[i].parameters@ == p0.methods@[i].parameters@
    } by {
        assert(p1.methods@[i].name == p0.methods@[i].name);
    }
    assert forall|k: int| 0 <= k < made.len() implies {
        &&& (#[trigger] p2.methods@[p0.methods@.len() + k]).name@ == made[k].0
        &&& param_views(p2.methods@[p0.methods@.len() + k].parameters@) == made[k].1
    } by {
        assert(p1.methods@[p0.methods@.len() + k].name@ == made[k].0);
    }
}

pub(crate) proof fn lemma_made_trans(p0: Program, p1: Program, p2: Program, m1: Seq<(Seq<char>, Seq<Seq<char>>)>, m2: Seq<(Seq<char>, Seq<Seq<char>>)>)
    requires
        methods_made(p0, p1, m1),
        methods_made(p1, p2, m2),
    ensures
        methods_made(p0, p2, m1 + m2),
{
    let n0 = p0.methods@.len();
    let m = m1 + m2;
    assert forall|i: int| 0 <= i < n0 implies {
        &&& (#[trigger] p2.methods@[i]).name == p0.methods@[i].name
        &&& p2.methods@[i].parameters@ == p0.methods@[i].parameters@
    } by {
        assert(p1.methods@[i].name == p0.methods@[i].name);
    }
    assert forall|k: int| 0 <= k < m.len() implies {
        &&& (#[trigger] p2.methods@[n0 + k]).name@ == m[k].0
        &&& param_views(p2.methods@[n0 + k].parameters@) == m[k].1
    } by {
        if k < m1.len() {
            assert(p1.methods@[n0 + k].name@ == m1[k].0);
            assert(p2.methods@[n0 + k] == p2.methods@[n0 + k]);
        } else {
            let j = k - m1.len();
            assert(p2.methods@[p1.methods@.len() + j].name@ == m2[j].0);
        }
    }
}

/// Lowering a function: a new method, current while its children (but its
/// parameter list) are walked with temporaries from 1.
pub open spec fn function_walk(info: SemanticInfo, st: WalkState, n: crate::parser::CstView) -> WalkOut
    decreases n, 0int,
{
    let start = begin(st);
    let len = n.children.len() as int;
    if st.methods >= 0xffff_fff0 {
        fail(start)
    } else {
        let inner = walk_list(info,
            WalkOut { st: WalkState { has_method: true, method: st.methods + 1, temp: 1, methods: st.methods + 1, ..st }, ..start },
            n.children, len, true);
        let made = seq![(fname_of(n), params_of(n))] + inner.made;
        if inner.ok {
            WalkOut { st: WalkState { has_method: st.has_method, method: st.method, ..inner.st }, made, ..inner }
        } else {
            WalkOut { made, ..inner }
        }
    }
}

/// Lowering an assignment inside a method: its right side lowered, then
/// copied to a name or stored into a field.
pub open spec fn assign_walk(info: SemanticInfo, st: WalkState, n: crate::parser::CstView) -> WalkOut
    decreases n, 0int,
{
    let start = begin(st);
    let len = n.children.len() as int;
    if !st.has_method {
        start
    } else if len < 2 {
        fail(start)
    } else {
        let ri: int = if len >= 3 { 2 } else { 1 };
        let a = expr_out(info, start, n.children[ri]);
        let rv = expr_val(info, start, n.children[ri]);
        let lhs = n.children[0];
        if !a.ok {
            a
        } else if lhs.kind == "Identifier"@ {
            emit_out(a, StmtEmit::Copy(trim(lhs.raw), rv), Some(n.span))
        } else if lhs.kind == "attribute"@ {
            if lhs.children.len() == 0 {
                fail(a)
            } else {
                let b = expr_out(info, a, lhs.children[0]);
                let bv = expr_val(info, a, lhs.children[0]);
                if !b.ok {
                    b
                } else {
                    match crate::semantic::first_identifier(lhs.children) {
                        Some(f) => emit_out(b, StmtEmit::Store(bv, f, rv), Some(n.span)),
                        None => fail(b),
                    }
                }
            }
        } else {
            a
        }
    }
}

/// Lowering a return inside a method: its value lowered, then returned.
pub open spec fn return_walk(info: SemanticInfo, st: WalkState, n: crate::parser::CstView) -> WalkOut
    decreases n, 0int,
{
    let start = begin(st);
    let len = n.children.len() as int;
    if !st.has_method {
        start
    } else if len > 0 {
        let a = expr_out(info, start, n.children[0]);
        emit_out(a, StmtEmit::Ret(Some(expr_val(info, start, n.children[0]))), Some(n.span))
    } else {
        emit_out(start, StmtEmit::Ret(None), Some(n.span))
    }
}

/// Lowering an `if` inside a method: the condition, a branch to the second
/// child, the third child, a jump past the second, then the second.
pub open spec fn if_walk(info: SemanticInfo, st: WalkState, n: crate::parser::CstView) -> WalkOut
    decreases n, 0int,
{
    let start = begin(st);
    let len = n.children.len() as int;
    if !st.has_method {
        start
    } else if len == 0 {
        fail(start)
    } else {
        let a = expr_out(info, start, n.children[0]);
        let cv = expr_val(info, start, n.children[0]);
        let l1 = a.st.label;
        let b = label_out(a);
        let l2 = b.st.label;
        let c = label_out(b);
        let d = emit_out(c, StmtEmit::Branch(cv, l1 as u32), Some(n.children[0].span));
        let e = if len >= 3 { walk_out(info, d, n.children[2]) } else { d };
        let f = emit_out(e, StmtEmit::Jump(l2 as u32), None);
        let g = emit_out(f, StmtEmit::Mark(l1 as u32), None);
        let h = if len >= 2 { walk_out(info, g, n.children[1]) } else { g };
        emit_out(h, StmtEmit::Mark(l2 as u32), None)
    }
}

/// Lowering a `while` inside a method: a loop on its condition over its
/// second child.
pub open spec fn while_walk(info: SemanticInfo, st: WalkState, n: crate::parser::CstView) -> WalkOut
    decreases n, 0int,
{
    let start = begin(st);
    let len = n.children.len() as int;
    if !st.has_method {
        start
    } else {
        let l_start = st.label;
        let b = label_out(start);
        let l_body = b.st.label;
        let c = label_out(b);
        let l_exit = c.st.label;
        let d = label_out(c);
        let e = emit_out(d, StmtEmit::Mark(l_start as u32), None);
        if len == 0 {
            fail(e)
        } else {
            let f = expr_out(info, e, n.children[0]);
            let cv = expr_val(info, e, n.children[0]);
            let g = emit_out(f, StmtEmit::Branch(cv, l_body as u32), Some(n.children[0].span));
            let h = emit_out(g, StmtEmit::Jump(l_exit as u32), None);
            let i = emit_out(h, StmtEmit::Mark(l_body as u32), None);
            let j = if len >= 2 { walk_out(info, i, n.children[1]) } else { i };
            let k = emit_out(j, StmtEmit::Jump(l_start as u32), None);
            emit_out(k, StmtEmit::Mark(l_exit as u32), None)
        }
    }
}

/// Lowering a call inside a method, for its effect.
pub open spec fn call_walk(info: SemanticInfo, st: WalkState, n: crate::parser::CstView) -> WalkOut
    decreases n, 0int,
{
    let start = begin(st);
    let len = n.children.len() as int;
    if !st.has_method {
        start
    } else {
        let a = expr_out(info, start, n);
        WalkOut { ok: true, ..a }
    }
}

/// Whether `p` is what lowering the tree `tree` with the semantic
/// information `info` gives: the walk from the start of a file succeeds,
/// `p` holds exactly the instructions it emits, and each method's body the
/// instructions given to it.
pub open spec fn python_lowered(p: Program, info: SemanticInfo, tree: crate::parser::CstView) -> bool {
    let out = walk_of(info, module_start(), tree);
    &&& out.ok
    &&& stmt_emitted(Seq::empty(), p.instructions@, out.emitted)
    &&& forall|i: int| 0 <= i < p.methods@.len() ==> (#[trigger] p.methods@[i]).body@ == body_ids(out.owners, 0, i + 1)
    &&& module_methods(p, out.made)
}

/// Whether the methods of `p` are its `__module__` method, without
/// parameters, then one for each function of `made`, in order, with its
/// name and parameters.
pub open spec fn module_methods(p: Program, made: Seq<(Seq<char>, Seq<Seq<char>>)>) -> bool {
    &&& p.methods@.len() == 1 + made.len()
    &&& p.methods@[0].name@ == "__module__"@
    &&& p.methods@[0].parameters@.len() == 0
    &&& forall|k: int| 0 <= k < made.len() ==> {
        &&& (#[trigger] p.methods@[1 + k]).name@ == made[k].0
        &&& param_views(p.methods@[1 + k].parameters@) == made[k].1
    }
}

/// Where lowering a file starts: inside its `__module__` method, the one
/// method, with no instructions or types and temporaries and labels from 1.
pub open spec fn module_start() -> WalkState {
    WalkState { has_method: true, method: 1, count: 0, temp: 1, label: 1, types: 0, methods: 1 }
}

/// Whether `p1` has the modules of `p0`, each with its identifier, name
/// and file.
pub open spec fn modules_kept(p0: Program, p1: Program) -> bool {
    &&& p1.modules@.len() == p0.modules@.len()
    &&& forall|i: int| 0 <= i < p0.modules@.len() ==> {
        &&& (#[trigger] p1.modules@[i]).id == p0.modules@[i].id
        &&& p1.modules@[i].name == p0.modules@[i].name
        &&& p1.modules@[i].file_path == p0.modules@[i].file_path
    }
}

/// Where a translator and a program stand.
spec fn walk_state(t: Translator, p: Program) -> WalkState {
    WalkState {
        has_method: t.current_method_id is Some,
        method: match t.current_method_id { Some(m) => m.0 as int, None => 0 },
        count: p.instructions@.len() as int,
        temp: t.temp_counter as int,
        label: t.label_counter as int,
        types: p.types@.len() as int,
        methods: p.methods@.len() as int,
    }
}

proof fn lemma_stmt_refl(i: Seq<Instruction>)
    ensures
        stmt_emitted(i, i, Seq::empty()),
{
    assert(i.subrange(0, i.len() as int) =~= i);
}

proof fn lemma_stmt_trans(i0: Seq<Instruction>, i1: Seq<Instruction>, i2: Seq<Instruction>,
    e1: Seq<(StmtEmit, Option<crate::common::Span>)>, e2: Seq<(StmtEmit, Option<crate::common::Span>)>)
    requires
        stmt_emitted(i0, i1, e1),
        stmt_emitted(i1, i2, e2),
    ensures
        stmt_emitted(i0, i2, e1 + e2),
{
    let n0 = i0.len();
    let n1 = i1.len();
    assert(i2.subrange(0, n0 as int) =~= i0) by {
        assert forall|k: int| 0 <= k < n0 implies i2[k] == i0[k] by {
            assert(i2.subrange(0, n1 as int)[k] == i1[k]);
            assert(i1.subrange(0, n0 as int)[k] == i0[k]);
        }
    }
    let e = e1 + e2;
    assert forall|k: int| 0 <= k < e.len() implies stmt_shows((#[trigger] i2[n0 + k]).kind, e[k].0) && i2[n0 + k].span == e[k].1 by {
        if k < e1.len() {
            assert(i2.subrange(0, n1 as int)[n0 + k] == i1[n0 + k]);
            assert(stmt_shows(i1[n0 + k].kind, e1[k].0));
        } else {
            let j = k - e1.len();
            assert(i2[n1 + j] == i2[n1 + j]);
            assert(stmt_shows(i2[n1 + j].kind, e2[j].0));
            assert(n1 + j == n0 + k);
        }
    }
}

proof fn lemma_stmt_from_grew(p0: Program, p1: Program, m: MethodId, em: Seq<(EmitView, crate::common::Span)>)
    requires
        grew(p0, p1, m, em),
    ensures
        stmt_emitted(p0.instructions@, p1.instructions@, lift(em)),
{
    let n0 = p0.instructions@.len();
    assert forall|k: int| 0 <= k < lift(em).len() implies stmt_shows((#[trigger] p1.instructions@[n0 + k]).kind, lift(em)[k].0)
        && p1.instructions@[n0 + k].span == lift(em)[k].1 by {
        assert(p1.instructions@[n0 + k] == p1.instructions@[n0 + k]);
    }
}

proof fn lemma_stmt_one(i0: Seq<Instruction>, ins: Instruction, e: StmtEmit, sp: Option<crate::common::Span>)
    requires
        stmt_shows(ins.kind, e),
        ins.span == sp,
    ensures
        stmt_emitted(i0, i0.push(ins), seq![(e, sp)]),
{
    assert(i0.push(ins).subrange(0, i0.len() as int) =~= i0);
    assert(i0.push(ins)[i0.len() + 0int] == ins);
}

/// The identifiers of the instructions, among those emitted after the
/// first `n0`, that `owners` gives to method `m`, in order.
pub open spec fn body_ids(owners: Seq<int>, n0: int, m: int) -> Seq<InstructionId>
    decreases owners.len(),
{
    if owners.len() == 0 {
        Seq::empty()
    } else {
        body_ids(owners.drop_last(), n0, m)
            + if owners.last() == m { seq![InstructionId((n0 + owners.len()) as u32)] } else { Seq::empty() }
    }
}

/// Whether the method bodies of `p1` are those of `p0` (empty for methods
/// added since) followed by the new instructions that `owners` gives them.
pub open spec fn bodies_grew(p0: Program, p1: Program, owners: Seq<int>) -> bool {
    &&& p1.instructions@.len() == p0.instructions@.len() + owners.len()
    &&& p1.methods@.len() >= p0.methods@.len()
    &&& forall|k: int| 0 <= k < owners.len() ==> 0 <= #[trigger] owners[k] <= p1.methods@.len()
    &&& forall|i: int| 0 <= i < p1.methods@.len() ==> (#[trigger] p1.methods@[i]).body@
        == (if i < p0.methods@.len() { p0.methods@[i].body@ } else { Seq::empty() })
            + body_ids(owners, p0.instructions@.len() as int, i + 1)
}

/// Whether a translator and a program stand where `w` says, after the
/// program `p0`.
spec fn at(t: Translator, p: Program, p0: Program, w: WalkOut) -> bool {
    &&& walk_state(t, p) == w.st
    &&& stmt_emitted(p0.instructions@, p.instructions@, w.emitted)
    &&& bodies_grew(p0, p, w.owners)
    &&& methods_made(p0, p, w.made)
}

/// The owner of method `cur` among `n` methods.
pub open spec fn owner_of(cur: Option<MethodId>, n: int) -> int {
    match cur {
        Some(m) => if 1 <= m.0 <= n { m.0 as int } else { 0 },
        None => 0,
    }
}

proof fn lemma_body_ids_add(a: Seq<int>, b: Seq<int>, n0: int, m: int)
    ensures
        body_ids(a + b, n0, m) == body_ids(a, n0, m) + body_ids(b, n0 + a.len(), m),
    decreases b.len(),
{
    if b.len() == 0 {
        assert(a + b =~= a);
        assert(body_ids(a, n0, m) + body_ids(b, n0 + a.len(), m) =~= body_ids(a, n0, m));
    } else {
        lemma_body_ids_add(a, b.drop_last(), n0, m);
        assert((a + b).drop_last() =~= a + b.drop_last());
        assert((a + b).last() == b.last());
        assert(body_ids(a + b, n0, m) =~= body_ids(a, n0, m) + body_ids(b, n0 + a.len(), m));
    }
}

proof fn lemma_body_ids_none(a: Seq<int>, n0: int, m: int)
    requires
        forall|k: int| 0 <= k < a.len() ==> #[trigger] a[k] != m,
    ensures
        body_ids(a, n0, m) == Seq::<InstructionId>::empty(),
    decreases a.len(),
{
    if a.len() > 0 {
        lemma_body_ids_none(a.drop_last(), n0, m);
        assert(a[a.len() - 1] != m);
        assert(body_ids(a, n0, m) =~= Seq::<InstructionId>::empty());
    }
}

pub(crate) proof fn lemma_bodies_refl(p: Program)
    ensures
        bodies_grew(p, p, Seq::empty()),
{
    assert forall|i: int| 0 <= i < p.methods@.len() implies (#[trigger] p.methods@[i]).body@
        == p.methods@[i].body@ + body_ids(Seq::empty(), p.instructions@.len() as int, i + 1) by {
        assert(p.methods@[i].body@ + Seq::<InstructionId>::empty() =~= p.methods@[i].body@);
    }
}

pub(crate) proof fn lemma_bodies_same(p0: Program, p1: Program)
    requires
        p1.methods == p0.methods,
        p1.instructions == p0.instructions,
    ensures
        bodies_grew(p0, p1, Seq::empty()),
{
    lemma_bodies_refl(p0);
}

pub(crate) proof fn lemma_bodies_trans(p0: Program, p1: Program, p2: Program, o1: Seq<int>, o2: Seq<int>)
    requires
        bodies_grew(p0, p1, o1),
        bodies_grew(p1, p2, o2),
    ensures
        bodies_grew(p0, p2, o1 + o2),
{
    let n0 = p0.instructions@.len() as int;
    let o = o1 + o2;
    assert forall|k: int| 0 <= k < o.len() implies 0 <= #[trigger] o[k] <= p2.methods@.len() by {
        if k < o1.len() { assert(o[k] == o1[k]); } else { assert(o[k] == o2[k - o1.len()]); }
    }
    assert forall|i: int| 0 <= i < p2.methods@.len() implies (#[trigger] p2.methods@[i]).body@
        == (if i < p0.methods@.len() { p0.methods@[i].body@ } else { Seq::empty() }) + body_ids(o, n0, i + 1) by {
        lemma_body_ids_add(o1, o2, n0, i + 1);
        if i < p1.methods@.len() {
            assert(p1.methods@[i].body@ == p1.methods@[i].body@);
        } else {
            assert forall|k: int| 0 <= k < o1.len() implies #[trigger] o1[k] != i + 1 by {
                assert(o1[k] <= p1.methods@.len());
            }
            lemma_body_ids_none(o1, n0, i + 1);
        }
    }
}

pub(crate) proof fn lemma_bodies_emit(p0: Program, p1: Program, cur: Option<MethodId>)
    requires
        p0.wf(),
        cur is Some,
        p1.instructions@.len() == p0.instructions@.len() + 1,
        p1.methods@.len() == p0.methods@.len(),
        forall|i: int| #![trigger p1.methods@[i]] 0 <= i < p0.methods@.len() ==>
            p1.methods@[i].body@ == if p0.methods@[i].id == cur->0 {
                p0.methods@[i].body@.push(InstructionId((p0.instructions@.len() + 1) as u32))
            } else {
                p0.methods@[i].body@
            },
    ensures
        bodies_grew(p0, p1, seq![owner_of(cur, p0.methods@.len() as int)]),
{
    let o = seq![owner_of(cur, p0.methods@.len() as int)];
    let n0 = p0.instructions@.len() as int;
    assert(o.drop_last() =~= Seq::<int>::empty());
    assert(o.last() == owner_of(cur, p0.methods@.len() as int));
    assert forall|i: int| 0 <= i < p1.methods@.len() implies (#[trigger] p1.methods@[i]).body@
        == p0.methods@[i].body@ + body_ids(o, n0, i + 1) by {
        assert(p0.methods@[i].id.0 == i + 1);
        assert(body_ids(Seq::<int>::empty(), n0, i + 1) =~= Seq::<InstructionId>::empty());
        assert(body_ids(o, n0, i + 1) == body_ids(o.drop_last(), n0, i + 1)
            + if o.last() == i + 1 { seq![InstructionId((n0 + o.len()) as u32)] } else { Seq::empty() });
        if p0.methods@[i].id == cur->0 {
            assert(body_ids(o, n0, i + 1) =~= seq![InstructionId((n0 + 1) as u32)]);
            assert(p0.methods@[i].body@.push(InstructionId((n0 + 1) as u32)) =~= p0.methods@[i].body@ + seq![InstructionId((n0 + 1) as u32)]);
        } else {
            assert(body_ids(o, n0, i + 1) =~= Seq::<InstructionId>::empty());
            assert(p0.methods@[i].body@ + Seq::<InstructionId>::empty() =~= p0.methods@[i].body@);
        }
    }
}

pub(crate) proof fn lemma_bodies_from_grew(p0: Program, p1: Program, m: MethodId, em: Seq<(EmitView, crate::common::Span)>)
    requires
        p0.wf(),
        grew(p0, p1, m, em),
    ensures
        bodies_grew(p0, p1, Seq::new(em.len(), |_k: int| owner_of(Some(m), p0.methods@.len() as int))),
    decreases em.len(),
{
    let w = owner_of(Some(m), p0.methods@.len() as int);
    let o = Seq::new(em.len(), |_k: int| w);
    let n0 = p0.instructions@.len() as int;
    assert forall|i: int| 0 <= i < p1.methods@.len() implies (#[trigger] p1.methods@[i]).body@
        == p0.methods@[i].body@ + body_ids(o, n0, i + 1) by {
        assert(p0.methods@[i].id.0 == i + 1);
        lemma_body_ids_const(em.len() as int, w, n0, i + 1);
        if p0.methods@[i].id == m {
            assert(w == i + 1);
        } else {
            assert(w != i + 1);
            assert(p0.methods@[i].body@ + Seq::<InstructionId>::empty() =~= p0.methods@[i].body@);
        }
    }
}

proof fn lemma_body_ids_const(n: int, w: int, n0: int, m: int)
    requires
        n >= 0,
    ensures
        body_ids(Seq::new(n as nat, |_k: int| w), n0, m) == if w == m { new_ids(n0, n) } else { Seq::<InstructionId>::empty() },
    decreases n,
{
    let o = Seq::new(n as nat, |_k: int| w);
    if n > 0 {
        lemma_body_ids_const(n - 1, w, n0, m);
        assert(o.drop_last() =~= Seq::new((n - 1) as nat, |_k: int| w));
        if w == m {
            assert(new_ids(n0, n) =~= new_ids(n0, n - 1) + seq![InstructionId((n0 + n) as u32)]);
        }
        assert(body_ids(o, n0, m) =~= (if w == m { new_ids(n0, n) } else { Seq::<InstructionId>::empty() }));
    } else {
        assert(o =~= Seq::<int>::empty());
        assert(new_ids(n0, 0) =~= Seq::<InstructionId>::empty());
    }
}

pub(crate) proof fn lemma_bodies_alloc(p0: Program, p1: Program)
    requires
        p1.methods@.len() == p0.methods@.len() + 1,
        p1.methods@.drop_last() == p0.methods@,
        p1.methods@.last().body@.len() == 0,
        p1.instructions == p0.instructions,
    ensures
        bodies_grew(p0, p1, Seq::empty()),
{
    assert forall|i: int| 0 <= i < p1.methods@.len() implies (#[trigger] p1.methods@[i]).body@
        == (if i < p0.methods@.len() { p0.methods@[i].body@ } else { Seq::empty() }) + body_ids(Seq::empty(), p0.instructions@.len() as int, i + 1) by {
        if i < p0.methods@.len() {
            assert(p1.methods@.drop_last()[i] == p1.methods@[i]);
            assert(p0.methods@[i].body@ + Seq::<InstructionId>::empty() =~= p0.methods@[i].body@);
        } else {
            assert(p1.methods@[i].body@ =~= Seq::<InstructionId>::empty());
            assert(Seq::<InstructionId>::empty() + Seq::<InstructionId>::empty() =~= Seq::<InstructionId>::empty());
        }
    }
}

/// Whether no node of the tree `n` is a function definition.
pub open spec fn no_function(n: crate::parser::CstView) -> bool
    decreases n, 1int,
{
    n.kind != "FunctionDefinition"@ && none_function(n.children, n.children.len() as int)
}

/// Whether no node of the first `k` trees of `cs` is a function definition.
pub open spec fn none_function(cs: Seq<crate::parser::CstView>, k: int) -> bool
    decreases cs, k,
{
    if k <= 0 || k > cs.len() {
        true
    } else {
        none_function(cs, k - 1) && no_function(cs[k - 1])
    }
}

/// Walking a tree outside any method, where no function is defined, emits
/// nothing and leaves no method current.
pub proof fn law_walk_outside_methods(info: SemanticInfo, st: WalkState, n: crate::parser::CstView)
    requires
        !st.has_method,
        no_function(n),
    ensures
        walk_of(info, st, n).emitted.len() == 0,
        walk_of(info, st, n).owners.len() == 0,
        !walk_of(info, st, n).st.has_method,
    decreases n, 1int,
{
    let len = n.children.len() as int;
    if n.kind == "ClassDefinition"@ {
        if st.types < 0xffff_fff0 {
            lemma_list_outside_methods(info, begin(WalkState { types: st.types + 1, ..st }), n.children, len, false);
        }
    } else if n.kind == "AssignmentExpression"@ || n.kind == "ReturnStatement"@ || n.kind == "IfStatement"@
        || n.kind == "WhileStatement"@ || n.kind == "CallExpression"@ {
    } else {
        lemma_list_outside_methods(info, begin(st), n.children, len, false);
    }
}

proof fn lemma_list_outside_methods(info: SemanticInfo, prev: WalkOut, cs: Seq<crate::parser::CstView>, k: int, skip: bool)
    requires
        !prev.st.has_method,
        prev.emitted.len() == 0,
        prev.owners.len() == 0,
        none_function(cs, k),
    ensures
        walk_list(info, prev, cs, k, skip).emitted.len() == 0,
        walk_list(info, prev, cs, k, skip).owners.len() == 0,
        !walk_list(info, prev, cs, k, skip).st.has_method,
    decreases cs, k,
{
    if k > 0 && k <= cs.len() {
        lemma_list_outside_methods(info, prev, cs, k - 1, skip);
        let p = walk_list(info, prev, cs, k - 1, skip);
        assert(walk_list(info, prev, cs, k, skip) == (if skip && cs[k - 1].kind == "parameters"@ { p } else { walk_out(info, p, cs[k - 1]) }));
        if p.ok {
            law_walk_outside_methods(info, p.st, cs[k - 1]);
            let w = walk_of(info, p.st, cs[k - 1]);
            assert(p.emitted + w.emitted =~= Seq::<(StmtEmit, Option<crate::common::Span>)>::empty());
            assert(p.owners + w.owners =~= Seq::<int>::empty());
        }
    }
}

proof fn lemma_walk_list_failed(info: SemanticInfo, prev: WalkOut, cs: Seq<crate::parser::CstView>, k: int, j: int, skip: bool)
    requires
        1 <= k <= j <= cs.len(),
        !walk_list(info, prev, cs, k, skip).ok,
    ensures
        walk_list(info, prev, cs, j, skip) == walk_list(info, prev, cs, k, skip),
    decreases j - k,
{
    if j > k {
        lemma_walk_list_failed(info, prev, cs, k, j - 1, skip);
        let p = walk_list(info, prev, cs, j - 1, skip);
        assert(walk_out(info, p, cs[j - 1]) == p);
    }
}

impl<'a> Translator<'a> {
    /// The next temporary: the counter, which then goes up by one; an error,
    /// changing nothing, when it is at its largest.
    fn next_temp(&mut self) -> (r: Result<u32, String>)
        ensures
            final(self).semantic_info == old(self).semantic_info,
            final(self).module_id == old(self).module_id,
            final(self).current_method_id == old(self).current_method_id,
            final(self).current_class_id == old(self).current_class_id,
            final(self).label_counter == old(self).label_counter,
            match r {
                Ok(t) => t == old(self).temp_counter && final(self).temp_counter == old(self).temp_counter + 1,
                Err(_) => old(self).temp_counter == u32::MAX && final(self).temp_counter == old(self).temp_counter,
            },
    {
        if self.temp_counter == u32::MAX {
            return Err(String::from_str("too many temporaries"));
        }
        let t = self.temp_counter;
        self.temp_counter = self.temp_counter + 1;
        Ok(t)
    }

    /// The next label: the counter, which then goes up by one; an error,
    /// changing nothing, when it is at its largest.
    fn next_label(&mut self) -> (r: Result<Label, String>)
        ensures
            final(self).semantic_info == old(self).semantic_info,
            final(self).module_id == old(self).module_id,
            final(self).current_method_id == old(self).current_method_id,
            final(self).current_class_id == old(self).current_class_id,
            final(self).temp_counter == old(self).temp_counter,
            match r {
                Ok(l) => l == Label(old(self).label_counter) && final(self).label_counter == old(self).label_counter + 1,
                Err(_) => old(self).label_counter == u32::MAX && final(self).label_counter == old(self).label_counter,
            },
    {
        if self.label_counter == u32::MAX {
            return Err(String::from_str("too many labels"));
        }
        let l = self.label_counter;
        self.label_counter = self.label_counter + 1;
        Ok(Label(l))
    }

    /// Emits an instruction into the current method, if there is one:
    /// without a current method nothing changes; otherwise the instruction
    /// is added and appended to the method's body, or, when identifiers
    /// would run out, nothing changes and the result is an error.
    fn emit_here(&self, program: &mut Program, kind: InstructionKind, span: Option<crate::common::Span>) -> (r: Result<(), String>)
        requires
            old(program).wf(),
            old(program).bodies_known(),
        ensures
            final(program).wf(),
            final(program).bodies_known(),
            final(program).modules == old(program).modules,
            final(program).types == old(program).types,
            final(program).methods@.len() == old(program).methods@.len(),
            names_kept(*old(program), *final(program)),
            self.current_method_id is None ==> r is Ok && *final(program) == *old(program),
            self.current_method_id is Some ==> (r is Ok <==> old(program).instructions@.len() + 2 < u32::MAX),
            r is Err ==> *final(program) == *old(program),
            self.current_method_id is Some && r is Ok ==> {
                &&& final(program).instructions@ == old(program).instructions@.push(Instruction {
                    id: InstructionId((old(program).instructions@.len() + 1) as u32),
                    kind,
                    span,
                })
                &&& final(program).methods@.len() == old(program).methods@.len()
                &&& forall|i: int| #![trigger final(program).methods@[i]] 0 <= i < old(program).methods@.len() ==>
                    final(program).methods@[i].id == old(program).methods@[i].id
                &&& forall|i: int| #![trigger final(program).methods@[i]] 0 <= i < old(program).methods@.len() ==>
                    final(program).methods@[i].body@ == if old(program).methods@[i].id == self.current_method_id->0 {
                        old(program).methods@[i].body@.push(InstructionId((old(program).instructions@.len() + 1) as u32))
                    } else {
                        old(program).methods@[i].body@
                    }
            },
    {
        match self.current_method_id {
            Some(method_id) => {
                if program.emit(method_id, kind, span) {
                    Ok(())
                } else {
                    Err(String::from_str("too many instructions"))
                }
            },
            None => Ok(()),
        }
    }

    /// Lowers an expression, emitting what computes it, and returns the
    /// operand that holds its value.
    fn lower_expr(&mut self, node: &SimpleCstNode, program: &mut Program) -> (r: Result<Operand, String>)
        requires
            old(program).wf(),
            old(program).bodies_known(),
            old(self).semantic_info.wf(),
        ensures
            final(program).wf(),
            final(program).bodies_known(),
            final(program).modules == old(program).modules,
            final(program).types == old(program).types,
            final(program).methods@.len() == old(program).methods@.len(),
            final(self).semantic_info == old(self).semantic_info,
            final(self).module_id == old(self).module_id,
            final(self).current_method_id == old(self).current_method_id,
            final(self).current_class_id == old(self).current_class_id,
            final(self).label_counter == old(self).label_counter,
            ({
                let out = lower_of(*old(self).semantic_info, old(self).current_method_id is Some,
                    old(program).instructions@.len() as int, old(self).temp_counter as int, node@);
                &&& final(self).temp_counter == out.temp
                &&& lowered_into(*old(program), *final(program), old(self).current_method_id, out.emitted)
                &&& match out.result {
                    Ok(o) => (r matches Ok(x) && operand_view(x) == o),
                    Err(_) => r is Err,
                }
            }),
        decreases node,
    {
        let ghost info = *self.semantic_info;
        let ghost hm = self.current_method_id is Some;
        let ghost mid = self.current_method_id;
        let ghost count = program.instructions@.len() as int;
        let ghost t0 = self.temp_counter as int;
        let ghost p0 = *program;
        let ghost n = node@;
        proof {
            crate::semantic::lemma_cst_views_all(node.children@);
            lemma_lowered_refl(p0, mid);
        }
        let span = node.span;
        if kind_eq(node, "Identifier") {
            Ok(Operand::Var(trimmed(node.raw.as_str())))
        } else if kind_eq(node, "Literal") {
            let c = match literal_constant(node.raw.as_str()) {
                Ok(c) => c,
                Err(e) => {
                    return Err(e);
                },
            };
            Ok(Operand::Const(c))
        } else if kind_eq(node, "CallExpression") {
            let callee = extract_callee_name(node);
            proof {
                reveal_strlit("callee");
            }
            let is_alloc = match self.semantic_info.lookup(callee.as_str(), 0) {
                Some(sym) => sym.kind == SymbolKind::Class,
                None => false,
            };
            let mut args: Vec<Operand> = Vec::new();
            let mut p: usize = 0;
            while p < node.children.len() && !kind_eq(&node.children[p], "argument_list")
                invariant
                    p <= node.children@.len(),
                    forall|j: int| 0 <= j < p ==> (#[trigger] node.children@[j]).kind@ != "argument_list"@,
                decreases node.children.len() - p,
            {
                p = p + 1;
            }
            proof {
                lemma_first_kind(n.children, "argument_list"@, p as int);
            }
            let ghost mut em: Seq<(EmitView, crate::common::Span)> = Seq::empty();
            assert(operand_views(args@) =~= Seq::<OperandView>::empty());
            if p < node.children.len() {
                let arg_list = &node.children[p];
                let ghost cs = n.children[p as int].children;
                proof {
                    crate::semantic::lemma_cst_views_all(arg_list.children@);
                    assert(n.children[p as int] == arg_list@);
                }
                let mut k: usize = 0;
                assert(operand_views(args@) =~= Seq::<OperandView>::empty());
                while k < arg_list.children.len()
                    invariant
                        k <= arg_list.children@.len(),
                        p < node.children@.len(),
                        *arg_list == node.children@[p as int],
                        cs == crate::parser::cst_views(arg_list.children@),
                        cs.len() == arg_list.children@.len(),
                        forall|j: int| 0 <= j < arg_list.children@.len() ==> #[trigger] cs[j] == crate::parser::cst_view(arg_list.children@[j]),
                        program.wf(),
                        program.bodies_known(),
                        program.modules == old(program).modules,
                        program.types == old(program).types,
                        program.methods@.len() == old(program).methods@.len(),
                        self.semantic_info == old(self).semantic_info,
                        self.semantic_info.wf(),
                        self.module_id == old(self).module_id,
                        self.current_method_id == old(self).current_method_id,
                        self.current_class_id == old(self).current_class_id,
                        self.label_counter == old(self).label_counter,
                        info == *self.semantic_info,
                        hm == (self.current_method_id is Some),
                        mid == self.current_method_id,
                        p0 == *old(program),
                        count == p0.instructions@.len(),
                        t0 == old(self).temp_counter as int,
                        n == node@,
                        node.kind@ == "CallExpression"@ && node.kind@ != "Identifier"@ && node.kind@ != "Literal"@,
                        first_kind(n.children, "argument_list"@) == p as int,
                        n.children.len() == node.children@.len(),
                        cs == n.children[p as int].children,
                        callee@ == (if n.children.len() > 0 { trim(n.children[0].raw) } else { "callee"@ }),
                        is_alloc == (crate::semantic::lookup_from(info.scopes@, callee@, 0, (info.scopes@.len() + 1) as nat) matches Some(sym)
                            && sym.kind == SymbolKind::Class),
                        args_of(info, hm, count, t0, cs, k as int) == (em, self.temp_counter as int, Ok::<Seq<OperandView>, ()>(operand_views(args@))),
                        lowered_into(p0, *program, mid, em),
                        hm ==> program.instructions@.len() == count + em.len(),
                    decreases arg_list.children.len() - k,
                {
                    assert(decreases_to!(node => node.children@[p as int].children@[k as int]));
                    let ghost before = *program;
                    let ghost tk = self.temp_counter as int;
                    let ghost c = cs[k as int];
                    assert(c == arg_list.children@[k as int]@);
                    let res = self.lower_expr(&arg_list.children[k], program);
                    proof {
                        assert(after(hm, count, em.len() as int) == before.instructions@.len() as int);
                        let o = lower_of(info, hm, before.instructions@.len() as int, tk, c);
                        lemma_lowered_trans(p0, before, *program, mid, em, o.emitted);
                        em = em + o.emitted;
                    }
                    let a = match res {
                        Ok(a) => a,
                        Err(e) => {
                            proof {
                                lemma_args_err_stable(info, hm, count, t0, cs, k + 1, cs.len() as int);
                            }
                            return Err(e);
                        },
                    };
                    let ghost prev_views = operand_views(args@);
                    args.push(a);
                    assert(operand_views(args@) =~= prev_views.push(operand_view(a)));
                    k = k + 1;
                }
            }
            let t = match self.next_temp() {
                Ok(t) => t,
                Err(e) => {
                    return Err(e);
                },
            };
            let ghost before = *program;
            let kind = if is_alloc {
                InstructionKind::Alloc { dest: Operand::Temp(t), class_name: callee }
            } else {
                InstructionKind::Call { dest: Some(Operand::Temp(t)), callee, args }
            };
            let ghost gk = kind;
            let ghost e = if is_alloc { EmitView::Alloc(dest_of(t as int), callee@) } else { EmitView::Call(dest_of(t as int), callee@, operand_views(args@)) };
            assert(kind_shows(gk, e));
            match self.emit_here(program, kind, Some(span)) {
                Ok(()) => {},
                Err(e) => {
                    return Err(e);
                },
            }
            proof {
                assert(em.push((e, span)) =~= em + seq![(e, span)]);
                if let Some(m) = mid {
                    lemma_grew_one(before, *program, m, gk, span, e);
                    lemma_grew_trans(p0, before, *program, m, em, seq![(e, span)]);
                }
            }
            Ok(Operand::Temp(t))
        } else if kind_eq(node, "attribute") {
            if node.children.len() == 0 {
                return Err(String::from_str("Missing base in attribute"));
            }
            assert(decreases_to!(node => node.children@[0]));
            assert(n.children[0] == node.children@[0]@);
            let base_op = match self.lower_expr(&node.children[0], program) {
                Ok(b) => b,
                Err(e) => {
                    return Err(e);
                },
            };
            let ghost em = lower_of(info, hm, count, t0, n.children[0]).emitted;
            let field_name = match find_child_identifier(node) {
                Some(f) => f,
                None => {
                    proof {
                        crate::semantic::lemma_first_identifier(n.children, n.children.len() as int);
                    }
                    return Err(String::from_str("Missing field in attribute"));
                },
            };
            proof {
                let i = choose|i: int| 0 <= i < node.children@.len() && (#[trigger] node.children@[i]).kind@ == "Identifier"@
                    && field_name@ == trim(node.children@[i].raw@)
                    && forall|j: int| 0 <= j < i ==> (#[trigger] node.children@[j]).kind@ != "Identifier"@;
                crate::semantic::lemma_first_identifier(n.children, i);
            }
            let t = match self.next_temp() {
                Ok(t) => t,
                Err(e) => {
                    return Err(e);
                },
            };
            let ghost before = *program;
            let kind = InstructionKind::HeapLoad { dest: Operand::Temp(t), base: base_op, field: field_name };
            let ghost gk = kind;
            let ghost e = EmitView::Load(dest_of(t as int), operand_view(base_op), field_name@);
            match self.emit_here(program, kind, Some(span)) {
                Ok(()) => {},
                Err(e) => {
                    return Err(e);
                },
            }
            proof {
                assert(em.push((e, span)) =~= em + seq![(e, span)]);
                if let Some(m) = mid {
                    lemma_grew_one(before, *program, m, gk, span, e);
                    lemma_grew_trans(p0, before, *program, m, em, seq![(e, span)]);
                }
            }
            Ok(Operand::Temp(t))
        } else if kind_eq(node, "binary_operator") || kind_eq(node, "comparison_operator") {
            if node.children.len() == 0 {
                return Err(String::from_str("Missing left operand in binop"));
            }
            if node.children.len() < 2 {
                return Err(String::from_str("Missing right operand in binop"));
            }
            let rhs_index: usize = if node.children.len() >= 3 { 2 } else { 1 };
            let op = if node.children.len() >= 3 {
                trimmed(node.children[1].raw.as_str())
            } else {
                String::from_str("+")
            };
            proof {
                reveal_strlit("+");
                if node.children@.len() >= 3 {
                    assert(n.children[1] == node.children@[1]@);
                }
                assert(n.children[0] == node.children@[0]@);
                assert(n.children[rhs_index as int] == node.children@[rhs_index as int]@);
            }
            assert(decreases_to!(node => node.children@[0]));
            let lhs = match self.lower_expr(&node.children[0], program) {
                Ok(l) => l,
                Err(e) => {
                    return Err(e);
                },
            };
            let ghost l = lower_of(info, hm, count, t0, n.children[0]);
            let ghost mid_prog = *program;
            assert(after(hm, count, l.emitted.len() as int) == program.instructions@.len() as int);
            assert(decreases_to!(node => node.children@[rhs_index as int]));
            let rhs_res = self.lower_expr(&node.children[rhs_index], program);
            let ghost rr = lower_of(info, hm, after(hm, count, l.emitted.len() as int), l.temp, n.children[rhs_index as int]);
            proof {
                lemma_lowered_trans(p0, mid_prog, *program, mid, l.emitted, rr.emitted);
            }
            let rhs = match rhs_res {
                Ok(x) => x,
                Err(e) => {
                    return Err(e);
                },
            };
            let t = match self.next_temp() {
                Ok(t) => t,
                Err(e) => {
                    return Err(e);
                },
            };
            let ghost before = *program;
            let kind = InstructionKind::BinaryOp { dest: Operand::Temp(t), op, lhs, rhs };
            let ghost gk = kind;
            let ghost e = EmitView::BinOp(dest_of(t as int), op@, operand_view(lhs), operand_view(rhs));
            match self.emit_here(program, kind, Some(span)) {
                Ok(()) => {},
                Err(e) => {
                    return Err(e);
                },
            }
            proof {
                assert((l.emitted + rr.emitted).push((e, span)) =~= (l.emitted + rr.emitted) + seq![(e, span)]);
                if let Some(m) = mid {
                    lemma_grew_one(before, *program, m, gk, span, e);
                    lemma_grew_trans(p0, before, *program, m, l.emitted + rr.emitted, seq![(e, span)]);
                }
            }
            Ok(Operand::Temp(t))
        } else {
            if node.children.len() > 0 {
                assert(decreases_to!(node => node.children@[0]));
                assert(n.children[0] == node.children@[0]@);
                self.lower_expr(&node.children[0], program)
            } else {
                Ok(Operand::Const(Constant::Null))
            }
        }
    }

    /// Lowers the statements of a subtree into the current method, opening
    /// types for classes and methods for functions.
    fn walk_node(&mut self, node: &SimpleCstNode, program: &mut Program) -> (r: Result<(), String>)
        requires
            old(program).wf(),
            old(program).bodies_known(),
            old(self).semantic_info.wf(),
        ensures
            final(program).wf(),
            final(program).bodies_known(),
            modules_kept(*old(program), *final(program)),
            final(self).semantic_info == old(self).semantic_info,
            final(self).module_id == old(self).module_id,
            r is Ok ==> final(self).current_class_id == old(self).current_class_id
                && final(self).current_method_id == old(self).current_method_id,
            ({
                let out = walk_of(*old(self).semantic_info, walk_state(*old(self), *old(program)), node@);
                &&& at(*final(self), *final(program), *old(program), out)
                &&& (r is Ok) == out.ok
            }),
        decreases node, 2nat,
    {
        if kind_eq(node, "ClassDefinition") {
            self.walk_class(node, program)
        } else if kind_eq(node, "FunctionDefinition") {
            self.walk_function(node, program)
        } else if kind_eq(node, "AssignmentExpression") {
            self.walk_assign(node, program)
        } else if kind_eq(node, "ReturnStatement") {
            self.walk_return(node, program)
        } else if kind_eq(node, "IfStatement") {
            self.walk_if(node, program)
        } else if kind_eq(node, "WhileStatement") {
            self.walk_while(node, program)
        } else if kind_eq(node, "CallExpression") {
            self.walk_call(node, program)
        } else {
            self.walk_children(node, program, false)
        }
    }

    /// Lowers a class definition: a new type, current while its children are walked.
    #[verifier::rlimit(60)]
    #[verifier::spinoff_prover]
    fn walk_class(&mut self, node: &SimpleCstNode, program: &mut Program) -> (r: Result<(), String>)
        requires
            old(program).wf(),
            old(program).bodies_known(),
            old(self).semantic_info.wf(),
            node.kind@ == "ClassDefinition"@,
        ensures
            final(program).wf(),
            final(program).bodies_known(),
            modules_kept(*old(program), *final(program)),
            final(self).semantic_info == old(self).semantic_info,
            final(self).module_id == old(self).module_id,
            r is Ok ==> final(self).current_class_id == old(self).current_class_id
                && final(self).current_method_id == old(self).current_method_id,
            ({
                let out = class_walk(*old(self).semantic_info, walk_state(*old(self), *old(program)), node@);
                &&& at(*final(self), *final(program), *old(program), out)
                &&& (r is Ok) == out.ok
            }),
        decreases node, 1nat,
    {
        let ghost info = *self.semantic_info;
        let ghost i0 = program.instructions@;
        let ghost p0 = *program;
        let ghost n = node@;
        let ghost start = begin(walk_state(*self, *program));
        let ghost mid = self.current_method_id;
        proof {
            crate::semantic::lemma_cst_views_all(node.children@);
            lemma_stmt_refl(i0);
            lemma_bodies_refl(p0);
            lemma_made_refl(p0);
        }
        let class_name = match find_child_identifier(node) {
            Some(n) => n,
            None => String::from_str("UnknownClass"),
        };
        let parent_class = find_parent_class(node);
        if program.types.len() >= 0xffff_fff0 {
            return Err(String::from_str("too many types"));
        }
        let class_id = program.alloc_type(class_name, parent_class, self.module_id);
        let prev_class = self.current_class_id;
        self.current_class_id = Some(class_id);
        let res = self.walk_children(node, program, false);
        match res {
            Ok(()) => {},
            Err(e) => {
                return Err(e);
            },
        }
        self.current_class_id = prev_class;
        Ok(())
    }

    /// Lowers a function definition: a new method, current while its children
    /// (but its parameter list) are walked.
    #[verifier::rlimit(60)]
    #[verifier::spinoff_prover]
    fn walk_function(&mut self, node: &SimpleCstNode, program: &mut Program) -> (r: Result<(), String>)
        requires
            old(program).wf(),
            old(program).bodies_known(),
            old(self).semantic_info.wf(),
            node.kind@ == "FunctionDefinition"@,
        ensures
            final(program).wf(),
            final(program).bodies_known(),
            modules_kept(*old(program), *final(program)),
            final(self).semantic_info == old(self).semantic_info,
            final(self).module_id == old(self).module_id,
            r is Ok ==> final(self).current_class_id == old(self).current_class_id
                && final(self).current_method_id == old(self).current_method_id,
            ({
                let out = function_walk(*old(self).semantic_info, walk_state(*old(self), *old(program)), node@);
                &&& at(*final(self), *final(program), *old(program), out)
                &&& (r is Ok) == out.ok
            }),
        decreases node, 1nat,
    {
        let ghost info = *self.semantic_info;
        let ghost i0 = program.instructions@;
        let ghost p0 = *program;
        let ghost n = node@;
        let ghost start = begin(walk_state(*self, *program));
        let ghost mid = self.current_method_id;
        proof {
            crate::semantic::lemma_cst_views_all(node.children@);
            lemma_stmt_refl(i0);
            lemma_bodies_refl(p0);
            lemma_made_refl(p0);
        }
        let func_name = match find_child_identifier(node) {
            Some(f) => {
                proof {
                    let i = choose|i: int| 0 <= i < node.children@.len()
                        && (#[trigger] node.children@[i]).kind@ == "Identifier"@
                        && f@ == trim(node.children@[i].raw@)
                        && forall|j: int| 0 <= j < i ==> (#[trigger] node.children@[j]).kind@ != "Identifier"@;
                    crate::semantic::lemma_first_identifier(node@.children, i);
                }
                f
            },
            None => {
                proof { crate::semantic::lemma_first_identifier(node@.children, node@.children.len() as int); }
                String::from_str("unknown_func")
            },
        };
        assert(func_name@ == fname_of(node@));
        let mut params: Vec<String> = Vec::new();
        let mut p: usize = 0;
        while p < node.children.len() && !kind_eq(&node.children[p], "parameters")
            invariant
                p <= node.children@.len(),
                forall|j: int| 0 <= j < p ==> (#[trigger] node.children@[j]).kind@ != "parameters"@,
            decreases node.children.len() - p,
        {
            p = p + 1;
        }
        proof {
            assert forall|j: int| 0 <= j < p implies node@.children[j].kind != "parameters"@ by {
                assert(node@.children[j] == node.children@[j]@);
            }
            if p < node.children@.len() {
                assert(node@.children[p as int] == node.children@[p as int]@);
            }
            lemma_first_kind(node@.children, "parameters"@, p as int);
        }
        if p < node.children.len() {
            let params_node = &node.children[p];
            proof { crate::semantic::lemma_cst_views_all(params_node.children@); }
            let mut k: usize = 0;
            assert(params_node@.children.take(0) =~= Seq::<crate::parser::CstView>::empty());
            assert(param_views(params@) =~= Seq::<Seq<char>>::empty());
            while k < params_node.children.len()
                invariant
                    k <= params_node.children@.len(),
                    params_node@.children.len() == params_node.children@.len(),
                    forall|j: int| 0 <= j < params_node.children@.len() ==> #[trigger] params_node@.children[j] == params_node.children@[j]@,
                    param_views(params@) == idents(params_node@.children.take(k as int)),
                decreases params_node.children.len() - k,
            {
                let ghost pv = params@;
                let ghost cs = params_node@.children;
                assert(cs.take(k + 1int).drop_last() =~= cs.take(k as int));
                assert(cs.take(k + 1int).last() == params_node.children@[k as int]@);
                if kind_eq(&params_node.children[k], "Identifier") {
                    params.push(trimmed(params_node.children[k].raw.as_str()));
                    assert(param_views(params@) =~= param_views(pv) + seq![trim(params_node.children@[k as int].raw@)]);
                } else {
                    assert(param_views(params@) =~= param_views(pv) + Seq::<Seq<char>>::empty());
                }
                k = k + 1;
            }
            assert(params_node@.children.take(params_node@.children.len() as int) =~= params_node@.children);
            assert(node@.children[p as int] == params_node@);
        } else {
            assert(param_views(params@) =~= Seq::<Seq<char>>::empty());
        }
        assert(param_views(params@) == params_of(node@));
        if program.methods.len() >= 0xffff_fff0 {
            return Err(String::from_str("too many methods"));
        }
        let ghost pb = *program;
        let ghost entry = (fname_of(node@), params_of(node@));
        let method_id = program.alloc_method(func_name, self.current_class_id, params, Some(self.module_id));
        assert forall|a: int, b: int| #![trigger program.methods@[a].body@[b]] 0 <= a < program.methods@.len() && 0 <= b < program.methods@[a].body@.len()
            implies program.instruction_index(program.methods@[a].body@[b]) is Some by {
            assert(program.methods@.drop_last()[a] == program.methods@[a]);
        }
        proof {
            assert forall|i: int| 0 <= i < pb.methods@.len() implies {
                &&& (#[trigger] program.methods@[i]).name == pb.methods@[i].name
                &&& program.methods@[i].parameters@ == pb.methods@[i].parameters@
            } by {
                assert(program.methods@.drop_last()[i] == program.methods@[i]);
            }
            assert(program.methods@[pb.methods@.len() + 0int] == program.methods@.last());
            assert(methods_made(pb, *program, seq![entry]));
        }
        let ghost pa = *program;
        let prev_method = self.current_method_id;
        self.current_method_id = Some(method_id);
        self.temp_counter = 1;
        let ghost tb = *self;
        let res = self.walk_children(node, program, true);
        proof {
            let inner = walk_list(*tb.semantic_info, begin(walk_state(tb, pa)), node@.children, node@.children.len() as int, true);
            lemma_made_trans(p0, pa, *program, seq![entry], inner.made);
        }
        match res {
            Ok(()) => {},
            Err(e) => {
                return Err(e);
            },
        }
        self.current_method_id = prev_method;
        Ok(())
    }

    /// Lowers an assignment inside a method.
    #[verifier::rlimit(60)]
    #[verifier::spinoff_prover]
    fn walk_assign(&mut self, node: &SimpleCstNode, program: &mut Program) -> (r: Result<(), String>)
        requires
            old(program).wf(),
            old(program).bodies_known(),
            old(self).semantic_info.wf(),
            node.kind@ == "AssignmentExpression"@,
        ensures
            final(program).wf(),
            final(program).bodies_known(),
            modules_kept(*old(program), *final(program)),
            final(self).semantic_info == old(self).semantic_info,
            final(self).module_id == old(self).module_id,
            r is Ok ==> final(self).current_class_id == old(self).current_class_id
                && final(self).current_method_id == old(self).current_method_id,
            ({
                let out = assign_walk(*old(self).semantic_info, walk_state(*old(self), *old(program)), node@);
                &&& at(*final(self), *final(program), *old(program), out)
                &&& (r is Ok) == out.ok
            }),
        decreases node, 1nat,
    {
        let ghost info = *self.semantic_info;
        let ghost i0 = program.instructions@;
        let ghost p0 = *program;
        let ghost n = node@;
        let ghost start = begin(walk_state(*self, *program));
        let ghost mid = self.current_method_id;
        proof {
            crate::semantic::lemma_cst_views_all(node.children@);
            lemma_stmt_refl(i0);
            lemma_bodies_refl(p0);
            lemma_made_refl(p0);
        }
        if self.current_method_id.is_some() {
            if node.children.len() == 0 {
                return Err(String::from_str("Missing LHS in assignment"));
            }
            if node.children.len() < 2 {
                return Err(String::from_str("Missing RHS in assignment"));
            }
            let rhs_index: usize = if node.children.len() >= 3 { 2 } else { 1 };
            assert(decreases_to!(node => node.children@[rhs_index as int]));
            assert(n.children[rhs_index as int] == node.children@[rhs_index as int]@);
        let ghost bt_rhs_op = *self;
        let ghost bp_rhs_op = *program;
        let res_rhs_op = self.lower_expr(&node.children[rhs_index], program);
        let ghost a = expr_out(info, start, node.children@[rhs_index as int]@);
        let ghost rv = expr_val(info, start, node.children@[rhs_index as int]@);
        proof {
            let o = lower_of(info, true, bp_rhs_op.instructions@.len() as int, bt_rhs_op.temp_counter as int, node.children@[rhs_index as int]@);
            lemma_stmt_from_grew(bp_rhs_op, *program, mid->0, o.emitted);
            lemma_stmt_trans(i0, bp_rhs_op.instructions@, program.instructions@, start.emitted, lift(o.emitted));
                lemma_bodies_from_grew(bp_rhs_op, *program, mid->0, o.emitted);
                lemma_bodies_trans(p0, bp_rhs_op, *program, start.owners, Seq::new(o.emitted.len(), |_k: int| owner_of(Some(mid->0), bp_rhs_op.methods@.len() as int)));
                lemma_made_keep(p0, bp_rhs_op, *program, start.made);
                assert(Seq::new(o.emitted.len(), |_k: int| owner_of(Some(mid->0), bp_rhs_op.methods@.len() as int)) =~= Seq::new(o.emitted.len(), |_k: int| owner(start.st)));
        }
        let rhs_op = match res_rhs_op {
            Ok(x) => x,
            Err(e) => {
                return Err(e);
            },
        };
        assert(operand_view(rhs_op) == rv);
            let span = Some(node.span);
            let lhs = &node.children[0];
            assert(n.children[0] == lhs@);
            if kind_eq(lhs, "Identifier") {
                let dest = Operand::Var(trimmed(lhs.raw.as_str()));
        let ghost bp_d = *program;
        let kind_d = InstructionKind::Assign { dest, src: rhs_op };
        let ghost gk_d = kind_d;
        assert(stmt_shows(gk_d, StmtEmit::Copy(trim(lhs@.raw), rv)));
        let res_d = self.emit_here(program, kind_d, span);
        let ghost d = emit_out(a, StmtEmit::Copy(trim(lhs@.raw), rv), Some(n.span));
        proof {
            if res_d is Ok {
                lemma_stmt_one(bp_d.instructions@, program.instructions@.last(), StmtEmit::Copy(trim(lhs@.raw), rv), Some(n.span));
                assert(program.instructions@ =~= bp_d.instructions@.push(program.instructions@.last()));
                lemma_stmt_trans(i0, bp_d.instructions@, program.instructions@, a.emitted, seq![(StmtEmit::Copy(trim(lhs@.raw), rv), Some(n.span))]);
                    lemma_bodies_emit(bp_d, *program, self.current_method_id);
                    lemma_bodies_trans(p0, bp_d, *program, a.owners, seq![owner_of(self.current_method_id, bp_d.methods@.len() as int)]);
                    lemma_made_keep(p0, bp_d, *program, a.made);
                    assert(a.owners + seq![owner(a.st)] =~= a.owners.push(owner(a.st)));
                assert(a.emitted + seq![(StmtEmit::Copy(trim(lhs@.raw), rv), Some(n.span))] =~= a.emitted.push((StmtEmit::Copy(trim(lhs@.raw), rv), Some(n.span))));
            }
        }
        match res_d {
            Ok(()) => {},
            Err(e) => {
                return Err(e);
            },
        }
            } else if kind_eq(lhs, "attribute") {
                if lhs.children.len() == 0 {
                    return Err(String::from_str("Missing base in attribute assignment"));
                }
                assert(decreases_to!(node => node.children@[0].children@[0]));
                proof {
                    crate::semantic::lemma_cst_views_all(lhs.children@);
                }
                assert(lhs@.children[0] == lhs.children@[0]@);
        let ghost bt_base_op = *self;
        let ghost bp_base_op = *program;
        let res_base_op = self.lower_expr(&lhs.children[0], program);
        let ghost b = expr_out(info, a, (&lhs.children[0])@);
        let ghost bv = expr_val(info, a, (&lhs.children[0])@);
        proof {
            let o = lower_of(info, true, bp_base_op.instructions@.len() as int, bt_base_op.temp_counter as int, (&lhs.children[0])@);
            lemma_stmt_from_grew(bp_base_op, *program, mid->0, o.emitted);
            lemma_stmt_trans(i0, bp_base_op.instructions@, program.instructions@, a.emitted, lift(o.emitted));
                lemma_bodies_from_grew(bp_base_op, *program, mid->0, o.emitted);
                lemma_bodies_trans(p0, bp_base_op, *program, a.owners, Seq::new(o.emitted.len(), |_k: int| owner_of(Some(mid->0), bp_base_op.methods@.len() as int)));
                lemma_made_keep(p0, bp_base_op, *program, a.made);
                assert(Seq::new(o.emitted.len(), |_k: int| owner_of(Some(mid->0), bp_base_op.methods@.len() as int)) =~= Seq::new(o.emitted.len(), |_k: int| owner(a.st)));
        }
        let base_op = match res_base_op {
            Ok(x) => x,
            Err(e) => {
                return Err(e);
            },
        };
        assert(operand_view(base_op) == bv);
                let field_name = match find_child_identifier(lhs) {
                    Some(f) => f,
                    None => {
                        proof {
                            crate::semantic::lemma_first_identifier(lhs@.children, lhs@.children.len() as int);
                        }
                        return Err(String::from_str("Missing field in attribute assignment"));
                    },
                };
                proof {
                    let i = choose|i: int| 0 <= i < lhs.children@.len() && (#[trigger] lhs.children@[i]).kind@ == "Identifier"@
                        && field_name@ == trim(lhs.children@[i].raw@)
                        && forall|j: int| 0 <= j < i ==> (#[trigger] lhs.children@[j]).kind@ != "Identifier"@;
                    crate::semantic::lemma_first_identifier(lhs@.children, i);
                }
        let ghost bp_d2 = *program;
        let kind_d2 = InstructionKind::HeapStore { base: base_op, field: field_name, src: rhs_op };
        let ghost gk_d2 = kind_d2;
        assert(stmt_shows(gk_d2, StmtEmit::Store(bv, field_name@, rv)));
        let res_d2 = self.emit_here(program, kind_d2, span);
        let ghost d2 = emit_out(b, StmtEmit::Store(bv, field_name@, rv), Some(n.span));
        proof {
            if res_d2 is Ok {
                lemma_stmt_one(bp_d2.instructions@, program.instructions@.last(), StmtEmit::Store(bv, field_name@, rv), Some(n.span));
                assert(program.instructions@ =~= bp_d2.instructions@.push(program.instructions@.last()));
                lemma_stmt_trans(i0, bp_d2.instructions@, program.instructions@, b.emitted, seq![(StmtEmit::Store(bv, field_name@, rv), Some(n.span))]);
                    lemma_bodies_emit(bp_d2, *program, self.current_method_id);
                    lemma_bodies_trans(p0, bp_d2, *program, b.owners, seq![owner_of(self.current_method_id, bp_d2.methods@.len() as int)]);
                    lemma_made_keep(p0, bp_d2, *program, b.made);
                    assert(b.owners + seq![owner(b.st)] =~= b.owners.push(owner(b.st)));
                assert(b.emitted + seq![(StmtEmit::Store(bv, field_name@, rv), Some(n.span))] =~= b.emitted.push((StmtEmit::Store(bv, field_name@, rv), Some(n.span))));
            }
        }
        match res_d2 {
            Ok(()) => {},
            Err(e) => {
                return Err(e);
            },
        }
            }
        }
        Ok(())
    }

    /// Lowers a return statement inside a method.
    #[verifier::rlimit(60)]
    #[verifier::spinoff_prover]
    fn walk_return(&mut self, node: &SimpleCstNode, program: &mut Program) -> (r: Result<(), String>)
        requires
            old(program).wf(),
            old(program).bodies_known(),
            old(self).semantic_info.wf(),
            node.kind@ == "ReturnStatement"@,
        ensures
            final(program).wf(),
            final(program).bodies_known(),
            modules_kept(*old(program), *final(program)),
            final(self).semantic_info == old(self).semantic_info,
            final(self).module_id == old(self).module_id,
            r is Ok ==> final(self).current_class_id == old(self).current_class_id
                && final(self).current_method_id == old(self).current_method_id,
            ({
                let out = return_walk(*old(self).semantic_info, walk_state(*old(self), *old(program)), node@);
                &&& at(*final(self), *final(program), *old(program), out)
                &&& (r is Ok) == out.ok
            }),
        decreases node, 1nat,
    {
        let ghost info = *self.semantic_info;
        let ghost i0 = program.instructions@;
        let ghost p0 = *program;
        let ghost n = node@;
        let ghost start = begin(walk_state(*self, *program));
        let ghost mid = self.current_method_id;
        proof {
            crate::semantic::lemma_cst_views_all(node.children@);
            lemma_stmt_refl(i0);
            lemma_bodies_refl(p0);
            lemma_made_refl(p0);
        }
        if self.current_method_id.is_some() {
            if node.children.len() > 0 {
                assert(decreases_to!(node => node.children@[0]));
                assert(n.children[0] == node.children@[0]@);
        let ghost bt_val = *self;
        let ghost bp_val = *program;
        let res_val = self.lower_expr(&node.children[0], program);
        let ghost a = expr_out(info, start, (&node.children[0])@);
        let ghost vv = expr_val(info, start, (&node.children[0])@);
        proof {
            let o = lower_of(info, true, bp_val.instructions@.len() as int, bt_val.temp_counter as int, (&node.children[0])@);
            lemma_stmt_from_grew(bp_val, *program, mid->0, o.emitted);
            lemma_stmt_trans(i0, bp_val.instructions@, program.instructions@, start.emitted, lift(o.emitted));
                lemma_bodies_from_grew(bp_val, *program, mid->0, o.emitted);
                lemma_bodies_trans(p0, bp_val, *program, start.owners, Seq::new(o.emitted.len(), |_k: int| owner_of(Some(mid->0), bp_val.methods@.len() as int)));
                lemma_made_keep(p0, bp_val, *program, start.made);
                assert(Seq::new(o.emitted.len(), |_k: int| owner_of(Some(mid->0), bp_val.methods@.len() as int)) =~= Seq::new(o.emitted.len(), |_k: int| owner(start.st)));
        }
        let val = match res_val {
            Ok(x) => x,
            Err(e) => {
                return Err(e);
            },
        };
        assert(operand_view(val) == vv);
        let ghost bp_d = *program;
        let kind_d = InstructionKind::Return { val: Some(val) };
        let ghost gk_d = kind_d;
        assert(stmt_shows(gk_d, StmtEmit::Ret(Some(vv))));
        let res_d = self.emit_here(program, kind_d, Some(node.span));
        let ghost d = emit_out(a, StmtEmit::Ret(Some(vv)), Some(n.span));
        proof {
            if res_d is Ok {
                lemma_stmt_one(bp_d.instructions@, program.instructions@.last(), StmtEmit::Ret(Some(vv)), Some(n.span));
                assert(program.instructions@ =~= bp_d.instructions@.push(program.instructions@.last()));
                lemma_stmt_trans(i0, bp_d.instructions@, program.instructions@, a.emitted, seq![(StmtEmit::Ret(Some(vv)), Some(n.span))]);
                    lemma_bodies_emit(bp_d, *program, self.current_method_id);
                    lemma_bodies_trans(p0, bp_d, *program, a.owners, seq![owner_of(self.current_method_id, bp_d.methods@.len() as int)]);
                    lemma_made_keep(p0, bp_d, *program, a.made);
                    assert(a.owners + seq![owner(a.st)] =~= a.owners.push(owner(a.st)));
                assert(a.emitted + seq![(StmtEmit::Ret(Some(vv)), Some(n.span))] =~= a.emitted.push((StmtEmit::Ret(Some(vv)), Some(n.span))));
            }
        }
        match res_d {
            Ok(()) => {},
            Err(e) => {
                return Err(e);
            },
        }
            } else {
        let ghost bp_d = *program;
        let kind_d = InstructionKind::Return { val: None };
        let ghost gk_d = kind_d;
        assert(stmt_shows(gk_d, StmtEmit::Ret(None)));
        let res_d = self.emit_here(program, kind_d, Some(node.span));
        let ghost d = emit_out(start, StmtEmit::Ret(None), Some(n.span));
        proof {
            if res_d is Ok {
                lemma_stmt_one(bp_d.instructions@, program.instructions@.last(), StmtEmit::Ret(None), Some(n.span));
                assert(program.instructions@ =~= bp_d.instructions@.push(program.instructions@.last()));
                lemma_stmt_trans(i0, bp_d.instructions@, program.instructions@, start.emitted, seq![(StmtEmit::Ret(None), Some(n.span))]);
                    lemma_bodies_emit(bp_d, *program, self.current_method_id);
                    lemma_bodies_trans(p0, bp_d, *program, start.owners, seq![owner_of(self.current_method_id, bp_d.methods@.len() as int)]);
                    lemma_made_keep(p0, bp_d, *program, start.made);
                    assert(start.owners + seq![owner(start.st)] =~= start.owners.push(owner(start.st)));
                assert(start.emitted + seq![(StmtEmit::Ret(None), Some(n.span))] =~= start.emitted.push((StmtEmit::Ret(None), Some(n.span))));
            }
        }
        match res_d {
            Ok(()) => {},
            Err(e) => {
                return Err(e);
            },
        }
            }
        }
        Ok(())
    }

    /// Lowers an `if` statement inside a method.
    #[verifier::rlimit(60)]
    #[verifier::spinoff_prover]
    fn walk_if(&mut self, node: &SimpleCstNode, program: &mut Program) -> (r: Result<(), String>)
        requires
            old(program).wf(),
            old(program).bodies_known(),
            old(self).semantic_info.wf(),
            node.kind@ == "IfStatement"@,
        ensures
            final(program).wf(),
            final(program).bodies_known(),
            modules_kept(*old(program), *final(program)),
            final(self).semantic_info == old(self).semantic_info,
            final(self).module_id == old(self).module_id,
            r is Ok ==> final(self).current_class_id == old(self).current_class_id
                && final(self).current_method_id == old(self).current_method_id,
            ({
                let out = if_walk(*old(self).semantic_info, walk_state(*old(self), *old(program)), node@);
                &&& at(*final(self), *final(program), *old(program), out)
                &&& (r is Ok) == out.ok
            }),
        decreases node, 1nat,
    {
        let ghost info = *self.semantic_info;
        let ghost i0 = program.instructions@;
        let ghost p0 = *program;
        let ghost n = node@;
        let ghost start = begin(walk_state(*self, *program));
        let ghost mid = self.current_method_id;
        proof {
            crate::semantic::lemma_cst_views_all(node.children@);
            lemma_stmt_refl(i0);
            lemma_bodies_refl(p0);
            lemma_made_refl(p0);
        }
        if self.current_method_id.is_some() {
            if node.children.len() == 0 {
                return Err(String::from_str("Missing condition in IfStatement"));
            }
            assert(decreases_to!(node => node.children@[0]));
            assert(n.children[0] == node.children@[0]@);
        let ghost bt_cond_op = *self;
        let ghost bp_cond_op = *program;
        let res_cond_op = self.lower_expr(&node.children[0], program);
        let ghost a = expr_out(info, start, (&node.children[0])@);
        let ghost cv = expr_val(info, start, (&node.children[0])@);
        proof {
            let o = lower_of(info, true, bp_cond_op.instructions@.len() as int, bt_cond_op.temp_counter as int, (&node.children[0])@);
            lemma_stmt_from_grew(bp_cond_op, *program, mid->0, o.emitted);
            lemma_stmt_trans(i0, bp_cond_op.instructions@, program.instructions@, start.emitted, lift(o.emitted));
                lemma_bodies_from_grew(bp_cond_op, *program, mid->0, o.emitted);
                lemma_bodies_trans(p0, bp_cond_op, *program, start.owners, Seq::new(o.emitted.len(), |_k: int| owner_of(Some(mid->0), bp_cond_op.methods@.len() as int)));
                lemma_made_keep(p0, bp_cond_op, *program, start.made);
                assert(Seq::new(o.emitted.len(), |_k: int| owner_of(Some(mid->0), bp_cond_op.methods@.len() as int)) =~= Seq::new(o.emitted.len(), |_k: int| owner(start.st)));
        }
        let cond_op = match res_cond_op {
            Ok(x) => x,
            Err(e) => {
                return Err(e);
            },
        };
        assert(operand_view(cond_op) == cv);
        let res_lb = self.next_label();
        let ghost lb = label_out(a);
        let true_label = match res_lb {
            Ok(l) => l,
            Err(e) => {
                return Err(e);
            },
        };
        let res_lc = self.next_label();
        let ghost lc = label_out(lb);
        let exit_label = match res_lc {
            Ok(l) => l,
            Err(e) => {
                return Err(e);
            },
        };
        let ghost bp_ld = *program;
        let kind_ld = InstructionKind::Branch { cond: cond_op, target: true_label };
        let ghost gk_ld = kind_ld;
        assert(stmt_shows(gk_ld, StmtEmit::Branch(cv, a.st.label as u32)));
        let res_ld = self.emit_here(program, kind_ld, Some(node.children[0].span));
        let ghost ld = emit_out(lc, StmtEmit::Branch(cv, a.st.label as u32), Some(n.children[0].span));
        proof {
            if res_ld is Ok {
                lemma_stmt_one(bp_ld.instructions@, program.instructions@.last(), StmtEmit::Branch(cv, a.st.label as u32), Some(n.children[0].span));
                assert(program.instructions@ =~= bp_ld.instructions@.push(program.instructions@.last()));
                lemma_stmt_trans(i0, bp_ld.instructions@, program.instructions@, lc.emitted, seq![(StmtEmit::Branch(cv, a.st.label as u32), Some(n.children[0].span))]);
                    lemma_bodies_emit(bp_ld, *program, self.current_method_id);
                    lemma_bodies_trans(p0, bp_ld, *program, lc.owners, seq![owner_of(self.current_method_id, bp_ld.methods@.len() as int)]);
                    lemma_made_keep(p0, bp_ld, *program, lc.made);
                    assert(lc.owners + seq![owner(lc.st)] =~= lc.owners.push(owner(lc.st)));
                assert(lc.emitted + seq![(StmtEmit::Branch(cv, a.st.label as u32), Some(n.children[0].span))] =~= lc.emitted.push((StmtEmit::Branch(cv, a.st.label as u32), Some(n.children[0].span))));
            }
        }
        match res_ld {
            Ok(()) => {},
            Err(e) => {
                return Err(e);
            },
        }
            let ghost le: WalkOut = ld;
            if node.children.len() >= 3 {
                assert(decreases_to!(node => node.children@[2]));
                assert(n.children[2] == node.children@[2]@);
        let ghost bp_lw = *program;
        let res_lw = self.walk_node(&node.children[2], program);
        let ghost lw = walk_out(info, ld, (&node.children[2])@);
        proof {
            let w = walk_of(info, ld.st, (&node.children[2])@);
            lemma_stmt_trans(i0, bp_lw.instructions@, program.instructions@, ld.emitted, w.emitted);
                lemma_bodies_trans(p0, bp_lw, *program, ld.owners, w.owners);
                lemma_made_trans(p0, bp_lw, *program, ld.made, w.made);
        }
        match res_lw {
            Ok(()) => {},
            Err(e) => {
                return Err(e);
            },
        }
                proof { le = lw; }
            }
        let ghost bp_lf = *program;
        let kind_lf = InstructionKind::Jump { target: exit_label };
        let ghost gk_lf = kind_lf;
        assert(stmt_shows(gk_lf, StmtEmit::Jump(lb.st.label as u32)));
        let res_lf = self.emit_here(program, kind_lf, None);
        let ghost lf = emit_out(le, StmtEmit::Jump(lb.st.label as u32), None);
        proof {
            if res_lf is Ok {
                lemma_stmt_one(bp_lf.instructions@, program.instructions@.last(), StmtEmit::Jump(lb.st.label as u32), None);
                assert(program.instructions@ =~= bp_lf.instructions@.push(program.instructions@.last()));
                lemma_stmt_trans(i0, bp_lf.instructions@, program.instructions@, le.emitted, seq![(StmtEmit::Jump(lb.st.label as u32), None)]);
                    lemma_bodies_emit(bp_lf, *program, self.current_method_id);
                    lemma_bodies_trans(p0, bp_lf, *program, le.owners, seq![owner_of(self.current_method_id, bp_lf.methods@.len() as int)]);
                    lemma_made_keep(p0, bp_lf, *program, le.made);
                    assert(le.owners + seq![owner(le.st)] =~= le.owners.push(owner(le.st)));
                assert(le.emitted + seq![(StmtEmit::Jump(lb.st.label as u32), None)] =~= le.emitted.push((StmtEmit::Jump(lb.st.label as u32), None)));
            }
        }
        match res_lf {
            Ok(()) => {},
            Err(e) => {
                return Err(e);
            },
        }
        let ghost bp_lg = *program;
        let kind_lg = InstructionKind::Label(true_label);
        let ghost gk_lg = kind_lg;
        assert(stmt_shows(gk_lg, StmtEmit::Mark(a.st.label as u32)));
        let res_lg = self.emit_here(program, kind_lg, None);
        let ghost lg = emit_out(lf, StmtEmit::Mark(a.st.label as u32), None);
        proof {
            if res_lg is Ok {
                lemma_stmt_one(bp_lg.instructions@, program.instructions@.last(), StmtEmit::Mark(a.st.label as u32), None);
                assert(program.instructions@ =~= bp_lg.instructions@.push(program.instructions@.last()));
                lemma_stmt_trans(i0, bp_lg.instructions@, program.instructions@, lf.emitted, seq![(StmtEmit::Mark(a.st.label as u32), None)]);
                    lemma_bodies_emit(bp_lg, *program, self.current_method_id);
                    lemma_bodies_trans(p0, bp_lg, *program, lf.owners, seq![owner_of(self.current_method_id, bp_lg.methods@.len() as int)]);
                    lemma_made_keep(p0, bp_lg, *program, lf.made);
                    assert(lf.owners + seq![owner(lf.st)] =~= lf.owners.push(owner(lf.st)));
                assert(lf.emitted + seq![(StmtEmit::Mark(a.st.label as u32), None)] =~= lf.emitted.push((StmtEmit::Mark(a.st.label as u32), None)));
            }
        }
        match res_lg {
            Ok(()) => {},
            Err(e) => {
                return Err(e);
            },
        }
            let ghost lh: WalkOut = lg;
            if node.children.len() >= 2 {
                assert(decreases_to!(node => node.children@[1]));
                assert(n.children[1] == node.children@[1]@);
        let ghost bp_lw2 = *program;
        let res_lw2 = self.walk_node(&node.children[1], program);
        let ghost lw2 = walk_out(info, lg, (&node.children[1])@);
        proof {
            let w = walk_of(info, lg.st, (&node.children[1])@);
            lemma_stmt_trans(i0, bp_lw2.instructions@, program.instructions@, lg.emitted, w.emitted);
                lemma_bodies_trans(p0, bp_lw2, *program, lg.owners, w.owners);
                lemma_made_trans(p0, bp_lw2, *program, lg.made, w.made);
        }
        match res_lw2 {
            Ok(()) => {},
            Err(e) => {
                return Err(e);
            },
        }
                proof { lh = lw2; }
            }
        let ghost bp_li = *program;
        let kind_li = InstructionKind::Label(exit_label);
        let ghost gk_li = kind_li;
        assert(stmt_shows(gk_li, StmtEmit::Mark(lb.st.label as u32)));
        let res_li = self.emit_here(program, kind_li, None);
        let ghost li = emit_out(lh, StmtEmit::Mark(lb.st.label as u32), None);
        proof {
            if res_li is Ok {
                lemma_stmt_one(bp_li.instructions@, program.instructions@.last(), StmtEmit::Mark(lb.st.label as u32), None);
                assert(program.instructions@ =~= bp_li.instructions@.push(program.instructions@.last()));
                lemma_stmt_trans(i0, bp_li.instructions@, program.instructions@, lh.emitted, seq![(StmtEmit::Mark(lb.st.label as u32), None)]);
                    lemma_bodies_emit(bp_li, *program, self.current_method_id);
                    lemma_bodies_trans(p0, bp_li, *program, lh.owners, seq![owner_of(self.current_method_id, bp_li.methods@.len() as int)]);
                    lemma_made_keep(p0, bp_li, *program, lh.made);
                    assert(lh.owners + seq![owner(lh.st)] =~= lh.owners.push(owner(lh.st)));
                assert(lh.emitted + seq![(StmtEmit::Mark(lb.st.label as u32), None)] =~= lh.emitted.push((StmtEmit::Mark(lb.st.label as u32), None)));
            }
        }
        match res_li {
            Ok(()) => {},
            Err(e) => {
                return Err(e);
            },
        }
        }
        Ok(())
    }

    /// Lowers a `while` statement inside a method.
    #[verifier::rlimit(60)]
    #[verifier::spinoff_prover]
    fn walk_while(&mut self, node: &SimpleCstNode, program: &mut Program) -> (r: Result<(), String>)
        requires
            old(program).wf(),
            old(program).bodies_known(),
            old(self).semantic_info.wf(),
            node.kind@ == "WhileStatement"@,
        ensures
            final(program).wf(),
            final(program).bodies_known(),
            modules_kept(*old(program), *final(program)),
            final(self).semantic_info == old(self).semantic_info,
            final(self).module_id == old(self).module_id,
            r is Ok ==> final(self).current_class_id == old(self).current_class_id
                && final(self).current_method_id == old(self).current_method_id,
            ({
                let out = while_walk(*old(self).semantic_info, walk_state(*old(self), *old(program)), node@);
                &&& at(*final(self), *final(program), *old(program), out)
                &&& (r is Ok) == out.ok
            }),
        decreases node, 1nat,
    {
        let ghost info = *self.semantic_info;
        let ghost i0 = program.instructions@;
        let ghost p0 = *program;
        let ghost n = node@;
        let ghost start = begin(walk_state(*self, *program));
        let ghost mid = self.current_method_id;
        proof {
            crate::semantic::lemma_cst_views_all(node.children@);
            lemma_stmt_refl(i0);
            lemma_bodies_refl(p0);
            lemma_made_refl(p0);
        }
        if self.current_method_id.is_some() {
        let res_lb = self.next_label();
        let ghost lb = label_out(start);
        let start_label = match res_lb {
            Ok(l) => l,
            Err(e) => {
                return Err(e);
            },
        };
        let res_lc = self.next_label();
        let ghost lc = label_out(lb);
        let body_label = match res_lc {
            Ok(l) => l,
            Err(e) => {
                return Err(e);
            },
        };
        let res_ld = self.next_label();
        let ghost ld = label_out(lc);
        let exit_label = match res_ld {
            Ok(l) => l,
            Err(e) => {
                return Err(e);
            },
        };
        let ghost bp_le = *program;
        let kind_le = InstructionKind::Label(start_label);
        let ghost gk_le = kind_le;
        assert(stmt_shows(gk_le, StmtEmit::Mark(start.st.label as u32)));
        let res_le = self.emit_here(program, kind_le, None);
        let ghost le = emit_out(ld, StmtEmit::Mark(start.st.label as u32), None);
        proof {
            if res_le is Ok {
                lemma_stmt_one(bp_le.instructions@, program.instructions@.last(), StmtEmit::Mark(start.st.label as u32), None);
                assert(program.instructions@ =~= bp_le.instructions@.push(program.instructions@.last()));
                lemma_stmt_trans(i0, bp_le.instructions@, program.instructions@, ld.emitted, seq![(StmtEmit::Mark(start.st.label as u32), None)]);
                    lemma_bodies_emit(bp_le, *program, self.current_method_id);
                    lemma_bodies_trans(p0, bp_le, *program, ld.owners, seq![owner_of(self.current_method_id, bp_le.methods@.len() as int)]);
                    lemma_made_keep(p0, bp_le, *program, ld.made);
                    assert(ld.owners + seq![owner(ld.st)] =~= ld.owners.push(owner(ld.st)));
                assert(ld.emitted + seq![(StmtEmit::Mark(start.st.label as u32), None)] =~= ld.emitted.push((StmtEmit::Mark(start.st.label as u32), None)));
            }
        }
        match res_le {
            Ok(()) => {},
            Err(e) => {
                return Err(e);
            },
        }
            if node.children.len() == 0 {
                return Err(String::from_str("Missing condition in WhileStatement"));
            }
            assert(decreases_to!(node => node.children@[0]));
            assert(n.children[0] == node.children@[0]@);
        let ghost bt_cond_op = *self;
        let ghost bp_cond_op = *program;
        let res_cond_op = self.lower_expr(&node.children[0], program);
        let ghost lf = expr_out(info, le, (&node.children[0])@);
        let ghost cv = expr_val(info, le, (&node.children[0])@);
        proof {
            let o = lower_of(info, true, bp_cond_op.instructions@.len() as int, bt_cond_op.temp_counter as int, (&node.children[0])@);
            lemma_stmt_from_grew(bp_cond_op, *program, mid->0, o.emitted);
            lemma_stmt_trans(i0, bp_cond_op.instructions@, program.instructions@, le.emitted, lift(o.emitted));
                lemma_bodies_from_grew(bp_cond_op, *program, mid->0, o.emitted);
                lemma_bodies_trans(p0, bp_cond_op, *program, le.owners, Seq::new(o.emitted.len(), |_k: int| owner_of(Some(mid->0), bp_cond_op.methods@.len() as int)));
                lemma_made_keep(p0, bp_cond_op, *program, le.made);
                assert(Seq::new(o.emitted.len(), |_k: int| owner_of(Some(mid->0), bp_cond_op.methods@.len() as int)) =~= Seq::new(o.emitted.len(), |_k: int| owner(le.st)));
        }
        let cond_op = match res_cond_op {
            Ok(x) => x,
            Err(e) => {
                return Err(e);
            },
        };
        assert(operand_view(cond_op) == cv);
        let ghost bp_lg = *program;
        let kind_lg = InstructionKind::Branch { cond: cond_op, target: body_label };
        let ghost gk_lg = kind_lg;
        assert(stmt_shows(gk_lg, StmtEmit::Branch(cv, lb.st.label as u32)));
        let res_lg = self.emit_here(program, kind_lg, Some(node.children[0].span));
        let ghost lg = emit_out(lf, StmtEmit::Branch(cv, lb.st.label as u32), Some(n.children[0].span));
        proof {
            if res_lg is Ok {
                lemma_stmt_one(bp_lg.instructions@, program.instructions@.last(), StmtEmit::Branch(cv, lb.st.label as u32), Some(n.children[0].span));
                assert(program.instructions@ =~= bp_lg.instructions@.push(program.instructions@.last()));
                lemma_stmt_trans(i0, bp_lg.instructions@, program.instructions@, lf.emitted, seq![(StmtEmit::Branch(cv, lb.st.label as u32), Some(n.children[0].span))]);
                    lemma_bodies_emit(bp_lg, *program, self.current_method_id);
                    lemma_bodies_trans(p0, bp_lg, *program, lf.owners, seq![owner_of(self.current_method_id, bp_lg.methods@.len() as int)]);
                    lemma_made_keep(p0, bp_lg, *program, lf.made);
                    assert(lf.owners + seq![owner(lf.st)] =~= lf.owners.push(owner(lf.st)));
                assert(lf.emitted + seq![(StmtEmit::Branch(cv, lb.st.label as u32), Some(n.children[0].span))] =~= lf.emitted.push((StmtEmit::Branch(cv, lb.st.label as u32), Some(n.children[0].span))));
            }
        }
        match res_lg {
            Ok(()) => {},
            Err(e) => {
                return Err(e);
            },
        }
        let ghost bp_lh = *program;
        let kind_lh = InstructionKind::Jump { target: exit_label };
        let ghost gk_lh = kind_lh;
        assert(stmt_shows(gk_lh, StmtEmit::Jump(lc.st.label as u32)));
        let res_lh = self.emit_here(program, kind_lh, None);
        let ghost lh = emit_out(lg, StmtEmit::Jump(lc.st.label as u32), None);
        proof {
            if res_lh is Ok {
                lemma_stmt_one(bp_lh.instructions@, program.instructions@.last(), StmtEmit::Jump(lc.st.label as u32), None);
                assert(program.instructions@ =~= bp_lh.instructions@.push(program.instructions@.last()));
                lemma_stmt_trans(i0, bp_lh.instructions@, program.instructions@, lg.emitted, seq![(StmtEmit::Jump(lc.st.label as u32), None)]);
                    lemma_bodies_emit(bp_lh, *program, self.current_method_id);
                    lemma_bodies_trans(p0, bp_lh, *program, lg.owners, seq![owner_of(self.current_method_id, bp_lh.methods@.len() as int)]);
                    lemma_made_keep(p0, bp_lh, *program, lg.made);
                    assert(lg.owners + seq![owner(lg.st)] =~= lg.owners.push(owner(lg.st)));
                assert(lg.emitted + seq![(StmtEmit::Jump(lc.st.label as u32), None)] =~= lg.emitted.push((StmtEmit::Jump(lc.st.label as u32), None)));
            }
        }
        match res_lh {
            Ok(()) => {},
            Err(e) => {
                return Err(e);
            },
        }
        let ghost bp_lii = *program;
        let kind_lii = InstructionKind::Label(body_label);
        let ghost gk_lii = kind_lii;
        assert(stmt_shows(gk_lii, StmtEmit::Mark(lb.st.label as u32)));
        let res_lii = self.emit_here(program, kind_lii, None);
        let ghost lii = emit_out(lh, StmtEmit::Mark(lb.st.label as u32), None);
        proof {
            if res_lii is Ok {
                lemma_stmt_one(bp_lii.instructions@, program.instructions@.last(), StmtEmit::Mark(lb.st.label as u32), None);
                assert(program.instructions@ =~= bp_lii.instructions@.push(program.instructions@.last()));
                lemma_stmt_trans(i0, bp_lii.instructions@, program.instructions@, lh.emitted, seq![(StmtEmit::Mark(lb.st.label as u32), None)]);
                    lemma_bodies_emit(bp_lii, *program, self.current_method_id);
                    lemma_bodies_trans(p0, bp_lii, *program, lh.owners, seq![owner_of(self.current_method_id, bp_lii.methods@.len() as int)]);
                    lemma_made_keep(p0, bp_lii, *program, lh.made);
                    assert(lh.owners + seq![owner(lh.st)] =~= lh.owners.push(owner(lh.st)));
                assert(lh.emitted + seq![(StmtEmit::Mark(lb.st.label as u32), None)] =~= lh.emitted.push((StmtEmit::Mark(lb.st.label as u32), None)));
            }
        }
        match res_lii {
            Ok(()) => {},
            Err(e) => {
                return Err(e);
            },
        }
            let ghost lj: WalkOut = lii;
            if node.children.len() >= 2 {
                assert(decreases_to!(node => node.children@[1]));
                assert(n.children[1] == node.children@[1]@);
        let ghost bp_lw = *program;
        let res_lw = self.walk_node(&node.children[1], program);
        let ghost lw = walk_out(info, lii, (&node.children[1])@);
        proof {
            let w = walk_of(info, lii.st, (&node.children[1])@);
            lemma_stmt_trans(i0, bp_lw.instructions@, program.instructions@, lii.emitted, w.emitted);
                lemma_bodies_trans(p0, bp_lw, *program, lii.owners, w.owners);
                lemma_made_trans(p0, bp_lw, *program, lii.made, w.made);
        }
        match res_lw {
            Ok(()) => {},
            Err(e) => {
                return Err(e);
            },
        }
                proof { lj = lw; }
            }
        let ghost bp_lk = *program;
        let kind_lk = InstructionKind::Jump { target: start_label };
        let ghost gk_lk = kind_lk;
        assert(stmt_shows(gk_lk, StmtEmit::Jump(start.st.label as u32)));
        let res_lk = self.emit_here(program, kind_lk, None);
        let ghost lk = emit_out(lj, StmtEmit::Jump(start.st.label as u32), None);
        proof {
            if res_lk is Ok {
                lemma_stmt_one(bp_lk.instructions@, program.instructions@.last(), StmtEmit::Jump(start.st.label as u32), None);
                assert(program.instructions@ =~= bp_lk.instructions@.push(program.instructions@.last()));
                lemma_stmt_trans(i0, bp_lk.instructions@, program.instructions@, lj.emitted, seq![(StmtEmit::Jump(start.st.label as u32), None)]);
                    lemma_bodies_emit(bp_lk, *program, self.current_method_id);
                    lemma_bodies_trans(p0, bp_lk, *program, lj.owners, seq![owner_of(self.current_method_id, bp_lk.methods@.len() as int)]);
                    lemma_made_keep(p0, bp_lk, *program, lj.made);
                    assert(lj.owners + seq![owner(lj.st)] =~= lj.owners.push(owner(lj.st)));
                assert(lj.emitted + seq![(StmtEmit::Jump(start.st.label as u32), None)] =~= lj.emitted.push((StmtEmit::Jump(start.st.label as u32), None)));
            }
        }
        match res_lk {
            Ok(()) => {},
            Err(e) => {
                return Err(e);
            },
        }
        let ghost bp_ll = *program;
        let kind_ll = InstructionKind::Label(exit_label);
        let ghost gk_ll = kind_ll;
        assert(stmt_shows(gk_ll, StmtEmit::Mark(lc.st.label as u32)));
        let res_ll = self.emit_here(program, kind_ll, None);
        let ghost ll = emit_out(lk, StmtEmit::Mark(lc.st.label as u32), None);
        proof {
            if res_ll is Ok {
                lemma_stmt_one(bp_ll.instructions@, program.instructions@.last(), StmtEmit::Mark(lc.st.label as u32), None);
                assert(program.instructions@ =~= bp_ll.instructions@.push(program.instructions@.last()));
                lemma_stmt_trans(i0, bp_ll.instructions@, program.instructions@, lk.emitted, seq![(StmtEmit::Mark(lc.st.label as u32), None)]);
                    lemma_bodies_emit(bp_ll, *program, self.current_method_id);
                    lemma_bodies_trans(p0, bp_ll, *program, lk.owners, seq![owner_of(self.current_method_id, bp_ll.methods@.len() as int)]);
                    lemma_made_keep(p0, bp_ll, *program, lk.made);
                    assert(lk.owners + seq![owner(lk.st)] =~= lk.owners.push(owner(lk.st)));
                assert(lk.emitted + seq![(StmtEmit::Mark(lc.st.label as u32), None)] =~= lk.emitted.push((StmtEmit::Mark(lc.st.label as u32), None)));
            }
        }
        match res_ll {
            Ok(()) => {},
            Err(e) => {
                return Err(e);
            },
        }
        }
        Ok(())
    }

    /// Lowers a call statement inside a method, for its effect.
    fn walk_call(&mut self, node: &SimpleCstNode, program: &mut Program) -> (r: Result<(), String>)
        requires
            old(program).wf(),
            old(program).bodies_known(),
            old(self).semantic_info.wf(),
            node.kind@ == "CallExpression"@,
        ensures
            final(program).wf(),
            final(program).bodies_known(),
            modules_kept(*old(program), *final(program)),
            final(self).semantic_info == old(self).semantic_info,
            final(self).module_id == old(self).module_id,
            r is Ok ==> final(self).current_class_id == old(self).current_class_id
                && final(self).current_method_id == old(self).current_method_id,
            ({
                let out = call_walk(*old(self).semantic_info, walk_state(*old(self), *old(program)), node@);
                &&& at(*final(self), *final(program), *old(program), out)
                &&& (r is Ok) == out.ok
            }),
        decreases node, 1nat,
    {
        let ghost info = *self.semantic_info;
        let ghost i0 = program.instructions@;
        let ghost p0 = *program;
        let ghost n = node@;
        let ghost start = begin(walk_state(*self, *program));
        let ghost mid = self.current_method_id;
        proof {
            crate::semantic::lemma_cst_views_all(node.children@);
            lemma_stmt_refl(i0);
            lemma_bodies_refl(p0);
            lemma_made_refl(p0);
        }
        if self.current_method_id.is_some() {
            let ghost bt = *self;
            let ghost bp = *program;
            let _ = self.lower_expr(node, program);
            proof {
                let o = lower_of(info, true, bp.instructions@.len() as int, bt.temp_counter as int, n);
                lemma_stmt_from_grew(bp, *program, mid->0, o.emitted);
                lemma_stmt_trans(i0, bp.instructions@, program.instructions@, start.emitted, lift(o.emitted));
                lemma_bodies_from_grew(bp, *program, mid->0, o.emitted);
                lemma_bodies_trans(p0, bp, *program, start.owners, Seq::new(o.emitted.len(), |_k: int| owner_of(Some(mid->0), bp.methods@.len() as int)));
                lemma_made_keep(p0, bp, *program, start.made);
                assert(Seq::new(o.emitted.len(), |_k: int| owner_of(Some(mid->0), bp.methods@.len() as int)) =~= Seq::new(o.emitted.len(), |_k: int| owner(start.st)));
            }
        }
        Ok(())
    }

    /// Walks the children of `node` in order, skipping a parameter list
    /// when `skip_parameters` holds.
    fn walk_children(&mut self, node: &SimpleCstNode, program: &mut Program, skip_parameters: bool) -> (r: Result<(), String>)
        requires
            old(program).wf(),
            old(program).bodies_known(),
            old(self).semantic_info.wf(),
        ensures
            final(program).wf(),
            final(program).bodies_known(),
            modules_kept(*old(program), *final(program)),
            final(self).semantic_info == old(self).semantic_info,
            final(self).module_id == old(self).module_id,
            r is Ok ==> final(self).current_class_id == old(self).current_class_id
                && final(self).current_method_id == old(self).current_method_id,
            ({
                let out = walk_list(*old(self).semantic_info,
                    begin(walk_state(*old(self), *old(program))),
                    node@.children, node@.children.len() as int, skip_parameters);
                &&& at(*final(self), *final(program), *old(program), out)
                &&& (r is Ok) == out.ok
            }),
        decreases node, 0nat,
    {
        let ghost info = *self.semantic_info;
        let ghost i0 = program.instructions@;
        let ghost p0 = *program;
        let ghost cs = node@.children;
        let ghost start = begin(walk_state(*self, *program));
        proof {
            crate::semantic::lemma_cst_views_all(node.children@);
            lemma_stmt_refl(i0);
            lemma_bodies_refl(p0);
            lemma_made_refl(p0);
        }
        let mut i: usize = 0;
        while i < node.children.len()
            invariant
                i <= node.children@.len(),
                program.wf(),
                program.bodies_known(),
                modules_kept(*old(program), *program),
                self.semantic_info == old(self).semantic_info,
                self.semantic_info.wf(),
                self.module_id == old(self).module_id,
                self.current_class_id == old(self).current_class_id,
                self.current_method_id == old(self).current_method_id,
                info == *self.semantic_info,
                i0 == old(program).instructions@,
                start == (begin(walk_state(*old(self), *old(program)))),
                cs == node@.children,
                cs.len() == node.children@.len(),
                forall|j: int| 0 <= j < node.children@.len() ==> #[trigger] cs[j] == node.children@[j]@,
                walk_list(info, start, cs, i as int, skip_parameters).ok,
                p0 == *old(program),
                at(*self, *program, p0, walk_list(info, start, cs, i as int, skip_parameters)),
            decreases node.children.len() - i,
        {
            let ghost cur = walk_list(info, start, cs, i as int, skip_parameters);
            assert(cs[i as int] == node.children@[i as int]@);
            if !(skip_parameters && kind_eq(&node.children[i], "parameters")) {
                assert(decreases_to!(node => node.children@[i as int]));
                let ghost bp = *program;
                let res = self.walk_node(&node.children[i], program);
                proof {
                    let w = walk_of(info, cur.st, cs[i as int]);
                    lemma_stmt_trans(i0, bp.instructions@, program.instructions@, cur.emitted, w.emitted);
                lemma_bodies_trans(p0, bp, *program, cur.owners, w.owners);
                lemma_made_trans(p0, bp, *program, cur.made, w.made);
                    assert(walk_list(info, start, cs, i + 1, skip_parameters) == walk_out(info, cur, cs[i as int]));
                }
                match res {
                    Ok(()) => {},
                    Err(e) => {
                        proof {
                            lemma_walk_list_failed(info, start, cs, i + 1, cs.len() as int, skip_parameters);
                        }
                        return Err(e);
                    },
                }
            }
            i = i + 1;
        }
        Ok(())
    }
}

impl crate::frontend::LanguageFrontend for PythonFrontend {
    /// Parses the text, then lowers its tree into a program with one module,
    /// named after the file, whose `__module__` method holds module-level
    /// code.
    fn lower(&self, code: &str, semantic_info: &SemanticInfo, file_path: &str) -> (r: Result<Program, String>)
        ensures
            r matches Ok(p) ==> file_program(p, crate::frontend::module_name_of(file_path@), file_path@),
            crate::parser::python_tree(code@) matches Err(e) ==> r matches Err(x) && x@ == e,
            !semantic_info.wf() ==> r is Err,
            (r is Ok) == (crate::parser::python_tree(code@) is Ok && semantic_info.wf()
                && walk_of(*semantic_info, module_start(), crate::parser::python_tree(code@)->Ok_0).ok),
            r matches Ok(p) ==> stmt_emitted(Seq::empty(), p.instructions@,
                walk_of(*semantic_info, module_start(), crate::parser::python_tree(code@)->Ok_0).emitted),
            r matches Ok(p) ==> forall|i: int| 0 <= i < p.methods@.len() ==> (#[trigger] p.methods@[i]).body@
                == body_ids(walk_of(*semantic_info, module_start(), crate::parser::python_tree(code@)->Ok_0).owners, 0, i + 1),
            r matches Ok(p) ==> module_methods(p, walk_of(*semantic_info, module_start(), crate::parser::python_tree(code@)->Ok_0).made),
    {
        let cst = match crate::parser::parse_python(code) {
            Ok(c) => c,
            Err(e) => {
                return Err(e);
            },
        };
        if !semantic_info.wf_check() {
            return Err(String::from_str("malformed semantic information"));
        }
        let mut program = Program::new();
        let name = crate::frontend::module_name(file_path);
        let module_id = program.alloc_module(name, String::from_str(file_path));
        let mut translator = Translator {
            semantic_info,
            module_id,
            current_class_id: None,
            current_method_id: None,
            temp_counter: 1,
            label_counter: 1,
        };
        let module_method_id = program.alloc_method(String::from_str("__module__"), None, Vec::new(), Some(module_id));
        translator.current_method_id = Some(module_method_id);
        proof {
            assert(walk_state(translator, program) == module_start());
            assert(program.instructions@ =~= Seq::<Instruction>::empty());
            assert(program.methods@.len() == 1);
            assert(program.methods@[0].body@ =~= Seq::<InstructionId>::empty());
            assert(program.methods@[0].name@ == "__module__"@);
            assert(program.methods@[0].parameters@.len() == 0);
        }
        let ghost pstart = program;
        let walked = translator.walk_node(&cst, &mut program);
        proof {
            let out = walk_of(*semantic_info, module_start(), crate::parser::python_tree(code@)->Ok_0);
            assert forall|i: int| 0 <= i < program.methods@.len() implies (#[trigger] program.methods@[i]).body@
                == body_ids(out.owners, 0, i + 1) by {
                assert(Seq::<InstructionId>::empty() + body_ids(out.owners, 0, i + 1) =~= body_ids(out.owners, 0, i + 1));
                if i < 1 {
                    assert(pstart.methods@[i].body@ =~= Seq::<InstructionId>::empty());
                }
            }
        }
        match walked {
            Ok(()) => Ok(program),
            Err(e) => Err(e),
        }
    }
}

} // verus!

verus! {

/// Whether `t` is a true literal: `True` or `true`.
pub open spec fn true_word(t: Seq<char>) -> bool {
    t == seq!['T', 'r', 'u', 'e'] || t == seq!['t', 'r', 'u', 'e']
}

/// Whether `t` is a false literal: `False` or `false`.
pub open spec fn false_word(t: Seq<char>) -> bool {
    t == seq!['F', 'a', 'l', 's', 'e'] || t == seq!['f', 'a', 'l', 's', 'e']
}

/// A boolean literal reads as its truth value: `True`/`true` as true,
/// `False`/`false` as false (white space around it aside), and a literal
/// reads as a boolean only when it is one of these words.
pub proof fn law_boolean_literals(raw: Seq<char>)
    ensures
        true_word(trim(raw)) ==> literal_value(raw) == Ok::<ConstantView, ()>(ConstantView::Bool(true)),
        false_word(trim(raw)) ==> literal_value(raw) == Ok::<ConstantView, ()>(ConstantView::Bool(false)),
        literal_value(raw) == Ok::<ConstantView, ()>(ConstantView::Bool(true)) ==> true_word(trim(raw)),
        literal_value(raw) == Ok::<ConstantView, ()>(ConstantView::Bool(false)) ==> false_word(trim(raw)),
{
    let t = trim(raw);
    if true_word(t) {
        assert(t[0] == 'T' || t[0] == 't');
    }
    if false_word(t) {
        assert(t[0] == 'F' || t[0] == 'f');
        assert(!(t =~= seq!['T', 'r', 'u', 'e']) && !(t =~= seq!['t', 'r', 'u', 'e']));
    }
}

} // verus!
