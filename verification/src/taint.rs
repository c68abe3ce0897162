//! Taint analysis as an IFDS problem: the flow of taint through each kind
//! of instruction, into and out of calls, and the findings at sinks.
use vstd::prelude::*;
use crate::accesspath::{root_debug_text, root_debug_text_of, AccessPath, PathRoot, PathView, RootView, SegmentView};
use crate::alias::{node_facts, operand_path, operand_to_access_path, points_to, states_wf, AliasResult};
use crate::cfg::kind_of;
use crate::icfg::{preds_along, succs_along, IcfgEdgeKind, IcfgNode, InterproceduralFlowGraph};
use crate::ir::{InstructionId, InstructionKind, MethodId, Operand, Program};
use crate::pointsto::HeapView;
use crate::rules::{any_hit, matching, rule_views, Confidence, Finding, FindingView, RegistryView, RuleRegistry, RuleView};
use crate::solver::{tabulated, CallFlowFunction, CallToReturnFlowFunction, DataFlowFact, IfdsSolver, NormalFlowFunction, PathEdge, ReturnFlowFunction, TabulationProblem};
use crate::text::{decimal, push_char, push_decimal};

verus! {

/// A fact over path views.
pub open spec fn fact_view(f: DataFlowFact<AccessPath>) -> DataFlowFact<PathView> {
    match f {
        DataFlowFact::Zero => DataFlowFact::Zero,
        DataFlowFact::Fact(ap) => DataFlowFact::Fact(ap@),
    }
}

/// The facts of a sequence, as a set of views.
pub open spec fn fact_set(v: Seq<DataFlowFact<AccessPath>>) -> Set<DataFlowFact<PathView>> {
    v.map_values(|f: DataFlowFact<AccessPath>| fact_view(f)).to_set()
}

/// The path of field `field` of the path an operand stands for.
pub open spec fn field_path(base: Operand, field: Seq<char>) -> PathView {
    PathView { segments: seq![SegmentView::Field(field)], ..operand_path(base) }
}

/// Whether `ap` is the path of one of `args`.
pub open spec fn is_argument(args: Seq<Operand>, ap: PathView) -> bool {
    exists|i: int| 0 <= i < args.len() && operand_path(#[trigger] args[i]) == ap
}

/// Whether two paths may reach the same place after `node`: they are the
/// same path, or they have the same segments and roots that may alias.
pub open spec fn paths_may_alias_spec(states: Seq<(crate::icfg::IcfgNode, crate::alias::AliasState)>, node: IcfgNode, ap1: PathView, ap2: PathView) -> bool {
    ap1 == ap2 || (ap1.segments == ap2.segments && exists|h: HeapView|
        #[trigger] points_to(node_facts(states, node), PathView { root: ap1.root, segments: Seq::empty(), hooks: None }).contains(h)
        && points_to(node_facts(states, node), PathView { root: ap2.root, segments: Seq::empty(), hooks: None }).contains(h))
}

/// What a propagator call taints: its destination, or else its first
/// argument as the receiver, when `ap` is one of its arguments.
pub open spec fn propagated(dest: Option<Operand>, args: Seq<Operand>, ap: PathView) -> Set<DataFlowFact<PathView>> {
    if is_argument(args, ap) {
        match dest {
            Some(d) => set![DataFlowFact::Fact(operand_path(d))],
            None => if args.len() >= 1 { set![DataFlowFact::Fact(operand_path(args[0]))] } else { Set::empty() },
        }
    } else {
        Set::empty()
    }
}

/// The facts after instruction `curr` given `fact` before it. A source call
/// taints its destination out of the zero fact; a sanitizer call clears its
/// destination; a propagator call passes taint from its arguments; an
/// assignment copies taint and clears its destination otherwise; an
/// allocation clears its destination; a load taints its destination from a
/// tainted base or field (or an alias of the field); a store taints the
/// field from a tainted source. Other nodes pass the fact through.
pub open spec fn normal_flow_facts(
    p: Program,
    reg: RegistryView,
    states: Seq<(IcfgNode, crate::alias::AliasState)>,
    curr: IcfgNode,
    fact: DataFlowFact<PathView>,
) -> Set<DataFlowFact<PathView>> {
    match curr {
        IcfgNode::Instruction(id) => match kind_of(p, id) {
            Some(InstructionKind::Call { dest, callee, args }) => match fact {
                DataFlowFact::Zero => set![DataFlowFact::Zero].union(
                    if any_hit(reg.sources, callee@) && dest is Some { set![DataFlowFact::Fact(operand_path(dest->0))] } else { Set::empty() }),
                DataFlowFact::Fact(ap) => if any_hit(reg.sanitizers, callee@) {
                    match dest {
                        Some(d) => if ap != operand_path(d) { set![DataFlowFact::Fact(ap)] } else { Set::empty() },
                        None => set![DataFlowFact::Fact(ap)],
                    }
                } else {
                    (if any_hit(reg.propagators, callee@) { propagated(dest, args@, ap) } else { Set::empty() }).insert(DataFlowFact::Fact(ap))
                },
            },
            Some(InstructionKind::Assign { dest, src }) => match fact {
                DataFlowFact::Zero => set![DataFlowFact::Zero],
                DataFlowFact::Fact(ap) => if ap == operand_path(src) {
                    set![DataFlowFact::Fact(ap), DataFlowFact::Fact(operand_path(dest))]
                } else if ap == operand_path(dest) {
                    Set::empty()
                } else {
                    set![DataFlowFact::Fact(ap)]
                },
            },
            Some(InstructionKind::Alloc { dest, .. }) => match fact {
                DataFlowFact::Zero => set![DataFlowFact::Zero],
                DataFlowFact::Fact(ap) => if ap == operand_path(dest) { Set::empty() } else { set![DataFlowFact::Fact(ap)] },
            },
            Some(InstructionKind::HeapLoad { dest, base, field }) => match fact {
                DataFlowFact::Zero => set![DataFlowFact::Zero],
                DataFlowFact::Fact(ap) => if ap == operand_path(dest) {
                    Set::empty()
                } else if ap == operand_path(base) || ap == field_path(base, field@)
                    || paths_may_alias_spec(states, curr, ap, field_path(base, field@)) {
                    set![DataFlowFact::Fact(ap), DataFlowFact::Fact(operand_path(dest))]
                } else {
                    set![DataFlowFact::Fact(ap)]
                },
            },
            Some(InstructionKind::HeapStore { base, field, src }) => match fact {
                DataFlowFact::Zero => set![DataFlowFact::Zero],
                DataFlowFact::Fact(ap) => if ap == operand_path(src) {
                    set![DataFlowFact::Fact(ap), DataFlowFact::Fact(field_path(base, field@))]
                } else {
                    set![DataFlowFact::Fact(ap)]
                },
            },
            _ => set![fact],
        },
        _ => set![fact],
    }
}

} // verus!

verus! {

/// A copy of a fact.
fn copy_fact(f: &DataFlowFact<AccessPath>) -> (r: DataFlowFact<AccessPath>)
    ensures
        fact_view(r) == fact_view(*f),
{
    match f {
        DataFlowFact::Zero => DataFlowFact::Zero,
        DataFlowFact::Fact(ap) => DataFlowFact::Fact(ap.duplicate()),
    }
}

/// Whether two paths have the same segments.
fn same_segments(a: &AccessPath, b: &AccessPath) -> (r: bool)
    ensures
        r == (a@.segments == b@.segments),
{
    if a.segments.len() != b.segments.len() {
        assert(a@.segments.len() != b@.segments.len());
        return false;
    }
    let mut i: usize = 0;
    while i < a.segments.len()
        invariant
            a.segments@.len() == b.segments@.len(),
            i <= a.segments@.len(),
            forall|j: int| 0 <= j < i ==> a@.segments[j] == b@.segments[j],
        decreases a.segments.len() - i,
    {
        if !a.segments[i].same_as(&b.segments[i]) {
            assert(a@.segments[i as int] != b@.segments[i as int]);
            return false;
        }
        i = i + 1;
    }
    assert(a@.segments =~= b@.segments);
    true
}

/// Whether two paths may reach the same place after `node`.
fn paths_may_alias(alias_result: &AliasResult, node: &IcfgNode, ap1: &AccessPath, ap2: &AccessPath) -> (r: bool)
    requires
        states_wf(alias_result.states@),
    ensures
        r == paths_may_alias_spec(alias_result.states@, *node, ap1@, ap2@),
{
    if ap1.same_as(ap2) {
        return true;
    }
    if !same_segments(ap1, ap2) {
        return false;
    }
    let base1 = AccessPath::new(ap1.root.duplicate());
    let base2 = AccessPath::new(ap2.root.duplicate());
    alias_result.may_alias(node, &base1, &base2)
}

/// Whether `ap` is the path of one of `args`.
fn is_argument_exec(args: &Vec<Operand>, ap: &AccessPath) -> (r: bool)
    ensures
        r == is_argument(args@, ap@),
{
    let mut i: usize = 0;
    while i < args.len()
        invariant
            i <= args@.len(),
            forall|j: int| 0 <= j < i ==> operand_path(#[trigger] args@[j]) != ap@,
        decreases args.len() - i,
    {
        if operand_to_access_path(&args[i]).same_as(ap) {
            return true;
        }
        i = i + 1;
    }
    false
}

/// The fact a propagator call adds, if any.
fn propagated_target(dest: &Option<Operand>, args: &Vec<Operand>, ap: &AccessPath) -> (r: Option<DataFlowFact<AccessPath>>)
    ensures
        match r {
            Some(f) => propagated(*dest, args@, ap@) == set![fact_view(f)],
            None => propagated(*dest, args@, ap@) == Set::<DataFlowFact<PathView>>::empty(),
        },
{
    if is_argument_exec(args, ap) {
        match dest {
            Some(d) => Some(DataFlowFact::Fact(operand_to_access_path(d))),
            None => {
                if args.len() >= 1 {
                    Some(DataFlowFact::Fact(operand_to_access_path(&args[0])))
                } else {
                    None
                }
            },
        }
    } else {
        None
    }
}

/// The views of a sequence of facts after one more fact.
proof fn lemma_fact_set_push(v: Seq<DataFlowFact<AccessPath>>, x: DataFlowFact<AccessPath>)
    ensures
        fact_set(v.push(x)) == fact_set(v).insert(fact_view(x)),
{
    let f = |a: DataFlowFact<AccessPath>| fact_view(a);
    assert(v.push(x).map_values(f) =~= v.map_values(f).push(fact_view(x)));
    v.map_values(f).lemma_push_to_set_commute(fact_view(x));
}

/// Appends a fact.
fn push_fact(targets: &mut Vec<DataFlowFact<AccessPath>>, f: DataFlowFact<AccessPath>)
    ensures
        final(targets)@ == old(targets)@.push(f),
        fact_set(final(targets)@) == fact_set(old(targets)@).insert(fact_view(f)),
{
    proof { lemma_fact_set_push(targets@, f); }
    targets.push(f);
}

/// No facts.
proof fn lemma_fact_set_empty()
    ensures
        fact_set(Seq::<DataFlowFact<AccessPath>>::empty()) == Set::<DataFlowFact<PathView>>::empty(),
{
    let f = |a: DataFlowFact<AccessPath>| fact_view(a);
    assert(Seq::<DataFlowFact<AccessPath>>::empty().map_values(f) =~= Seq::<DataFlowFact<PathView>>::empty());
    assert(Seq::<DataFlowFact<PathView>>::empty().to_set() =~= Set::<DataFlowFact<PathView>>::empty());
}

/// The flow of taint through one instruction.
pub struct TaintNormalFlow<'a> {
    curr: IcfgNode,
    succ: IcfgNode,
    program: &'a Program,
    alias_result: &'a AliasResult,
    rules: &'a RuleRegistry,
}

impl<'a> TaintNormalFlow<'a> {
    /// The facts after the flow's node, given one before it.
    pub open spec fn facts_after(&self, fact: DataFlowFact<PathView>) -> Set<DataFlowFact<PathView>> {
        normal_flow_facts(self.program_of(), self.rules_of(), self.states_of(), self.node(), fact)
    }

    /// The program the flow reads.
    pub closed spec fn program_of(&self) -> Program {
        *self.program
    }

    /// The rules the flow applies.
    pub closed spec fn rules_of(&self) -> RegistryView {
        self.rules@
    }

    /// The alias states the flow consults.
    pub closed spec fn states_of(&self) -> Seq<(IcfgNode, crate::alias::AliasState)> {
        self.alias_result.states@
    }

    /// The node the flow goes through.
    pub closed spec fn node(&self) -> IcfgNode {
        self.curr
    }

    #[verifier::type_invariant]
    spec fn inv(self) -> bool {
        &&& self.program.wf()
        &&& states_wf(self.alias_result.states@)
    }
}

impl<'a> NormalFlowFunction<AccessPath> for TaintNormalFlow<'a> {
    fn compute(&self, fact: &DataFlowFact<AccessPath>) -> (targets: Vec<DataFlowFact<AccessPath>>)
        ensures
            fact_set(targets@) == self.facts_after(fact_view(*fact)),
    {
        proof { use_type_invariant(self); lemma_fact_set_empty(); }
        let ghost want = normal_flow_facts(*self.program, self.rules@, self.alias_result.states@, self.curr, fact_view(*fact));
        let mut targets: Vec<DataFlowFact<AccessPath>> = Vec::new();
        let inst_id = match self.curr {
            IcfgNode::Instruction(id) => id,
            _ => {
                push_fact(&mut targets, copy_fact(fact));
                assert(fact_set(targets@) =~= want);
                return targets;
            },
        };
        let inst = match self.program.instruction(inst_id) {
            Some(i) => i,
            None => {
                push_fact(&mut targets, copy_fact(fact));
                assert(fact_set(targets@) =~= want);
                return targets;
            },
        };
        assert(kind_of(*self.program, inst_id) == Some(inst.kind));
        match &inst.kind {
            InstructionKind::Call { dest, callee, args } => {
                let is_source = self.rules.is_source(callee.as_str());
                let is_sanitizer = self.rules.is_sanitizer(callee.as_str());
                let is_propagator = self.rules.is_propagator(callee.as_str());
                match fact {
                    DataFlowFact::Zero => {
                        push_fact(&mut targets, DataFlowFact::Zero);
                        if is_source {
                            match dest {
                                Some(d) => { push_fact(&mut targets, DataFlowFact::Fact(operand_to_access_path(d))); },
                                None => {},
                            }
                        }
                    },
                    DataFlowFact::Fact(ap) => {
                        if is_sanitizer {
                            match dest {
                                Some(d) => {
                                    if !operand_to_access_path(d).same_as(ap) {
                                        push_fact(&mut targets, DataFlowFact::Fact(ap.duplicate()));
                                    }
                                },
                                None => { push_fact(&mut targets, DataFlowFact::Fact(ap.duplicate())); },
                            }
                        } else {
                            if is_propagator {
                                match propagated_target(dest, args, ap) {
                                    Some(t) => { push_fact(&mut targets, t); },
                                    None => {},
                                }
                            }
                            push_fact(&mut targets, DataFlowFact::Fact(ap.duplicate()));
                        }
                    },
                }
            },
            InstructionKind::Assign { dest, src } => {
                let dest_ap = operand_to_access_path(dest);
                let src_ap = operand_to_access_path(src);
                match fact {
                    DataFlowFact::Zero => { push_fact(&mut targets, DataFlowFact::Zero); },
                    DataFlowFact::Fact(ap) => {
                        if ap.same_as(&src_ap) {
                            push_fact(&mut targets, DataFlowFact::Fact(ap.duplicate()));
                            push_fact(&mut targets, DataFlowFact::Fact(dest_ap));
                        } else if ap.same_as(&dest_ap) {
                        } else {
                            push_fact(&mut targets, DataFlowFact::Fact(ap.duplicate()));
                        }
                    },
                }
            },
            InstructionKind::Alloc { dest, .. } => {
                let dest_ap = operand_to_access_path(dest);
                match fact {
                    DataFlowFact::Zero => { push_fact(&mut targets, DataFlowFact::Zero); },
                    DataFlowFact::Fact(ap) => {
                        if !ap.same_as(&dest_ap) {
                            push_fact(&mut targets, DataFlowFact::Fact(ap.duplicate()));
                        }
                    },
                }
            },
            InstructionKind::HeapLoad { dest, base, field } => {
                let dest_ap = operand_to_access_path(dest);
                let base_ap = operand_to_access_path(base);
                let base_field_ap = base_ap.append_field(field.clone());
                match fact {
                    DataFlowFact::Zero => { push_fact(&mut targets, DataFlowFact::Zero); },
                    DataFlowFact::Fact(ap) => {
                        if !ap.same_as(&dest_ap) {
                            push_fact(&mut targets, DataFlowFact::Fact(ap.duplicate()));
                            let is_base_tainted = ap.same_as(&base_ap);
                            let is_field_tainted = ap.same_as(&base_field_ap)
                                || paths_may_alias(self.alias_result, &self.curr, ap, &base_field_ap);
                            if is_base_tainted || is_field_tainted {
                                push_fact(&mut targets, DataFlowFact::Fact(dest_ap));
                            }
                        }
                    },
                }
            },
            InstructionKind::HeapStore { base, field, src } => {
                let base_ap = operand_to_access_path(base);
                let src_ap = operand_to_access_path(src);
                let base_field_ap = base_ap.append_field(field.clone());
                match fact {
                    DataFlowFact::Zero => { push_fact(&mut targets, DataFlowFact::Zero); },
                    DataFlowFact::Fact(ap) => {
                        push_fact(&mut targets, DataFlowFact::Fact(ap.duplicate()));
                        if ap.same_as(&src_ap) {
                            push_fact(&mut targets, DataFlowFact::Fact(base_field_ap));
                        }
                    },
                }
            },
            _ => { push_fact(&mut targets, copy_fact(fact)); },
        }
        assert(fact_set(targets@) =~= want);
        targets
    }
}


/// How many leading arguments of a call fill no parameter: one receiver
/// when there are more arguments than parameters.
pub open spec fn call_offset(nargs: int, nparams: int) -> int {
    if nargs > nparams { 1 } else { 0 }
}

/// The path of a local variable.
pub open spec fn local_path(name: Seq<char>) -> PathView {
    PathView { root: RootView::Local(name), segments: Seq::empty(), hooks: None }
}

/// Whether parameter `i` receives an argument whose path is `ap`.
pub open spec fn binds_param(args: Seq<Operand>, nparams: int, ap: PathView, i: int) -> bool {
    let j = i + call_offset(args.len() as int, nparams);
    0 <= i < nparams && j < args.len() && operand_path(args[j]) == ap
}

/// The parameters, as facts, that receive an argument whose path is `ap`.
pub open spec fn bound_params(args: Seq<Operand>, params: Seq<String>, ap: PathView) -> Set<DataFlowFact<PathView>> {
    Set::new(|f: DataFlowFact<PathView>| exists|i: int| #[trigger] binds_param(args, params.len() as int, ap, i)
        && f == DataFlowFact::Fact(local_path(params[i]@)))
}

/// The facts at a callee's entry given one at the call: the zero fact
/// stays, and a tainted argument taints the parameter it fills.
pub open spec fn call_flow_facts(p: Program, call_id: InstructionId, callee_id: MethodId, fact: DataFlowFact<PathView>) -> Set<DataFlowFact<PathView>> {
    match fact {
        DataFlowFact::Zero => set![DataFlowFact::Zero],
        DataFlowFact::Fact(ap) => match (kind_of(p, call_id), p.method_index(callee_id)) {
            (Some(InstructionKind::Call { args, .. }), Some(k)) => bound_params(args@, p.methods@[k].parameters@, ap),
            _ => Set::empty(),
        },
    }
}

/// Whether instruction `id` returns the value of path `ap`.
pub open spec fn returns_path(p: Program, id: InstructionId, ap: PathView) -> bool {
    match kind_of(p, id) {
        Some(InstructionKind::Return { val: Some(r) }) => operand_path(r) == ap,
        _ => false,
    }
}

/// The facts at a return site given one at the callee's exit: a returned
/// tainted value taints the call's destination.
pub open spec fn return_flow_facts(p: Program, call_id: InstructionId, callee_id: MethodId, exit_fact: DataFlowFact<PathView>) -> Set<DataFlowFact<PathView>> {
    match exit_fact {
        DataFlowFact::Zero => Set::empty(),
        DataFlowFact::Fact(ap) => match (kind_of(p, call_id), p.method_index(callee_id)) {
            (Some(InstructionKind::Call { dest: Some(d), .. }), Some(k)) =>
                if exists|j: int| 0 <= j < p.methods@[k].body@.len() && #[trigger] returns_path(p, p.methods@[k].body@[j], ap) {
                    set![DataFlowFact::Fact(operand_path(d))]
                } else {
                    Set::empty()
                },
            _ => Set::empty(),
        },
    }
}

/// The facts along the bypass of a call: a source call taints its
/// destination out of the zero fact; a sanitizer call clears its
/// destination; a propagator call passes taint from its arguments; every
/// other fact stays.
pub open spec fn call_to_return_facts(p: Program, reg: RegistryView, call_id: InstructionId, fact: DataFlowFact<PathView>) -> Set<DataFlowFact<PathView>> {
    match fact {
        DataFlowFact::Zero => match kind_of(p, call_id) {
            Some(InstructionKind::Call { dest: Some(d), callee, .. }) =>
                if any_hit(reg.sources, callee@) { set![DataFlowFact::Zero, DataFlowFact::Fact(operand_path(d))] } else { set![DataFlowFact::Zero] },
            _ => set![DataFlowFact::Zero],
        },
        DataFlowFact::Fact(ap) => match kind_of(p, call_id) {
            Some(InstructionKind::Call { dest, callee, args }) => {
                let prop = if any_hit(reg.propagators, callee@) { propagated(dest, args@, ap) } else { Set::empty() };
                if any_hit(reg.sanitizers, callee@) && dest is Some && ap == operand_path(dest->0) {
                    prop
                } else {
                    prop.insert(DataFlowFact::Fact(ap))
                }
            },
            _ => set![DataFlowFact::Fact(ap)],
        },
    }
}

/// The flow of taint from a call into its callee.
pub struct TaintCallFlow<'a> {
    call_inst_id: InstructionId,
    callee_id: MethodId,
    program: &'a Program,
}

impl<'a> TaintCallFlow<'a> {
    #[verifier::type_invariant]
    spec fn inv(self) -> bool {
        self.program.wf()
    }

    /// The facts at the callee's entry, given one at the call.
    pub open spec fn facts_after(&self, fact: DataFlowFact<PathView>) -> Set<DataFlowFact<PathView>> {
        call_flow_facts(self.program_of(), self.call_of(), self.callee_of(), fact)
    }

    /// The program the flow reads.
    pub closed spec fn program_of(&self) -> Program {
        *self.program
    }

    /// The call instruction.
    pub closed spec fn call_of(&self) -> InstructionId {
        self.call_inst_id
    }

    /// The callee.
    pub closed spec fn callee_of(&self) -> MethodId {
        self.callee_id
    }
}

impl<'a> CallFlowFunction<AccessPath> for TaintCallFlow<'a> {
    fn compute(&self, fact: &DataFlowFact<AccessPath>) -> (targets: Vec<DataFlowFact<AccessPath>>)
        ensures
            fact_set(targets@) == self.facts_after(fact_view(*fact)),
    {
        proof { use_type_invariant(self); lemma_fact_set_empty(); }
        let ghost want = self.facts_after(fact_view(*fact));
        let mut targets: Vec<DataFlowFact<AccessPath>> = Vec::new();
        let ap = match fact {
            DataFlowFact::Zero => {
                push_fact(&mut targets, DataFlowFact::Zero);
                assert(fact_set(targets@) =~= want);
                return targets;
            },
            DataFlowFact::Fact(ap) => ap,
        };
        let args = match self.program.instruction(self.call_inst_id) {
            Some(inst) => match &inst.kind {
                InstructionKind::Call { args, .. } => args,
                _ => {
                    assert(fact_set(targets@) =~= want);
                    return targets;
                },
            },
            None => {
                assert(fact_set(targets@) =~= want);
                return targets;
            },
        };
        let callee = match self.program.method(self.callee_id) {
            Some(m) => m,
            None => {
                assert(fact_set(targets@) =~= want);
                return targets;
            },
        };
        let ghost params = callee.parameters@;
        let offset: usize = if args.len() > callee.parameters.len() { 1 } else { 0 };
        let mut idx: usize = 0;
        while idx < callee.parameters.len()
            invariant
                idx <= params.len(),
                params == callee.parameters@,
                offset == call_offset(args@.len() as int, params.len() as int),
                offset == 1 ==> params.len() < args@.len(),
                forall|f: DataFlowFact<PathView>| #[trigger] fact_set(targets@).contains(f) <==>
                    exists|i: int| #[trigger] binds_param(args@, params.len() as int, ap@, i) && i < idx
                        && f == DataFlowFact::Fact(local_path(params[i]@)),
            decreases callee.parameters.len() - idx,
        {
            if idx + offset < args.len() && operand_to_access_path(&args[idx + offset]).same_as(ap) {
                let param_ap = AccessPath::new(PathRoot::Local(callee.parameters[idx].clone()));
                push_fact(&mut targets, DataFlowFact::Fact(param_ap));
                assert(binds_param(args@, params.len() as int, ap@, idx as int));
            } else {
                assert(!binds_param(args@, params.len() as int, ap@, idx as int));
            }
            idx = idx + 1;
        }
        assert(fact_set(targets@) =~= want);
        targets
    }
}

/// The flow of taint from a callee's exit back to its call.
pub struct TaintReturnFlow<'a> {
    call_inst_id: InstructionId,
    callee_id: MethodId,
    program: &'a Program,
}

impl<'a> TaintReturnFlow<'a> {
    #[verifier::type_invariant]
    spec fn inv(self) -> bool {
        self.program.wf()
    }

    /// The facts at the return site, given one at the callee's exit.
    pub open spec fn facts_after(&self, exit_fact: DataFlowFact<PathView>) -> Set<DataFlowFact<PathView>> {
        return_flow_facts(self.program_of(), self.call_of(), self.callee_of(), exit_fact)
    }

    /// The program the flow reads.
    pub closed spec fn program_of(&self) -> Program {
        *self.program
    }

    /// The call instruction.
    pub closed spec fn call_of(&self) -> InstructionId {
        self.call_inst_id
    }

    /// The callee.
    pub closed spec fn callee_of(&self) -> MethodId {
        self.callee_id
    }
}

impl<'a> ReturnFlowFunction<AccessPath> for TaintReturnFlow<'a> {
    #[verifier::loop_isolation(false)]
    fn compute(&self, call_site_fact: &DataFlowFact<AccessPath>, exit_fact: &DataFlowFact<AccessPath>) -> (targets: Vec<DataFlowFact<AccessPath>>)
        ensures
            fact_set(targets@) == self.facts_after(fact_view(*exit_fact)),
    {
        proof { use_type_invariant(self); lemma_fact_set_empty(); }
        let ghost want = self.facts_after(fact_view(*exit_fact));
        let mut targets: Vec<DataFlowFact<AccessPath>> = Vec::new();
        let ap = match exit_fact {
            DataFlowFact::Zero => {
                assert(fact_set(targets@) =~= want);
                return targets;
            },
            DataFlowFact::Fact(ap) => ap,
        };
        let dest_op = match self.program.instruction(self.call_inst_id) {
            Some(inst) => match &inst.kind {
                InstructionKind::Call { dest: Some(d), .. } => d,
                _ => {
                    assert(fact_set(targets@) =~= want);
                    return targets;
                },
            },
            None => {
                assert(fact_set(targets@) =~= want);
                return targets;
            },
        };
        let callee = match self.program.method(self.callee_id) {
            Some(m) => m,
            None => {
                assert(fact_set(targets@) =~= want);
                return targets;
            },
        };
        let mut j: usize = 0;
        while j < callee.body.len()
            invariant
                j <= callee.body@.len(),
                targets@.len() == 0,
                forall|k: int| 0 <= k < j ==> !#[trigger] returns_path(*self.program, callee.body@[k], ap@),
            decreases callee.body.len() - j,
        {
            let body_id = callee.body[j];
            match self.program.instruction(body_id) {
                Some(body_inst) => {
                    match &body_inst.kind {
                        InstructionKind::Return { val: Some(ret_op) } => {
                            if operand_to_access_path(ret_op).same_as(ap) {
                                assert(returns_path(*self.program, callee.body@[j as int], ap@));
                                push_fact(&mut targets, DataFlowFact::Fact(operand_to_access_path(dest_op)));
                                assert(fact_set(targets@) =~= want);
                                return targets;
                            }
                        },
                        _ => {},
                    }
                },
                None => {},
            }
            j = j + 1;
        }
        assert(fact_set(targets@) =~= want);
        targets
    }
}

/// The flow of taint along the bypass of a call.
pub struct TaintCallToReturnFlow<'a> {
    call_inst_id: InstructionId,
    program: &'a Program,
    rules: &'a RuleRegistry,
}

impl<'a> TaintCallToReturnFlow<'a> {
    #[verifier::type_invariant]
    spec fn inv(self) -> bool {
        self.program.wf()
    }

    /// The facts at the return site, given one at the call.
    pub open spec fn facts_after(&self, fact: DataFlowFact<PathView>) -> Set<DataFlowFact<PathView>> {
        call_to_return_facts(self.program_of(), self.rules_of(), self.call_of(), fact)
    }

    /// The program the flow reads.
    pub closed spec fn program_of(&self) -> Program {
        *self.program
    }

    /// The rules the flow applies.
    pub closed spec fn rules_of(&self) -> RegistryView {
        self.rules@
    }

    /// The call instruction.
    pub closed spec fn call_of(&self) -> InstructionId {
        self.call_inst_id
    }
}

impl<'a> CallToReturnFlowFunction<AccessPath> for TaintCallToReturnFlow<'a> {
    fn compute(&self, fact: &DataFlowFact<AccessPath>) -> (targets: Vec<DataFlowFact<AccessPath>>)
        ensures
            fact_set(targets@) == self.facts_after(fact_view(*fact)),
    {
        proof { use_type_invariant(self); lemma_fact_set_empty(); }
        let ghost want = self.facts_after(fact_view(*fact));
        let mut targets: Vec<DataFlowFact<AccessPath>> = Vec::new();
        let kind = match self.program.instruction(self.call_inst_id) {
            Some(inst) => Some(&inst.kind),
            None => None,
        };
        match fact {
            DataFlowFact::Zero => {
                push_fact(&mut targets, DataFlowFact::Zero);
                match kind {
                    Some(InstructionKind::Call { dest: Some(d), callee, .. }) => {
                        if self.rules.is_source(callee.as_str()) {
                            push_fact(&mut targets, DataFlowFact::Fact(operand_to_access_path(d)));
                        }
                    },
                    _ => {},
                }
            },
            DataFlowFact::Fact(ap) => {
                let mut skip = false;
                match kind {
                    Some(InstructionKind::Call { dest, callee, args }) => {
                        if self.rules.is_sanitizer(callee.as_str()) {
                            match dest {
                                Some(d) => {
                                    if ap.same_as(&operand_to_access_path(d)) {
                                        skip = true;
                                    }
                                },
                                None => {},
                            }
                        }
                        if self.rules.is_propagator(callee.as_str()) {
                            match propagated_target(dest, args, ap) {
                                Some(t) => { push_fact(&mut targets, t); },
                                None => {},
                            }
                        }
                    },
                    _ => {},
                }
                if !skip {
                    push_fact(&mut targets, DataFlowFact::Fact(ap.duplicate()));
                }
            },
        }
        assert(fact_set(targets@) =~= want);
        targets
    }
}


/// The flow into a callee for a pair of nodes that is not a call and an
/// entry: every fact passes.
pub struct IdentityCallFlow;

impl CallFlowFunction<AccessPath> for IdentityCallFlow {
    fn compute(&self, fact: &DataFlowFact<AccessPath>) -> (targets: Vec<DataFlowFact<AccessPath>>)
        ensures
            fact_set(targets@) == set![fact_view(*fact)],
    {
        proof { lemma_fact_set_empty(); }
        let mut targets: Vec<DataFlowFact<AccessPath>> = Vec::new();
        push_fact(&mut targets, copy_fact(fact));
        assert(fact_set(targets@) =~= set![fact_view(*fact)]);
        targets
    }
}

/// The flow back from a callee whose call site is not known: nothing passes.
pub struct IdentityReturnFlow;

impl ReturnFlowFunction<AccessPath> for IdentityReturnFlow {
    fn compute(&self, call_site_fact: &DataFlowFact<AccessPath>, exit_fact: &DataFlowFact<AccessPath>) -> (targets: Vec<DataFlowFact<AccessPath>>)
        ensures
            targets@.len() == 0,
    {
        Vec::new()
    }
}

/// The bypass of a node that is not an instruction: every fact passes.
pub struct IdentityCallToReturnFlow;

impl CallToReturnFlowFunction<AccessPath> for IdentityCallToReturnFlow {
    fn compute(&self, fact: &DataFlowFact<AccessPath>) -> (targets: Vec<DataFlowFact<AccessPath>>)
        ensures
            fact_set(targets@) == set![fact_view(*fact)],
    {
        proof { lemma_fact_set_empty(); }
        let mut targets: Vec<DataFlowFact<AccessPath>> = Vec::new();
        push_fact(&mut targets, copy_fact(fact));
        assert(fact_set(targets@) =~= set![fact_view(*fact)]);
        targets
    }
}

/// The call instruction of the first call-to-return edge into a return
/// site, among its predecessors in order.
pub open spec fn call_site_of(preds: Seq<(IcfgNode, IcfgEdgeKind)>) -> Option<InstructionId>
    decreases preds.len(),
{
    if preds.len() == 0 {
        None
    } else if preds[0].1 == IcfgEdgeKind::CallToReturn && preds[0].0 is Instruction {
        Some(preds[0].0->Instruction_0)
    } else {
        call_site_of(preds.drop_first())
    }
}

/// Whether some edge out of a node is a call edge.
pub open spec fn has_call_edge(succs: Seq<(IcfgNode, IcfgEdgeKind)>) -> bool {
    exists|i: int| 0 <= i < succs.len() && (#[trigger] succs[i]).1 == IcfgEdgeKind::Call
}

/// The nodes of a list of neighbours.
pub open spec fn neighbour_nodes(v: Seq<(IcfgNode, IcfgEdgeKind)>) -> Seq<IcfgNode> {
    v.map_values(|e: (IcfgNode, IcfgEdgeKind)| e.0)
}

/// Taint analysis as an IFDS problem over a program's interprocedural
/// graph, its alias facts and a rule registry, seeded at the entries of
/// `entry_methods`.
pub struct TaintProblem<'a> {
    program: &'a Program,
    icfg: &'a InterproceduralFlowGraph,
    alias_result: &'a AliasResult,
    rules: &'a RuleRegistry,
    entry_methods: Vec<MethodId>,
}

impl<'a> TaintProblem<'a> {
    #[verifier::type_invariant]
    spec fn inv(self) -> bool {
        &&& self.program.wf()
        &&& states_wf(self.alias_result.states@)
    }

    pub closed spec fn program_view(&self) -> Program {
        *self.program
    }

    pub closed spec fn graph_view(&self) -> InterproceduralFlowGraph {
        *self.icfg
    }

    pub closed spec fn alias_view(&self) -> AliasResult {
        *self.alias_result
    }

    pub closed spec fn rules_view(&self) -> RegistryView {
        self.rules@
    }

    pub closed spec fn entries_view(&self) -> Seq<MethodId> {
        self.entry_methods@
    }

    /// The problem over the given parts.
    pub fn new(
        program: &'a Program,
        icfg: &'a InterproceduralFlowGraph,
        alias_result: &'a AliasResult,
        rules: &'a RuleRegistry,
        entry_methods: Vec<MethodId>,
    ) -> (r: Self)
        requires
            program.wf(),
            states_wf(alias_result.states@),
        ensures
            r.program_view() == *program,
            r.graph_view() == *icfg,
            r.alias_view() == *alias_result,
            r.rules_view() == rules@,
            r.entries_view() == entry_methods@,
    {
        TaintProblem { program, icfg, alias_result, rules, entry_methods }
    }

    /// The call instruction whose call-to-return edge leads to `ret_node`,
    /// if any.
    fn find_callsite_for_return_site(&self, ret_node: IcfgNode) -> (r: Option<InstructionId>)
        ensures
            r == call_site_of(preds_along(self.icfg.edges@, ret_node)),
    {
        let preds = self.icfg.predecessors(ret_node);
        let mut i: usize = 0;
        assert(preds@.skip(0) =~= preds@);
        while i < preds.len()
            invariant
                i <= preds@.len(),
                preds@ == preds_along(self.icfg.edges@, ret_node),
                call_site_of(preds@) == call_site_of(preds@.skip(i as int)),
            decreases preds.len() - i,
        {
            assert(preds@.skip(i as int)[0] == preds@[i as int]);
            assert(preds@.skip(i as int).drop_first() =~= preds@.skip(i + 1int));
            let (pred_node, edge_kind) = preds[i];
            if edge_kind == IcfgEdgeKind::CallToReturn {
                match pred_node {
                    IcfgNode::Instruction(call_id) => {
                        assert(preds@.skip(i as int).len() > 0);
                        assert(call_site_of(preds@.skip(i as int)) == Some(call_id));
                        return Some(call_id);
                    },
                    _ => {},
                }
            }
            i = i + 1;
        }
        assert(preds@.skip(i as int) =~= Seq::<(IcfgNode, IcfgEdgeKind)>::empty());
        None
    }
}

/// Whether two taint problems have the same program, graph, alias
/// result, rules and entry methods.
pub open spec fn same_problem<'a>(a: TaintProblem<'a>, b: TaintProblem<'a>) -> bool {
    &&& a.program_view() == b.program_view()
    &&& a.graph_view() == b.graph_view()
    &&& a.alias_view() == b.alias_view()
    &&& a.rules_view() == b.rules_view()
    &&& a.entries_view() == b.entries_view()
}

impl<'a> Clone for TaintProblem<'a> {
    fn clone(&self) -> (r: Self)
        ensures
            r.program_view() == self.program_view(),
            r.graph_view() == self.graph_view(),
            r.alias_view() == self.alias_view(),
            r.rules_view() == self.rules_view(),
            r.entries_view() == self.entries_view(),
    {
        proof { use_type_invariant(self); }
        let mut entries: Vec<MethodId> = Vec::new();
        let mut i: usize = 0;
        while i < self.entry_methods.len()
            invariant
                i <= self.entry_methods@.len(),
                entries@ == self.entry_methods@.take(i as int),
            decreases self.entry_methods.len() - i,
        {
            entries.push(self.entry_methods[i]);
            assert(self.entry_methods@.take(i + 1int) =~= self.entry_methods@.take(i as int).push(self.entry_methods@[i as int]));
            i = i + 1;
        }
        assert(self.entry_methods@.take(self.entry_methods@.len() as int) =~= self.entry_methods@);
        TaintProblem { program: self.program, icfg: self.icfg, alias_result: self.alias_result, rules: self.rules, entry_methods: entries }
    }
}

impl<'a> TabulationProblem for TaintProblem<'a> {
    type Node = IcfgNode;
    type Fact = AccessPath;

    fn initial_seeds(&self) -> (r: Vec<(IcfgNode, Vec<DataFlowFact<AccessPath>>)>)
        ensures
            r@.len() == self.entries_view().len(),
            forall|i: int| 0 <= i < r@.len() ==> (#[trigger] r@[i]).0 == IcfgNode::Entry(self.entries_view()[i])
                && r@[i].1@ == seq![DataFlowFact::<AccessPath>::Zero],
    {
        let mut seeds: Vec<(IcfgNode, Vec<DataFlowFact<AccessPath>>)> = Vec::new();
        let mut i: usize = 0;
        while i < self.entry_methods.len()
            invariant
                i <= self.entry_methods@.len(),
                seeds@.len() == i,
                forall|k: int| 0 <= k < i ==> (#[trigger] seeds@[k]).0 == IcfgNode::Entry(self.entry_methods@[k])
                    && seeds@[k].1@ == seq![DataFlowFact::<AccessPath>::Zero],
            decreases self.entry_methods.len() - i,
        {
            let mut facts: Vec<DataFlowFact<AccessPath>> = Vec::new();
            facts.push(DataFlowFact::Zero);
            assert(facts@ =~= seq![DataFlowFact::<AccessPath>::Zero]);
            seeds.push((IcfgNode::Entry(self.entry_methods[i]), facts));
            i = i + 1;
        }
        seeds
    }

    fn zero_value(&self) -> (r: DataFlowFact<AccessPath>)
        ensures
            r == DataFlowFact::<AccessPath>::Zero,
    {
        DataFlowFact::Zero
    }

    fn successors(&self, node: &IcfgNode) -> (r: Vec<IcfgNode>)
        ensures
            r@ == neighbour_nodes(succs_along(self.graph_view().edges@, *node)),
    {
        let succs = self.icfg.successors(*node);
        let mut r: Vec<IcfgNode> = Vec::new();
        let mut i: usize = 0;
        while i < succs.len()
            invariant
                i <= succs@.len(),
                r@ == neighbour_nodes(succs@.take(i as int)),
            decreases succs.len() - i,
        {
            r.push(succs[i].0);
            assert(neighbour_nodes(succs@.take(i + 1int)) =~= neighbour_nodes(succs@.take(i as int)).push(succs@[i as int].0));
            i = i + 1;
        }
        assert(succs@.take(succs@.len() as int) =~= succs@);
        r
    }

    fn predecessors(&self, node: &IcfgNode) -> (r: Vec<IcfgNode>)
        ensures
            r@ == neighbour_nodes(preds_along(self.graph_view().edges@, *node)),
    {
        let preds = self.icfg.predecessors(*node);
        let mut r: Vec<IcfgNode> = Vec::new();
        let mut i: usize = 0;
        while i < preds.len()
            invariant
                i <= preds@.len(),
                r@ == neighbour_nodes(preds@.take(i as int)),
            decreases preds.len() - i,
        {
            r.push(preds[i].0);
            assert(neighbour_nodes(preds@.take(i + 1int)) =~= neighbour_nodes(preds@.take(i as int)).push(preds@[i as int].0));
            i = i + 1;
        }
        assert(preds@.take(preds@.len() as int) =~= preds@);
        r
    }

    fn is_call_site(&self, node: &IcfgNode) -> (r: bool)
        ensures
            r == has_call_edge(succs_along(self.graph_view().edges@, *node)),
    {
        let succs = self.icfg.successors(*node);
        let mut i: usize = 0;
        while i < succs.len()
            invariant
                i <= succs@.len(),
                succs@ == succs_along(self.graph_view().edges@, *node),
                forall|k: int| 0 <= k < i ==> (#[trigger] succs@[k]).1 != IcfgEdgeKind::Call,
            decreases succs.len() - i,
        {
            if succs[i].1 == IcfgEdgeKind::Call {
                assert(succs@[i as int].1 == IcfgEdgeKind::Call);
                assert(has_call_edge(succs@));
                return true;
            }
            i = i + 1;
        }
        false
    }

    fn is_exit_node(&self, node: &IcfgNode) -> (r: bool)
        ensures
            r == (*node is Exit),
    {
        match node {
            IcfgNode::Exit(_) => true,
            _ => false,
        }
    }

    fn normal_flow(&self, curr: &IcfgNode, succ: &IcfgNode, fact: &DataFlowFact<AccessPath>) -> (r: Vec<DataFlowFact<AccessPath>>)
        ensures
            fact_set(r@) == normal_flow_facts(self.program_view(), self.rules_view(), self.alias_view().states@, *curr, fact_view(*fact)),
    {
        proof { use_type_invariant(self); }
        let flow = TaintNormalFlow { curr: *curr, succ: *succ, program: self.program, alias_result: self.alias_result, rules: self.rules };
        flow.compute(fact)
    }

    fn call_flow(&self, call: &IcfgNode, entry: &IcfgNode, fact: &DataFlowFact<AccessPath>) -> (r: Vec<DataFlowFact<AccessPath>>)
        ensures
            fact_set(r@) == match (*call, *entry) {
                (IcfgNode::Instruction(c), IcfgNode::Entry(m)) => call_flow_facts(self.program_view(), c, m, fact_view(*fact)),
                _ => set![fact_view(*fact)],
            },
    {
        proof { use_type_invariant(self); }
        match (call, entry) {
            (IcfgNode::Instruction(call_inst_id), IcfgNode::Entry(callee_id)) => {
                let flow = TaintCallFlow { call_inst_id: *call_inst_id, callee_id: *callee_id, program: self.program };
                flow.compute(fact)
            },
            _ => IdentityCallFlow.compute(fact),
        }
    }

    fn return_flow(
        &self,
        exit: &IcfgNode,
        ret: &IcfgNode,
        call_site_fact: &DataFlowFact<AccessPath>,
        exit_fact: &DataFlowFact<AccessPath>,
    ) -> (r: Vec<DataFlowFact<AccessPath>>)
        ensures
            fact_set(r@) == match (call_site_of(preds_along(self.graph_view().edges@, *ret)), *exit) {
                (Some(c), IcfgNode::Exit(m)) => return_flow_facts(self.program_view(), c, m, fact_view(*exit_fact)),
                _ => Set::<DataFlowFact<PathView>>::empty(),
            },
    {
        proof { use_type_invariant(self); lemma_fact_set_empty(); }
        match self.find_callsite_for_return_site(*ret) {
            Some(call_inst_id) => {
                match exit {
                    IcfgNode::Exit(callee_id) => {
                        let flow = TaintReturnFlow { call_inst_id, callee_id: *callee_id, program: self.program };
                        return flow.compute(call_site_fact, exit_fact);
                    },
                    _ => {},
                }
            },
            None => {},
        }
        let r = IdentityReturnFlow.compute(call_site_fact, exit_fact);
        assert(r@ =~= Seq::<DataFlowFact<AccessPath>>::empty());
        r
    }

    fn call_to_return_flow(&self, call: &IcfgNode, ret: &IcfgNode, fact: &DataFlowFact<AccessPath>) -> (r: Vec<DataFlowFact<AccessPath>>)
        ensures
            fact_set(r@) == match *call {
                IcfgNode::Instruction(c) => call_to_return_facts(self.program_view(), self.rules_view(), c, fact_view(*fact)),
                _ => set![fact_view(*fact)],
            },
    {
        proof { use_type_invariant(self); }
        match call {
            IcfgNode::Instruction(call_inst_id) => {
                let flow = TaintCallToReturnFlow { call_inst_id: *call_inst_id, program: self.program, rules: self.rules };
                flow.compute(fact)
            },
            _ => IdentityCallToReturnFlow.compute(fact),
        }
    }
}


/// The facts recorded for `node`: those of its first entry, if any.
pub open spec fn facts_at(entries: Seq<(IcfgNode, Vec<DataFlowFact<AccessPath>>)>, node: IcfgNode) -> Option<Seq<DataFlowFact<AccessPath>>>
    decreases entries.len(),
{
    if entries.len() == 0 {
        None
    } else if entries[0].0 == node {
        Some(entries[0].1@)
    } else {
        facts_at(entries.drop_first(), node)
    }
}

/// Whether some path edge ends at `n`.
pub open spec fn has_node(edges: Seq<PathEdge<IcfgNode, AccessPath>>, n: IcfgNode) -> bool {
    exists|k: int| 0 <= k < edges.len() && (#[trigger] edges[k]).node == n
}

/// The target facts of the path edges that end at `n`.
pub open spec fn node_targets(edges: Seq<PathEdge<IcfgNode, AccessPath>>, n: IcfgNode) -> Set<DataFlowFact<PathView>> {
    Set::new(|f: DataFlowFact<PathView>| exists|k: int| 0 <= k < edges.len() && (#[trigger] edges[k]).node == n && fact_view(edges[k].target_fact) == f)
}

/// The facts that hold at each node after an analysis run, one entry per
/// node.
pub struct TaintResults {
    pub entries: Vec<(IcfgNode, Vec<DataFlowFact<AccessPath>>)>,
}

impl TaintResults {
    /// The facts recorded for `node`, if any.
    pub fn get(&self, node: &IcfgNode) -> (r: Option<&Vec<DataFlowFact<AccessPath>>>)
        ensures
            match r {
                Some(v) => facts_at(self.entries@, *node) == Some(v@),
                None => facts_at(self.entries@, *node) is None,
            },
    {
        let mut i: usize = 0;
        assert(self.entries@.skip(0) =~= self.entries@);
        while i < self.entries.len()
            invariant
                i <= self.entries@.len(),
                facts_at(self.entries@, *node) == facts_at(self.entries@.skip(i as int), *node),
            decreases self.entries.len() - i,
        {
            assert(self.entries@.skip(i as int)[0] == self.entries@[i as int]);
            assert(self.entries@.skip(i as int).drop_first() =~= self.entries@.skip(i + 1int));
            if self.entries[i].0 == *node {
                return Some(&self.entries[i].1);
            }
            i = i + 1;
        }
        assert(self.entries@.skip(i as int) =~= Seq::<(IcfgNode, Vec<DataFlowFact<AccessPath>>)>::empty());
        None
    }
}

/// Where the nodes of `entries` are distinct, the facts of a node are those
/// of its entry, and a node without entry has none.
proof fn lemma_facts_at_distinct(entries: Seq<(IcfgNode, Vec<DataFlowFact<AccessPath>>)>, node: IcfgNode)
    requires
        forall|a: int, b: int| 0 <= a < b < entries.len() ==> entries[a].0 != entries[b].0,
    ensures
        forall|a: int| 0 <= a < entries.len() && entries[a].0 == node ==> facts_at(entries, node) == Some(entries[a].1@),
        (forall|a: int| 0 <= a < entries.len() ==> entries[a].0 != node) ==> facts_at(entries, node) is None,
    decreases entries.len(),
{
    if entries.len() > 0 {
        let rest = entries.drop_first();
        assert forall|a: int, b: int| 0 <= a < b < rest.len() implies rest[a].0 != rest[b].0 by {
            assert(rest[a] == entries[a + 1] && rest[b] == entries[b + 1]);
        }
        lemma_facts_at_distinct(rest, node);
        assert forall|a: int| 0 <= a < entries.len() && entries[a].0 == node implies facts_at(entries, node) == Some(entries[a].1@) by {
            if a > 0 {
                assert(rest[a - 1] == entries[a]);
            }
        }
        if forall|a: int| 0 <= a < entries.len() ==> entries[a].0 != node {
            assert forall|a: int| 0 <= a < rest.len() implies rest[a].0 != node by {
                assert(rest[a] == entries[a + 1]);
            }
        }
    }
}

/// Whether two facts have the same view.
fn same_fact_view(a: &DataFlowFact<AccessPath>, b: &DataFlowFact<AccessPath>) -> (r: bool)
    ensures
        r == (fact_view(*a) == fact_view(*b)),
{
    match (a, b) {
        (DataFlowFact::Zero, DataFlowFact::Zero) => true,
        (DataFlowFact::Fact(x), DataFlowFact::Fact(y)) => x.same_as(y),
        _ => false,
    }
}

/// Whether the views of `v` hold the view of `f`.
fn holds_fact(v: &Vec<DataFlowFact<AccessPath>>, f: &DataFlowFact<AccessPath>) -> (r: bool)
    ensures
        r == fact_set(v@).contains(fact_view(*f)),
{
    let mut i: usize = 0;
    while i < v.len()
        invariant
            i <= v@.len(),
            forall|k: int| 0 <= k < i ==> fact_view(#[trigger] v@[k]) != fact_view(*f),
        decreases v.len() - i,
    {
        if same_fact_view(&v[i], f) {
            assert(v@.map_values(|x: DataFlowFact<AccessPath>| fact_view(x))[i as int] == fact_view(*f));
            return true;
        }
        i = i + 1;
    }
    proof {
        let m = v@.map_values(|x: DataFlowFact<AccessPath>| fact_view(x));
        if m.contains(fact_view(*f)) {
            let k = choose|k: int| 0 <= k < m.len() && m[k] == fact_view(*f);
            assert(fact_view(v@[k]) == fact_view(*f));
        }
    }
    false
}

/// The targets at a node over one more path edge.
proof fn lemma_targets_step(edges: Seq<PathEdge<IcfgNode, AccessPath>>, i: int, n: IcfgNode)
    requires
        0 <= i < edges.len(),
    ensures
        node_targets(edges.take(i + 1), n) == if edges[i].node == n {
            node_targets(edges.take(i), n).insert(fact_view(edges[i].target_fact))
        } else {
            node_targets(edges.take(i), n)
        },
        has_node(edges.take(i + 1), n) == (has_node(edges.take(i), n) || edges[i].node == n),
{
    let a = edges.take(i);
    let b = edges.take(i + 1);
    assert forall|k: int| 0 <= k < i implies b[k] == a[k] by {}
    assert(b[i] == edges[i]);
    let want = if edges[i].node == n { node_targets(a, n).insert(fact_view(edges[i].target_fact)) } else { node_targets(a, n) };
    assert forall|f: DataFlowFact<PathView>| node_targets(b, n).contains(f) <==> want.contains(f) by {
        if node_targets(b, n).contains(f) {
            let k = choose|k: int| 0 <= k < b.len() && (#[trigger] b[k]).node == n && fact_view(b[k].target_fact) == f;
            if k < i {
                assert(a[k] == b[k]);
                assert(node_targets(a, n).contains(f));
            }
        }
        if node_targets(a, n).contains(f) {
            let k = choose|k: int| 0 <= k < a.len() && (#[trigger] a[k]).node == n && fact_view(a[k].target_fact) == f;
            assert(b[k] == a[k]);
            assert(node_targets(b, n).contains(f));
        }
        if edges[i].node == n && f == fact_view(edges[i].target_fact) {
            assert(b[i].node == n);
            assert(node_targets(b, n).contains(f));
        }
    }
    assert(node_targets(b, n) =~= want);
    if has_node(b, n) {
        let k = choose|k: int| 0 <= k < b.len() && (#[trigger] b[k]).node == n;
        if k < i {
            assert(a[k] == b[k]);
        }
    }
    if has_node(a, n) {
        let k = choose|k: int| 0 <= k < a.len() && (#[trigger] a[k]).node == n;
        assert(b[k] == a[k]);
    }
    if edges[i].node == n {
        assert(b[i].node == n);
    }
}

/// The index of the entry for `node`, or the number of entries if none.
fn entry_index(entries: &Vec<(IcfgNode, Vec<DataFlowFact<AccessPath>>)>, node: &IcfgNode) -> (a: usize)
    ensures
        a <= entries@.len(),
        a < entries@.len() ==> entries@[a as int].0 == *node,
        forall|b: int| 0 <= b < a ==> entries@[b].0 != *node,
{
    let mut a: usize = 0;
    while a < entries.len()
        invariant
            a <= entries@.len(),
            forall|b: int| 0 <= b < a ==> entries@[b].0 != *node,
        decreases entries.len() - a,
    {
        if entries[a].0 == *node {
            return a;
        }
        a = a + 1;
    }
    a
}

/// Whether `entries` group `edges` by node: a node has an entry exactly
/// when some edge ends at it, and then the entry's facts are the targets of
/// those edges.
pub open spec fn groups_edges(entries: Seq<(IcfgNode, Vec<DataFlowFact<AccessPath>>)>, edges: Seq<PathEdge<IcfgNode, AccessPath>>) -> bool {
    forall|n: IcfgNode| #![trigger facts_at(entries, n)] match facts_at(entries, n) {
        Some(v) => has_node(edges, n) && fact_set(v) == node_targets(edges, n),
        None => !has_node(edges, n),
    }
}

/// Groups path edges by node: each node that some edge ends at gets one
/// entry, in the order the nodes first occur, with the target facts of its
/// edges, each once, in the order they first occur.
pub fn collect_results(edges: &Vec<PathEdge<IcfgNode, AccessPath>>) -> (r: TaintResults)
    ensures
        groups_edges(r.entries@, edges@),
{
    let mut entries: Vec<(IcfgNode, Vec<DataFlowFact<AccessPath>>)> = Vec::new();
    let mut i: usize = 0;
    while i < edges.len()
        invariant
            i <= edges@.len(),
            forall|a: int, b: int| 0 <= a < b < entries@.len() ==> entries@[a].0 != entries@[b].0,
            forall|a: int| 0 <= a < entries@.len() ==> has_node(edges@.take(i as int), #[trigger] entries@[a].0)
                && fact_set(entries@[a].1@) == node_targets(edges@.take(i as int), entries@[a].0),
            forall|n: IcfgNode| #[trigger] has_node(edges@.take(i as int), n) ==> exists|a: int| 0 <= a < entries@.len() && (#[trigger] entries@[a]).0 == n,
        decreases edges.len() - i,
    {
        let node = edges[i].node;
        let t = copy_fact(&edges[i].target_fact);
        let ghost old_entries = entries@;
        proof {
            assert forall|n: IcfgNode| #![trigger node_targets(edges@.take(i + 1int), n)] #![trigger has_node(edges@.take(i + 1int), n)] true implies node_targets(edges@.take(i + 1int), n) == (if edges@[i as int].node == n {
                node_targets(edges@.take(i as int), n).insert(fact_view(edges@[i as int].target_fact))
            } else {
                node_targets(edges@.take(i as int), n)
            }) && has_node(edges@.take(i + 1int), n) == (has_node(edges@.take(i as int), n) || edges@[i as int].node == n) by {
                lemma_targets_step(edges@, i as int, n);
            }
        }
        let a = entry_index(&entries, &node);
        if a < entries.len() {
            if !holds_fact(&entries[a].1, &t) {
                let (n0, mut facts) = entries.remove(a);
                proof { lemma_fact_set_push(facts@, t); }
                facts.push(t);
                entries.insert(a, (n0, facts));
                assert(entries@ =~= old_entries.update(a as int, (n0, facts)));
            }
            assert forall|b: int| 0 <= b < entries@.len() implies has_node(edges@.take(i + 1int), #[trigger] entries@[b].0)
                && fact_set(entries@[b].1@) == node_targets(edges@.take(i + 1int), entries@[b].0) by {
                if b != a {
                    assert(entries@[b] == old_entries[b]);
                }
            }
        } else {
            let mut facts: Vec<DataFlowFact<AccessPath>> = Vec::new();
            proof { lemma_fact_set_empty(); lemma_fact_set_push(facts@, t); }
            facts.push(t);
            entries.push((node, facts));
            assert forall|b: int| 0 <= b < entries@.len() implies has_node(edges@.take(i + 1int), #[trigger] entries@[b].0)
                && fact_set(entries@[b].1@) == node_targets(edges@.take(i + 1int), entries@[b].0) by {
                if b < old_entries.len() {
                    assert(entries@[b] == old_entries[b]);
                } else {
                    assert(!has_node(edges@.take(i as int), node));
                    assert(node_targets(edges@.take(i as int), node) =~= Set::<DataFlowFact<PathView>>::empty()) by {
                        assert forall|f: DataFlowFact<PathView>| !node_targets(edges@.take(i as int), node).contains(f) by {
                            if node_targets(edges@.take(i as int), node).contains(f) {
                                let k = choose|k: int| 0 <= k < edges@.take(i as int).len() && (#[trigger] edges@.take(i as int)[k]).node == node && fact_view(edges@.take(i as int)[k].target_fact) == f;
                                assert(has_node(edges@.take(i as int), node));
                            }
                        }
                    }
                    assert(fact_set(Seq::<DataFlowFact<AccessPath>>::empty().push(t)) == Set::<DataFlowFact<PathView>>::empty().insert(fact_view(t)));
                }
            }
        }
        assert forall|n: IcfgNode| #[trigger] has_node(edges@.take(i + 1int), n) implies exists|b: int| 0 <= b < entries@.len() && (#[trigger] entries@[b]).0 == n by {
            if has_node(edges@.take(i as int), n) {
                let b = choose|b: int| 0 <= b < old_entries.len() && (#[trigger] old_entries[b]).0 == n;
                assert(entries@[b].0 == n);
            } else {
                assert(n == node);
                assert(entries@[a as int].0 == n);
            }
        }
        i = i + 1;
    }
    assert(edges@.take(edges@.len() as int) =~= edges@);
    assert forall|n: IcfgNode| #![trigger facts_at(entries@, n)] match facts_at(entries@, n) {
        Some(v) => has_node(edges@, n) && fact_set(v) == node_targets(edges@, n),
        None => !has_node(edges@, n),
    } by {
        lemma_facts_at_distinct(entries@, n);
        if has_node(edges@, n) {
            let b = choose|b: int| 0 <= b < entries@.len() && (#[trigger] entries@[b]).0 == n;
        }
    }
    TaintResults { entries }
}


/// Whether a root names an operand directly: a local the variable of the
/// same name, a temporary the same temporary.
pub open spec fn root_names(root: RootView, op: Operand) -> bool {
    match (root, op) {
        (RootView::Local(n), Operand::Var(m)) => n == m@,
        (RootView::Temp(a), Operand::Temp(b)) => a == b,
        _ => false,
    }
}

/// Whether a root names one of `args` directly.
pub open spec fn root_names_arg(root: RootView, args: Seq<Operand>) -> bool {
    exists|i: int| 0 <= i < args.len() && #[trigger] root_names(root, args[i])
}

/// The finding that rule `r` reports for a tainted root at sink `id`.
pub open spec fn finding_of(r: RuleView, id: InstructionId, root: RootView) -> FindingView {
    FindingView {
        rule_id: r.id,
        rule_name: r.name,
        cwe: r.cwe,
        severity: r.severity,
        source_location: None,
        sink_location: Some(seq!['i', 'n', 's', 't', ':'] + decimal(id.0 as nat)),
        access_path: root_debug_text(root),
        call_trace: Seq::empty(),
        confidence: Confidence::High,
    }
}

/// The findings of the rules for one fact at sink `id`: a fact whose root
/// names an argument gets one finding per rule.
pub open spec fn fact_findings(f: DataFlowFact<AccessPath>, args: Seq<Operand>, rules: Seq<RuleView>, id: InstructionId) -> Seq<FindingView> {
    match f {
        DataFlowFact::Fact(ap) => if root_names_arg(ap@.root, args) {
            rules.map_values(|r: RuleView| finding_of(r, id, ap@.root))
        } else {
            Seq::empty()
        },
        DataFlowFact::Zero => Seq::empty(),
    }
}

/// The findings for the facts of a sink, in order.
pub open spec fn facts_findings(fs: Seq<DataFlowFact<AccessPath>>, args: Seq<Operand>, rules: Seq<RuleView>, id: InstructionId) -> Seq<FindingView>
    decreases fs.len(),
{
    if fs.len() == 0 {
        Seq::empty()
    } else {
        facts_findings(fs.drop_last(), args, rules, id) + fact_findings(fs.last(), args, rules, id)
    }
}

/// The findings at instruction `id`: where it calls a sink and facts are
/// recorded for it, those of its facts.
pub open spec fn inst_findings(p: Program, reg: RegistryView, entries: Seq<(IcfgNode, Vec<DataFlowFact<AccessPath>>)>, id: InstructionId) -> Seq<FindingView> {
    match kind_of(p, id) {
        Some(InstructionKind::Call { callee, args, .. }) => if any_hit(reg.sinks, callee@) {
            match facts_at(entries, IcfgNode::Instruction(id)) {
                Some(fs) => facts_findings(fs, args@, matching(reg.sinks, callee@), id),
                None => Seq::empty(),
            }
        } else {
            Seq::empty()
        },
        _ => Seq::empty(),
    }
}

/// The findings of the instructions of a body, in order.
pub open spec fn body_findings(p: Program, reg: RegistryView, entries: Seq<(IcfgNode, Vec<DataFlowFact<AccessPath>>)>, body: Seq<InstructionId>) -> Seq<FindingView>
    decreases body.len(),
{
    if body.len() == 0 {
        Seq::empty()
    } else {
        body_findings(p, reg, entries, body.drop_last()) + inst_findings(p, reg, entries, body.last())
    }
}

/// The findings of the bodies of `methods`, in order.
pub open spec fn methods_findings(p: Program, reg: RegistryView, entries: Seq<(IcfgNode, Vec<DataFlowFact<AccessPath>>)>, methods: Seq<crate::ir::Method>) -> Seq<FindingView>
    decreases methods.len(),
{
    if methods.len() == 0 {
        Seq::empty()
    } else {
        methods_findings(p, reg, entries, methods.drop_last()) + body_findings(p, reg, entries, methods.last().body@)
    }
}

/// The views of a sequence of findings.
pub open spec fn finding_views(v: Seq<Finding>) -> Seq<FindingView> {
    v.map_values(|f: Finding| f@)
}

/// Whether a root names one of `args` directly.
fn root_names_arg_exec(root: &PathRoot, args: &Vec<Operand>) -> (r: bool)
    ensures
        r == root_names_arg(root@, args@),
{
    let mut i: usize = 0;
    while i < args.len()
        invariant
            i <= args@.len(),
            forall|k: int| 0 <= k < i ==> !#[trigger] root_names(root@, args@[k]),
        decreases args.len() - i,
    {
        let hit = match (root, &args[i]) {
            (PathRoot::Local(n1), Operand::Var(n2)) => crate::text::str_eq(n1.as_str(), n2.as_str()),
            (PathRoot::Temp(a), Operand::Temp(b)) => *a == *b,
            _ => false,
        };
        if hit {
            assert(root_names(root@, args@[i as int]));
            return true;
        }
        i = i + 1;
    }
    false
}

/// Appends the findings of `rules` for a tainted root at sink `id`.
fn push_rule_findings(out: &mut Vec<Finding>, rules: &Vec<crate::rules::Rule>, id: InstructionId, root: &PathRoot)
    ensures
        finding_views(final(out)@) == finding_views(old(out)@) + rule_views(rules@).map_values(|r: RuleView| finding_of(r, id, root@)),
{
    let ghost base = finding_views(out@);
    let mut l: usize = 0;
    assert(rule_views(rules@.take(0)).map_values(|r: RuleView| finding_of(r, id, root@)) =~= Seq::<FindingView>::empty());
    assert(finding_views(out@) =~= base + Seq::<FindingView>::empty());
    while l < rules.len()
        invariant
            l <= rules@.len(),
            finding_views(out@) == base + rule_views(rules@.take(l as int)).map_values(|r: RuleView| finding_of(r, id, root@)),
        decreases rules.len() - l,
    {
        let rule = &rules[l];
        let mut loc = String::new();
        push_char(&mut loc, 'i');
        push_char(&mut loc, 'n');
        push_char(&mut loc, 's');
        push_char(&mut loc, 't');
        push_char(&mut loc, ':');
        push_decimal(&mut loc, id.0 as u64);
        let f = Finding {
            rule_id: rule.id.clone(),
            rule_name: rule.name.clone(),
            cwe: rule.cwe,
            severity: rule.severity,
            source_location: None,
            sink_location: Some(loc),
            access_path: root_debug_text_of(root),
            call_trace: Vec::new(),
            confidence: Confidence::High,
        };
        assert(f@.call_trace =~= Seq::<Seq<char>>::empty());
        assert(f@.sink_location == Some(seq!['i', 'n', 's', 't', ':'] + decimal(id.0 as nat)));
        assert(f@ == finding_of(rule@, id, root@));
        let ghost prev = out@;
        out.push(f);
        assert(finding_views(out@) =~= finding_views(prev).push(f@));
        assert(rule_views(rules@.take(l + 1int)) =~= rule_views(rules@.take(l as int)).push(rules@[l as int]@));
        assert(rule_views(rules@.take(l + 1int)).map_values(|r: RuleView| finding_of(r, id, root@))
            =~= rule_views(rules@.take(l as int)).map_values(|r: RuleView| finding_of(r, id, root@)).push(finding_of(rules@[l as int]@, id, root@)));
        l = l + 1;
    }
    assert(rules@.take(rules@.len() as int) =~= rules@);
}


/// Appends the findings at instruction `id`.
fn push_inst_findings(out: &mut Vec<Finding>, program: &Program, rules: &RuleRegistry, results: &TaintResults, id: InstructionId)
    requires
        program.wf(),
    ensures
        finding_views(final(out)@) == finding_views(old(out)@) + inst_findings(*program, rules@, results.entries@, id),
{
    let ghost base = finding_views(out@);
    let ghost want = inst_findings(*program, rules@, results.entries@, id);
    let inst = match program.instruction(id) {
        Some(inst) => inst,
        None => {
            assert(finding_views(out@) =~= base + want);
            return;
        },
    };
    let (callee, args) = match &inst.kind {
        InstructionKind::Call { callee, args, .. } => (callee, args),
        _ => {
            assert(finding_views(out@) =~= base + want);
            return;
        },
    };
    if !rules.is_sink(callee.as_str()) {
        assert(finding_views(out@) =~= base + want);
        return;
    }
    let node = IcfgNode::Instruction(id);
    let facts = match results.get(&node) {
        Some(facts) => facts,
        None => {
            assert(finding_views(out@) =~= base + want);
            return;
        },
    };
    let ghost rv = matching(rules@.sinks, callee@);
    let mut k: usize = 0;
    assert(facts_findings(facts@.take(0), args@, rv, id) =~= Seq::<FindingView>::empty());
    assert(finding_views(out@) =~= base + Seq::<FindingView>::empty());
    while k < facts.len()
        invariant
            k <= facts@.len(),
            rv == matching(rules@.sinks, callee@),
            finding_views(out@) == base + facts_findings(facts@.take(k as int), args@, rv, id),
        decreases facts.len() - k,
    {
        let ghost mid = finding_views(out@);
        assert(facts@.take(k + 1int).drop_last() =~= facts@.take(k as int));
        match &facts[k] {
            DataFlowFact::Fact(ap) => {
                if root_names_arg_exec(&ap.root, args) {
                    let sink_rules = rules.sink_rules(callee.as_str());
                    push_rule_findings(out, &sink_rules, id, &ap.root);
                } else {
                    assert(fact_findings(facts@[k as int], args@, rv, id) =~= Seq::<FindingView>::empty());
                }
            },
            DataFlowFact::Zero => {},
        }
        assert(finding_views(out@) =~= mid + fact_findings(facts@[k as int], args@, rv, id));
        assert(finding_views(out@) =~= base + facts_findings(facts@.take(k + 1int), args@, rv, id));
        k = k + 1;
    }
    assert(facts@.take(facts@.len() as int) =~= facts@);
}

/// The taint analysis of a program: its problem, ready to be solved.
pub struct TaintAnalysis<'a> {
    pub problem: TaintProblem<'a>,
}

impl<'a> TaintAnalysis<'a> {
    /// The analysis of `program` over its graph, alias facts and rules,
    /// from the entries of `entry_methods`.
    pub fn new(
        program: &'a Program,
        icfg: &'a InterproceduralFlowGraph,
        alias_result: &'a AliasResult,
        rules: &'a RuleRegistry,
        entry_methods: Vec<MethodId>,
    ) -> (r: Self)
        requires
            program.wf(),
            states_wf(alias_result.states@),
        ensures
            r.problem.program_view() == *program,
            r.problem.graph_view() == *icfg,
            r.problem.alias_view() == *alias_result,
            r.problem.rules_view() == rules@,
            r.problem.entries_view() == entry_methods@,
    {
        TaintAnalysis { problem: TaintProblem::new(program, icfg, alias_result, rules, entry_methods) }
    }

    /// Runs the IFDS solver and groups the facts it reaches by node.
    pub fn run(&self) -> (r: TaintResults)
        ensures
            exists|q: TaintProblem<'a>, edges: Seq<PathEdge<IcfgNode, AccessPath>>| {
                &&& same_problem(q, self.problem)
                &&& #[trigger] tabulated(q, edges)
                &&& groups_edges(r.entries@, edges)
            },
    {
        let q = self.problem.clone();
        let mut solver = IfdsSolver::new(q);
        solver.solve();
        let r = collect_results(&solver.path_edges);
        assert(same_problem(solver.problem, self.problem));
        assert(tabulated(solver.problem, solver.path_edges@));
        r
    }

    /// Runs the analysis and reports, for each sink call and each fact at
    /// it whose root names one of the call's arguments, one finding per
    /// matching sink rule.
    pub fn run_with_findings(&self) -> (r: (TaintResults, Vec<Finding>))
        ensures
            exists|q: TaintProblem<'a>, edges: Seq<PathEdge<IcfgNode, AccessPath>>| {
                &&& same_problem(q, self.problem)
                &&& #[trigger] tabulated(q, edges)
                &&& groups_edges(r.0.entries@, edges)
            },
            finding_views(r.1@) == methods_findings(self.problem.program_view(), self.problem.rules_view(), r.0.entries@, self.problem.program_view().methods@),
    {
        let results = self.run();
        let findings = self.problem.findings_for(&results);
        (results, findings)
    }
}

impl<'a> TaintProblem<'a> {
    /// The findings at the sinks of the program, given the facts at each
    /// node.
    fn findings_for(&self, results: &TaintResults) -> (findings: Vec<Finding>)
        ensures
            finding_views(findings@) == methods_findings(self.program_view(), self.rules_view(), results.entries@, self.program_view().methods@),
    {
        proof { use_type_invariant(self); }
        let program = self.program;
        let mut findings: Vec<Finding> = Vec::new();
        let mut i: usize = 0;
        assert(finding_views(findings@) =~= Seq::<FindingView>::empty());
        assert(program.methods@.take(0) =~= Seq::<crate::ir::Method>::empty());
        while i < program.methods.len()
            invariant
                i <= program.methods@.len(),
                program.wf(),
                finding_views(findings@) == methods_findings(*program, self.rules@, results.entries@, program.methods@.take(i as int)),
            decreases program.methods.len() - i,
        {
            let ghost base = finding_views(findings@);
            let body = &program.methods[i].body;
            let mut j: usize = 0;
            assert(body_findings(*program, self.rules@, results.entries@, body@.take(0)) =~= Seq::<FindingView>::empty());
            assert(base =~= base + Seq::<FindingView>::empty());
            while j < body.len()
                invariant
                    j <= body@.len(),
                    program.wf(),
                    finding_views(findings@) == base + body_findings(*program, self.rules@, results.entries@, body@.take(j as int)),
                decreases body.len() - j,
            {
                push_inst_findings(&mut findings, program, self.rules, results, body[j]);
                assert(body@.take(j + 1int).drop_last() =~= body@.take(j as int));
                assert(finding_views(findings@) =~= base + body_findings(*program, self.rules@, results.entries@, body@.take(j + 1int)));
                j = j + 1;
            }
            assert(body@.take(body@.len() as int) =~= body@);
            assert(program.methods@.take(i + 1int).drop_last() =~= program.methods@.take(i as int));
            i = i + 1;
        }
        assert(program.methods@.take(program.methods@.len() as int) =~= program.methods@);
        findings
    }
}

} // verus!

verus! {

/// An assignment taints its destination only from its source: after
/// `dest = src`, the destination is tainted only when the fact coming in is
/// the source's taint. So a tainted destination reassigned from anything
/// else (a constant, another variable) is no longer tainted.
pub proof fn law_assign_kills_destination(
    p: Program,
    reg: RegistryView,
    states: Seq<(IcfgNode, crate::alias::AliasState)>,
    id: InstructionId,
    dest: Operand,
    src: Operand,
    fact: DataFlowFact<PathView>,
)
    requires
        kind_of(p, id) == Some(InstructionKind::Assign { dest, src }),
    ensures
        normal_flow_facts(p, reg, states, IcfgNode::Instruction(id), fact).contains(DataFlowFact::Fact(operand_path(dest)))
            ==> fact == DataFlowFact::<PathView>::Fact(operand_path(src)),
        operand_path(dest) != operand_path(src) ==> !normal_flow_facts(
            p, reg, states, IcfgNode::Instruction(id), DataFlowFact::Fact(operand_path(dest)),
        ).contains(DataFlowFact::Fact(operand_path(dest))),
{
}

} // verus!
