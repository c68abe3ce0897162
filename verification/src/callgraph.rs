//! Call graphs: which methods each call site may reach, by name-based
//! resolution for Python and class-hierarchy analysis for Java.
use vstd::prelude::*;
use std::collections::HashSet;
use crate::ir::{InstructionId, InstructionKind, Method, MethodId, Program, Type, TypeId};
use crate::semantic::{symbol_named, SemanticInfo};
use crate::context::texts;
use crate::text::str_eq;

verus! {

broadcast use vstd::string::group_string_axioms;

/// A call instruction, as a site of calls.
#[derive(Debug, Clone, Copy, PartialEq, Eq, Hash, Structural)]
pub struct CallSiteId(pub InstructionId);

/// A call from `caller`, at `callsite`, to `callee`.
#[derive(Debug, Clone, Copy, PartialEq, Eq, Hash, Structural)]
pub struct CallEdge {
    pub callsite: CallSiteId,
    pub caller: MethodId,
    pub callee: MethodId,
}

/// The kind of a call edge in a whole-program call graph.
#[derive(Debug, Clone, Copy, PartialEq, Eq, Hash, Structural)]
pub enum EdgeType {
    DirectCall,
    VirtualCall,
    InterfaceCall,
    FrameworkCall,
}

/// A call graph: its edges, in the order they were found.
#[derive(Debug, Clone)]
pub struct CallGraph {
    pub edges: Vec<CallEdge>,
}

/// The callees of the edges at `callsite`, in order.
pub open spec fn callees_at(edges: Seq<CallEdge>, callsite: CallSiteId) -> Seq<MethodId>
    decreases edges.len(),
{
    if edges.len() == 0 {
        Seq::empty()
    } else {
        callees_at(edges.drop_last(), callsite) + if edges.last().callsite == callsite { seq![edges.last().callee] } else { Seq::empty() }
    }
}

impl CallGraph {
    /// The graph with no edge.
    pub fn new() -> (r: Self)
        ensures
            r.edges@ == Seq::<CallEdge>::empty(),
    {
        CallGraph { edges: Vec::new() }
    }

    /// Adds an edge at the end.
    pub fn add_edge(&mut self, edge: CallEdge)
        ensures
            final(self).edges@ == old(self).edges@.push(edge),
    {
        self.edges.push(edge);
    }

    /// The methods that the call at `callsite` may reach, in edge order.
    pub fn callsite_to_callees(&self, callsite: CallSiteId) -> (r: Vec<MethodId>)
        ensures
            r@ == callees_at(self.edges@, callsite),
    {
        let mut r: Vec<MethodId> = Vec::new();
        let mut i: usize = 0;
        while i < self.edges.len()
            invariant
                i <= self.edges@.len(),
                r@ == callees_at(self.edges@.take(i as int), callsite),
            decreases self.edges.len() - i,
        {
            assert(self.edges@.take(i + 1int).drop_last() =~= self.edges@.take(i as int));
            if self.edges[i].callsite == callsite {
                r.push(self.edges[i].callee);
            }
            assert(r@ =~= callees_at(self.edges@.take(i + 1int), callsite));
            i = i + 1;
        }
        assert(self.edges@.take(self.edges@.len() as int) =~= self.edges@);
        r
    }
}

/// The identifiers of the methods of `ms` that satisfy `pred`, in order.
pub open spec fn methods_where(ms: Seq<Method>, pred: spec_fn(Method) -> bool) -> Seq<MethodId>
    decreases ms.len(),
{
    if ms.len() == 0 {
        Seq::empty()
    } else {
        methods_where(ms.drop_last(), pred) + if pred(ms.last()) { seq![ms.last().id] } else { Seq::empty() }
    }
}

/// Methods called `name`.
pub open spec fn named(name: Seq<char>) -> spec_fn(Method) -> bool {
    |m: Method| m.name@ == name
}

/// Methods called `name` that belong to no type.
pub open spec fn global_named(name: Seq<char>) -> spec_fn(Method) -> bool {
    |m: Method| m.name@ == name && m.parent_type_id is None
}

/// Methods called `name` whose type is called `class`.
pub open spec fn member_of(p: Program, name: Seq<char>, class: Seq<char>) -> spec_fn(Method) -> bool {
    |m: Method| m.name@ == name && type_name_of(p, m.parent_type_id) == Some(class)
}

/// The constructors of the type called `class`.
pub open spec fn constructor_of(p: Program, class: Seq<char>) -> spec_fn(Method) -> bool {
    member_of(p, "__init__"@, class)
}

/// The name of the type `tid`, if there is such a type.
pub open spec fn type_name_of(p: Program, tid: Option<TypeId>) -> Option<Seq<char>> {
    match tid {
        Some(t) => match p.type_index(t) {
            Some(k) => Some(p.types@[k].name@),
            None => None,
        },
        None => None,
    }
}

/// The number of dots in `s`.
pub open spec fn dot_count(s: Seq<char>) -> nat
    decreases s.len(),
{
    if s.len() == 0 {
        0
    } else {
        dot_count(s.drop_last()) + if s.last() == '.' { 1nat } else { 0nat }
    }
}

/// The position of the first dot in `s`, or its length.
pub open spec fn first_dot(s: Seq<char>) -> int
    decreases s.len(),
{
    if s.len() == 0 {
        0
    } else if s[0] == '.' {
        0
    } else {
        1 + first_dot(s.drop_first())
    }
}

/// What stands before the first dot of `s`.
pub open spec fn before_dot(s: Seq<char>) -> Seq<char> {
    s.take(first_dot(s))
}

/// What stands after the first dot of `s`.
pub open spec fn after_dot(s: Seq<char>) -> Seq<char> {
    s.skip(first_dot(s) + 1)
}

/// Whether some scope named after the caller declares `receiver`.
pub open spec fn receiver_declared(p: Program, info: SemanticInfo, caller: MethodId, receiver: Seq<char>) -> bool {
    match p.method_index(caller) {
        Some(k) => exists|j: int| 0 <= j < info.scopes@.len()
            && (#[trigger] info.scopes@[j]).name@ == p.methods@[k].name@
            && symbol_named(info.scopes@[j].symbols@, receiver) is Some,
        None => false,
    }
}

/// The methods a Python call of `callee` from `caller` may reach: the
/// constructors of the class of that name; else the global functions of
/// that name; else, for `obj.m`, the methods `m` of the class named like
/// the receiver when the caller's scope declares it, and otherwise every
/// method `m`.
pub open spec fn python_targets(p: Program, info: SemanticInfo, caller: MethodId, callee: Seq<char>) -> Seq<MethodId> {
    let ms = p.methods@;
    let is_class = exists|k: int| 0 <= k < p.types@.len() && (#[trigger] p.types@[k]).name@ == callee;
    let inits = methods_where(ms, constructor_of(p, callee));
    let globals = methods_where(ms, global_named(callee));
    if is_class && inits.len() > 0 {
        inits
    } else if globals.len() > 0 {
        globals
    } else if dot_count(callee) == 1 {
        let receiver = before_dot(callee);
        let name = after_dot(callee);
        let typed = if receiver_declared(p, info, caller, receiver) {
            methods_where(ms, member_of(p, name, receiver))
        } else {
            Seq::empty()
        };
        if typed.len() > 0 { typed } else { methods_where(ms, named(name)) }
    } else {
        Seq::empty()
    }
}

} // verus!

verus! {

/// Whether the type `tid` exists and is called `class`.
fn type_is_named(p: &Program, tid: Option<TypeId>, class: &str) -> (r: bool)
    requires
        p.wf(),
    ensures
        r == (type_name_of(*p, tid) == Some(class@)),
{
    match tid {
        Some(t) => match p.type_of(t) {
            Some(ty) => str_eq(ty.name.as_str(), class),
            None => false,
        },
        None => false,
    }
}

/// The methods called `name`, in identifier order; with `class`, only
/// those of the type called `class`; with `global_only`, only those of no
/// type.
fn collect_methods(p: &Program, name: &str, class: Option<&str>, global_only: bool) -> (r: Vec<MethodId>)
    requires
        p.wf(),
    ensures
        r@ == methods_where(p.methods@, match class {
            Some(c) => member_of(*p, name@, c@),
            None => if global_only { global_named(name@) } else { named(name@) },
        }),
{
    let ghost pred = match class {
        Some(c) => member_of(*p, name@, c@),
        None => if global_only { global_named(name@) } else { named(name@) },
    };
    let mut r: Vec<MethodId> = Vec::new();
    let mut i: usize = 0;
    while i < p.methods.len()
        invariant
            p.wf(),
            i <= p.methods@.len(),
            pred == (match class {
                Some(c) => member_of(*p, name@, c@),
                None => if global_only { global_named(name@) } else { named(name@) },
            }),
            r@ == methods_where(p.methods@.take(i as int), pred),
        decreases p.methods.len() - i,
    {
        let m = &p.methods[i];
        let keep = str_eq(m.name.as_str(), name) && match class {
            Some(c) => type_is_named(p, m.parent_type_id, c),
            None => !global_only || m.parent_type_id.is_none(),
        };
        assert(p.methods@.take(i + 1int).drop_last() =~= p.methods@.take(i as int));
        assert(keep == pred(p.methods@[i as int]));
        if keep {
            r.push(m.id);
        }
        assert(r@ =~= methods_where(p.methods@.take(i + 1int), pred));
        i = i + 1;
    }
    assert(p.methods@.take(p.methods@.len() as int) =~= p.methods@);
    r
}

/// Whether some type is called `class`.
fn class_exists(p: &Program, class: &str) -> (r: bool)
    ensures
        r == exists|k: int| 0 <= k < p.types@.len() && (#[trigger] p.types@[k]).name@ == class@,
{
    let mut i: usize = 0;
    while i < p.types.len()
        invariant
            i <= p.types@.len(),
            forall|k: int| 0 <= k < i ==> (#[trigger] p.types@[k]).name@ != class@,
        decreases p.types.len() - i,
    {
        if str_eq(p.types[i].name.as_str(), class) {
            return true;
        }
        i = i + 1;
    }
    false
}

/// The number of dots in `s`, and the position of the first one.
fn dots_of(s: &Vec<char>) -> (r: (usize, usize))
    ensures
        r.0 == dot_count(s@),
        r.1 == first_dot(s@),
{
    let mut count: usize = 0;
    let mut first: usize = s.len();
    let mut i: usize = s.len();
    assert(s@.take(i as int) =~= s@);
    assert(s@.skip(i as int) =~= Seq::<char>::empty());
    while i > 0
        invariant
            i <= s@.len(),
            s@.len() <= usize::MAX,
            count <= s@.len() - i,
            dot_count(s@) == dot_count(s@.take(i as int)) + count,
            first == i + first_dot(s@.skip(i as int)),
        decreases i,
    {
        assert(s@.take(i as int).drop_last() =~= s@.take(i - 1));
        assert(s@.skip(i - 1).drop_first() =~= s@.skip(i as int));
        if s[i - 1] == '.' {
            assert(count < s@.len());
            count = count + 1;
            first = i - 1;
        }
        proof {
            lemma_first_dot_step(s@, i - 1);
        }
        i = i - 1;
    }
    assert(s@.skip(0) =~= s@);
    (count, first)
}

proof fn lemma_first_dot_step(s: Seq<char>, i: int)
    requires
        0 <= i < s.len(),
    ensures
        first_dot(s.skip(i)) == if s[i] == '.' { 0 } else { 1 + first_dot(s.skip(i + 1)) },
{
    assert(s.skip(i)[0] == s[i]);
    assert(s.skip(i).drop_first() =~= s.skip(i + 1));
}

} // verus!

verus! {

/// The characters `a..b` of `v`.
fn chars_range(v: &Vec<char>, a: usize, b: usize) -> (r: Vec<char>)
    requires
        a <= b <= v@.len(),
    ensures
        r@ == v@.subrange(a as int, b as int),
{
    let mut r: Vec<char> = Vec::new();
    let mut t: usize = a;
    while t < b
        invariant
            a <= t <= b,
            b <= v@.len(),
            r@ == v@.subrange(a as int, t as int),
        decreases b - t,
    {
        r.push(v[t]);
        assert(v@.subrange(a as int, t + 1int) =~= v@.subrange(a as int, t as int).push(v@[t as int]));
        t = t + 1;
    }
    r
}

/// Whether some scope named after the caller declares `receiver`.
fn receiver_is_declared(p: &Program, info: &SemanticInfo, caller: MethodId, receiver: &str) -> (r: bool)
    requires
        p.wf(),
    ensures
        r == receiver_declared(*p, *info, caller, receiver@),
{
    match p.method(caller) {
        Some(m) => {
            let mut j: usize = 0;
            while j < info.scopes.len()
                invariant
                    j <= info.scopes@.len(),
                    p.method_index(caller) is Some,
                    *m == p.methods@[p.method_index(caller)->0],
                    forall|k: int| 0 <= k < j ==> !((#[trigger] info.scopes@[k]).name@ == m.name@
                        && symbol_named(info.scopes@[k].symbols@, receiver@) is Some),
                decreases info.scopes.len() - j,
            {
                let scope = &info.scopes[j];
                if str_eq(scope.name.as_str(), m.name.as_str()) {
                    match crate::semantic::find_symbol(&scope.symbols, receiver) {
                        Some(_) => {
                            return true;
                        },
                        None => {},
                    }
                }
                j = j + 1;
            }
            false
        },
        None => false,
    }
}

/// How calls are resolved to the methods they may reach.
pub trait CallResolver {
    /// The methods that the call of `callee_name` at `callsite` in `caller`
    /// may reach.
    spec fn targets(&self, program: Program, semantic_info: SemanticInfo, caller: MethodId, callsite: CallSiteId, callee_name: Seq<char>) -> Seq<MethodId>;

    fn resolve(
        &self,
        program: &Program,
        semantic_info: &SemanticInfo,
        caller: MethodId,
        callsite: CallSiteId,
        callee_name: &str,
        instantiated_types: &HashSet<String>,
    ) -> (r: Vec<MethodId>)
        requires
            program.wf(),
        ensures
            r@ == self.targets(*program, *semantic_info, caller, callsite, callee_name@);
}

/// Name-based resolution of Python calls.
pub struct PythonResolver;

impl CallResolver for PythonResolver {
    open spec fn targets(&self, program: Program, semantic_info: SemanticInfo, caller: MethodId, callsite: CallSiteId, callee_name: Seq<char>) -> Seq<MethodId> {
        python_targets(program, semantic_info, caller, callee_name)
    }

    fn resolve(
        &self,
        program: &Program,
        semantic_info: &SemanticInfo,
        caller: MethodId,
        callsite: CallSiteId,
        callee_name: &str,
        instantiated_types: &HashSet<String>,
    ) -> (r: Vec<MethodId>)
    {
        if class_exists(program, callee_name) {
            let inits = collect_methods(program, "__init__", Some(callee_name), false);
            proof { reveal_strlit("__init__"); }
            if inits.len() > 0 {
                return inits;
            }
        }
        let globals = collect_methods(program, callee_name, None, true);
        if globals.len() > 0 {
            return globals;
        }
        let chars = crate::text::chars_of(callee_name);
        let (count, first) = dots_of(&chars);
        if count == 1 {
            proof {
                lemma_first_dot_bound(chars@);
            }
            let receiver = crate::text::string_from_chars(chars_range(&chars, 0, first).as_slice());
            let name = crate::text::string_from_chars(chars_range(&chars, first + 1, chars.len()).as_slice());
            assert(receiver@ =~= before_dot(callee_name@));
            assert(name@ =~= after_dot(callee_name@));
            if receiver_is_declared(program, semantic_info, caller, receiver.as_str()) {
                let typed = collect_methods(program, name.as_str(), Some(receiver.as_str()), false);
                if typed.len() > 0 {
                    return typed;
                }
            }
            return collect_methods(program, name.as_str(), None, false);
        }
        Vec::new()
    }
}

proof fn lemma_first_dot_bound(s: Seq<char>)
    requires
        dot_count(s) > 0,
    ensures
        0 <= first_dot(s) < s.len(),
        s[first_dot(s)] == '.',
    decreases s.len(),
{
    if s.len() > 0 && s[0] != '.' {
        lemma_dot_count_first(s);
        lemma_first_dot_bound(s.drop_first());
    }
}

proof fn lemma_dot_count_first(s: Seq<char>)
    requires
        s.len() > 0,
    ensures
        dot_count(s) == dot_count(s.drop_first()) + if s[0] == '.' { 1nat } else { 0nat },
    decreases s.len(),
{
    if s.len() > 1 {
        lemma_dot_count_first(s.drop_last());
        assert(s.drop_last().drop_first() =~= s.drop_first().drop_last());
    } else {
        assert(s.drop_first() =~= Seq::<char>::empty());
        assert(s.drop_last() =~= Seq::<char>::empty());
    }
}

} // verus!

verus! {

/// The position of the first type of `ts` called `name`, if any.
pub open spec fn first_type_named(ts: Seq<Type>, name: Seq<char>) -> Option<int>
    decreases ts.len(),
{
    if ts.len() == 0 {
        None
    } else if ts[0].name@ == name {
        Some(0)
    } else {
        match first_type_named(ts.drop_first(), name) {
            Some(k) => Some(k + 1),
            None => None,
        }
    }
}

/// Whether the method `m` exists and is called `name`.
pub open spec fn method_named(p: Program, m: MethodId, name: Seq<char>) -> bool {
    match p.method_index(m) {
        Some(k) => p.methods@[k].name@ == name,
        None => false,
    }
}

/// The first of `ids` that is a method called `name`, if any.
pub open spec fn first_method_named(p: Program, ids: Seq<MethodId>, name: Seq<char>) -> Option<MethodId>
    decreases ids.len(),
{
    if ids.len() == 0 {
        None
    } else if method_named(p, ids[0], name) {
        Some(ids[0])
    } else {
        first_method_named(p, ids.drop_first(), name)
    }
}

/// The method `name` found by walking up from the type at position `k`
/// through superclasses named by `parent_type`, visiting at most `fuel`
/// types.
pub open spec fn cha_up(p: Program, k: int, name: Seq<char>, fuel: nat) -> Seq<MethodId>
    decreases fuel,
{
    if fuel == 0 || !(0 <= k < p.types@.len()) {
        Seq::empty()
    } else {
        match first_method_named(p, p.types@[k].methods@, name) {
            Some(m) => seq![m],
            None => match p.types@[k].parent_type {
                Some(pn) => match first_type_named(p.types@, pn@) {
                    Some(k2) => cha_up(p, k2, name, (fuel - 1) as nat),
                    None => Seq::empty(),
                },
                None => Seq::empty(),
            },
        }
    }
}

/// The subclasses of `base`, gathered depth first from entry `i` of the
/// hierarchy `h` on, after those already in `out`, going at most `fuel`
/// levels down.
pub open spec fn subclasses_from(h: Seq<(String, Option<String>)>, base: Seq<char>, i: nat, out: Seq<Seq<char>>, fuel: nat) -> Seq<Seq<char>>
    decreases fuel, h.len() - i,
{
    if i >= h.len() {
        out
    } else {
        let cls = h[i as int].0@;
        let extends_base = match h[i as int].1 {
            Some(s) => s@ == base,
            None => false,
        };
        if extends_base && !out.contains(cls) && fuel > 0 {
            let deeper = subclasses_from(h, cls, 0, out.push(cls), (fuel - 1) as nat);
            subclasses_from(h, base, i + 1, deeper, fuel)
        } else {
            subclasses_from(h, base, i + 1, out, fuel)
        }
    }
}

/// `acc` with each of `ids` that is a method called `name` and not yet in
/// `acc` added, in order.
pub open spec fn add_members(p: Program, ids: Seq<MethodId>, name: Seq<char>, acc: Seq<MethodId>) -> Seq<MethodId>
    decreases ids.len(),
{
    if ids.len() == 0 {
        acc
    } else {
        let before = add_members(p, ids.drop_last(), name, acc);
        if method_named(p, ids.last(), name) && !before.contains(ids.last()) {
            before.push(ids.last())
        } else {
            before
        }
    }
}

/// `acc` with the methods `name` of each named subclass added.
pub open spec fn sub_targets(p: Program, subs: Seq<Seq<char>>, name: Seq<char>, acc: Seq<MethodId>) -> Seq<MethodId>
    decreases subs.len(),
{
    if subs.len() == 0 {
        acc
    } else {
        let before = sub_targets(p, subs.drop_last(), name, acc);
        match first_type_named(p.types@, subs.last()) {
            Some(k) => add_members(p, p.types@[k].methods@, name, before),
            None => before,
        }
    }
}

/// The methods a Java call of `callee` may reach: every method of that
/// name for an unqualified call; for `T.m`, the `m` found from `T` upward,
/// then each `m` of the subclasses of `T`; every `m` when no type is
/// called `T`.
pub open spec fn java_targets(p: Program, info: SemanticInfo, callee: Seq<char>) -> Seq<MethodId> {
    let ms = p.methods@;
    if dot_count(callee) == 0 {
        methods_where(ms, named(callee))
    } else if dot_count(callee) != 1 {
        Seq::empty()
    } else {
        let class = before_dot(callee);
        let name = after_dot(callee);
        match first_type_named(p.types@, class) {
            None => methods_where(ms, named(name)),
            Some(k) => {
                let up = cha_up(p, k, name, p.types@.len());
                let h = info.types_hierarchy@;
                sub_targets(p, subclasses_from(h, class, 0, Seq::empty(), h.len()), name, up)
            },
        }
    }
}

} // verus!

verus! {

proof fn lemma_first_type_skip(ts: Seq<Type>, name: Seq<char>, i: int)
    requires
        0 <= i <= ts.len(),
        forall|j: int| 0 <= j < i ==> (#[trigger] ts[j]).name@ != name,
    ensures
        first_type_named(ts, name) == match first_type_named(ts.skip(i), name) {
            Some(k) => Some(k + i),
            None => None::<int>,
        },
    decreases i,
{
    if i == 0 {
        assert(ts.skip(0) =~= ts);
        match first_type_named(ts, name) {
            Some(k) => {},
            None => {},
        }
    } else {
        assert forall|j: int| 0 <= j < i - 1 implies (#[trigger] ts.drop_first()[j]).name@ != name by {
            assert(ts.drop_first()[j] == ts[j + 1]);
        }
        lemma_first_type_skip(ts.drop_first(), name, i - 1);
        assert(ts.drop_first().skip(i - 1) =~= ts.skip(i));
    }
}

/// The position of the first type called `name`, if any.
fn find_type(p: &Program, name: &str) -> (r: Option<usize>)
    ensures
        match r {
            Some(k) => first_type_named(p.types@, name@) == Some(k as int) && k < p.types@.len(),
            None => first_type_named(p.types@, name@) is None,
        },
{
    let mut i: usize = 0;
    while i < p.types.len()
        invariant
            i <= p.types@.len(),
            forall|j: int| 0 <= j < i ==> (#[trigger] p.types@[j]).name@ != name@,
        decreases p.types.len() - i,
    {
        if str_eq(p.types[i].name.as_str(), name) {
            proof {
                lemma_first_type_skip(p.types@, name@, i as int);
                assert(p.types@.skip(i as int)[0] == p.types@[i as int]);
            }
            return Some(i);
        }
        i = i + 1;
    }
    proof {
        lemma_first_type_skip(p.types@, name@, i as int);
        assert(p.types@.skip(i as int) =~= Seq::<Type>::empty());
    }
    None
}

/// Whether the method `m` exists and is called `name`.
fn has_method_named(p: &Program, m: MethodId, name: &str) -> (r: bool)
    requires
        p.wf(),
    ensures
        r == method_named(*p, m, name@),
{
    match p.method(m) {
        Some(method) => str_eq(method.name.as_str(), name),
        None => false,
    }
}

proof fn lemma_first_method_skip(p: Program, ids: Seq<MethodId>, name: Seq<char>, i: int)
    requires
        0 <= i <= ids.len(),
        forall|j: int| 0 <= j < i ==> !method_named(p, #[trigger] ids[j], name),
    ensures
        first_method_named(p, ids, name) == first_method_named(p, ids.skip(i), name),
    decreases i,
{
    if i == 0 {
        assert(ids.skip(0) =~= ids);
    } else {
        assert forall|j: int| 0 <= j < i - 1 implies !method_named(p, #[trigger] ids.drop_first()[j], name) by {
            assert(ids.drop_first()[j] == ids[j + 1]);
        }
        lemma_first_method_skip(p, ids.drop_first(), name, i - 1);
        assert(ids.drop_first().skip(i - 1) =~= ids.skip(i));
    }
}

/// The first of `ids` that is a method called `name`, if any.
fn find_method_named(p: &Program, ids: &Vec<MethodId>, name: &str) -> (r: Option<MethodId>)
    requires
        p.wf(),
    ensures
        r == first_method_named(*p, ids@, name@),
{
    let mut i: usize = 0;
    while i < ids.len()
        invariant
            p.wf(),
            i <= ids@.len(),
            forall|j: int| 0 <= j < i ==> !method_named(*p, #[trigger] ids@[j], name@),
        decreases ids.len() - i,
    {
        if has_method_named(p, ids[i], name) {
            proof {
                lemma_first_method_skip(*p, ids@, name@, i as int);
                assert(ids@.skip(i as int)[0] == ids@[i as int]);
            }
            return Some(ids[i]);
        }
        i = i + 1;
    }
    proof {
        lemma_first_method_skip(*p, ids@, name@, i as int);
        assert(ids@.skip(i as int) =~= Seq::<MethodId>::empty());
    }
    None
}

/// The method `name` found by walking up the class hierarchy from the
/// type at position `k`.
fn walk_up(p: &Program, k: usize, name: &str) -> (r: Vec<MethodId>)
    requires
        p.wf(),
        k < p.types@.len(),
    ensures
        r@ == cha_up(*p, k as int, name@, p.types@.len()),
{
    let mut cur: usize = k;
    let mut fuel: usize = p.types.len();
    loop
        invariant
            p.wf(),
            cur < p.types@.len(),
            fuel <= p.types@.len(),
            cha_up(*p, cur as int, name@, fuel as nat) == cha_up(*p, k as int, name@, p.types@.len()),
        decreases fuel,
    {
        if fuel == 0 {
            return Vec::new();
        }
        let ty = &p.types[cur];
        match find_method_named(p, &ty.methods, name) {
            Some(m) => {
                return vec![m];
            },
            None => {},
        }
        match &ty.parent_type {
            Some(pn) => match find_type(p, pn.as_str()) {
                Some(k2) => {
                    cur = k2;
                    fuel = fuel - 1;
                },
                None => {
                    return Vec::new();
                },
            },
            None => {
                return Vec::new();
            },
        }
    }
}

/// Whether `v` holds a string with the text of `s`.
fn holds_text(v: &Vec<String>, s: &str) -> (r: bool)
    ensures
        r == texts(v@).contains(s@),
{
    let mut i: usize = 0;
    while i < v.len()
        invariant
            i <= v@.len(),
            forall|j: int| 0 <= j < i ==> texts(v@)[j] != s@,
        decreases v.len() - i,
    {
        if str_eq(v[i].as_str(), s) {
            assert(texts(v@)[i as int] == s@);
            return true;
        }
        i = i + 1;
    }
    false
}

/// Gathers the subclasses of `base` depth first into `out`.
fn find_all_subclasses(base: &str, info: &SemanticInfo, out: &mut Vec<String>, fuel: usize)
    ensures
        texts(final(out)@) == subclasses_from(info.types_hierarchy@, base@, 0, texts(old(out)@), fuel as nat),
    decreases fuel,
{
    let ghost h = info.types_hierarchy@;
    let mut i: usize = 0;
    while i < info.types_hierarchy.len()
        invariant
            i <= h.len(),
            h == info.types_hierarchy@,
            subclasses_from(h, base@, i as nat, texts(out@), fuel as nat) == subclasses_from(h, base@, 0, texts(old(out)@), fuel as nat),
        decreases h.len() - i,
    {
        let entry = &info.types_hierarchy[i];
        let extends_base = match &entry.1 {
            Some(s) => str_eq(s.as_str(), base),
            None => false,
        };
        if extends_base && !holds_text(out, entry.0.as_str()) && fuel > 0 {
            let ghost before = texts(out@);
            out.push(entry.0.clone());
            assert(texts(out@) =~= before.push(entry.0@));
            find_all_subclasses(entry.0.as_str(), info, out, fuel - 1);
        }
        i = i + 1;
    }
}

/// `acc` with each of `ids` that is a method called `name` and not yet in
/// `acc` added.
fn add_members_exec(p: &Program, ids: &Vec<MethodId>, name: &str, acc: &mut Vec<MethodId>)
    requires
        p.wf(),
    ensures
        final(acc)@ == add_members(*p, ids@, name@, old(acc)@),
{
    let mut i: usize = 0;
    while i < ids.len()
        invariant
            p.wf(),
            i <= ids@.len(),
            acc@ == add_members(*p, ids@.take(i as int), name@, old(acc)@),
        decreases ids.len() - i,
    {
        assert(ids@.take(i + 1int).drop_last() =~= ids@.take(i as int));
        let m = ids[i];
        if has_method_named(p, m, name) && !contains_method(acc, m) {
            acc.push(m);
        }
        i = i + 1;
    }
    assert(ids@.take(ids@.len() as int) =~= ids@);
}

/// Whether `v` holds `m`.
fn contains_method(v: &Vec<MethodId>, m: MethodId) -> (r: bool)
    ensures
        r == v@.contains(m),
{
    let mut i: usize = 0;
    while i < v.len()
        invariant
            i <= v@.len(),
            forall|j: int| 0 <= j < i ==> v@[j] != m,
        decreases v.len() - i,
    {
        if v[i] == m {
            assert(v@[i as int] == m);
            return true;
        }
        i = i + 1;
    }
    false
}

/// Resolution of Java calls by class-hierarchy analysis.
pub struct JavaResolver;

impl CallResolver for JavaResolver {
    open spec fn targets(&self, program: Program, semantic_info: SemanticInfo, caller: MethodId, callsite: CallSiteId, callee_name: Seq<char>) -> Seq<MethodId> {
        java_targets(program, semantic_info, callee_name)
    }

    fn resolve(
        &self,
        program: &Program,
        semantic_info: &SemanticInfo,
        caller: MethodId,
        callsite: CallSiteId,
        callee_name: &str,
        instantiated_types: &HashSet<String>,
    ) -> (r: Vec<MethodId>)
    {
        let chars = crate::text::chars_of(callee_name);
        let (count, first) = dots_of(&chars);
        if count == 0 {
            return collect_methods(program, callee_name, None, false);
        }
        if count != 1 {
            return Vec::new();
        }
        proof {
            lemma_first_dot_bound(chars@);
        }
        assert(first < chars.len());
        let class = crate::text::string_from_chars(chars_range(&chars, 0, first).as_slice());
        let name = crate::text::string_from_chars(chars_range(&chars, first + 1, chars.len()).as_slice());
        assert(class@ =~= before_dot(callee_name@));
        assert(name@ =~= after_dot(callee_name@));
        match find_type(program, class.as_str()) {
            None => collect_methods(program, name.as_str(), None, false),
            Some(k) => {
                let mut targets = walk_up(program, k, name.as_str());
                let mut subclasses: Vec<String> = Vec::new();
                assert(texts(subclasses@) =~= Seq::<Seq<char>>::empty());
                find_all_subclasses(class.as_str(), semantic_info, &mut subclasses, semantic_info.types_hierarchy.len());
                let ghost subs = texts(subclasses@);
                let ghost up = targets@;
                let mut j: usize = 0;
                while j < subclasses.len()
                    invariant
                        program.wf(),
                        j <= subclasses@.len(),
                        subs == texts(subclasses@),
                        targets@ == sub_targets(*program, subs.take(j as int), name@, up),
                    decreases subclasses.len() - j,
                {
                    assert(subs.take(j + 1int).drop_last() =~= subs.take(j as int));
                    match find_type(program, subclasses[j].as_str()) {
                        Some(s) => {
                            add_members_exec(program, &program.types[s].methods, name.as_str(), &mut targets);
                        },
                        None => {},
                    }
                    j = j + 1;
                }
                assert(subs.take(subs.len() as int) =~= subs);
                targets
            },
        }
    }
}

} // verus!

verus! {

/// The edges from one call site to each of its targets.
pub open spec fn edges_to(callsite: CallSiteId, caller: MethodId, targets: Seq<MethodId>) -> Seq<CallEdge> {
    targets.map_values(|t: MethodId| CallEdge { callsite, caller, callee: t })
}

/// The call edges of the first `n` instructions of a body.
pub open spec fn body_edges<R: CallResolver>(p: Program, info: SemanticInfo, r: R, caller: MethodId, body: Seq<InstructionId>, n: nat) -> Seq<CallEdge>
    decreases n,
{
    if n == 0 || n > body.len() {
        Seq::empty()
    } else {
        let inst = body[n - 1];
        body_edges(p, info, r, caller, body, (n - 1) as nat) + match crate::cfg::kind_of(p, inst) {
            Some(InstructionKind::Call { callee, .. }) =>
                edges_to(CallSiteId(inst), caller, r.targets(p, info, caller, CallSiteId(inst), callee@)),
            _ => Seq::empty(),
        }
    }
}

/// The call edges of the first `n` methods of `p`, method by method.
pub open spec fn program_edges<R: CallResolver>(p: Program, info: SemanticInfo, r: R, n: nat) -> Seq<CallEdge>
    decreases n,
{
    if n == 0 || n > p.methods@.len() {
        Seq::empty()
    } else {
        let m = p.methods@[n - 1];
        program_edges(p, info, r, (n - 1) as nat) + body_edges(p, info, r, m.id, m.body@, m.body@.len())
    }
}

/// Builds the call graph of a program with a resolver.
pub struct CallGraphBuilder<'a> {
    program: &'a Program,
    semantic_info: &'a SemanticInfo,
}

impl<'a> CallGraphBuilder<'a> {
    /// The program whose calls are resolved.
    pub closed spec fn prog(&self) -> Program {
        *self.program
    }

    /// The semantic information handed to the resolver.
    pub closed spec fn info(&self) -> SemanticInfo {
        *self.semantic_info
    }

    /// A builder over `program` and `semantic_info`.
    pub fn new(program: &'a Program, semantic_info: &'a SemanticInfo) -> (r: Self)
        ensures
            r.prog() == *program,
            r.info() == *semantic_info,
    {
        CallGraphBuilder { program, semantic_info }
    }

    /// The call graph: for each method in identifier order, for each call
    /// instruction of its body in order, one edge to each target the
    /// resolver gives.
    pub fn build<R: CallResolver>(&self, resolver: &R) -> (cg: CallGraph)
        requires
            self.prog().wf(),
        ensures
            cg.edges@ == program_edges(self.prog(), self.info(), *resolver, self.prog().methods@.len()),
    {
        let p = self.program;
        let info = self.semantic_info;
        let mut cg = CallGraph::new();
        let instantiated_types: HashSet<String> = HashSet::new();
        let mut i: usize = 0;
        while i < p.methods.len()
            invariant
                p.wf(),
                *p == self.prog(),
                *info == self.info(),
                i <= p.methods@.len(),
                cg.edges@ == program_edges(*p, *info, *resolver, i as nat),
            decreases p.methods.len() - i,
        {
            let method = &p.methods[i];
            let mut j: usize = 0;
            let ghost before = cg.edges@;
            while j < method.body.len()
                invariant
                    p.wf(),
                    i < p.methods@.len(),
                    *method == p.methods@[i as int],
                    j <= method.body@.len(),
                    cg.edges@ == before + body_edges(*p, *info, *resolver, method.id, method.body@, j as nat),
                decreases method.body.len() - j,
            {
                let inst_id = method.body[j];
                match p.instruction(inst_id) {
                    Some(inst) => match &inst.kind {
                        InstructionKind::Call { callee, .. } => {
                            let callsite = CallSiteId(inst_id);
                            let targets = resolver.resolve(p, info, method.id, callsite, callee.as_str(), &instantiated_types);
                            let ghost mid = cg.edges@;
                            let mut t: usize = 0;
                            while t < targets.len()
                                invariant
                                    t <= targets@.len(),
                                    cg.edges@ == mid + edges_to(callsite, method.id, targets@.take(t as int)),
                                decreases targets.len() - t,
                            {
                                cg.add_edge(CallEdge { callsite, caller: method.id, callee: targets[t] });
                                assert(edges_to(callsite, method.id, targets@.take(t + 1int)) =~=
                                    edges_to(callsite, method.id, targets@.take(t as int)).push(CallEdge { callsite, caller: method.id, callee: targets@[t as int] }));
                                t = t + 1;
                            }
                            assert(targets@.take(targets@.len() as int) =~= targets@);
                        },
                        _ => {},
                    },
                    None => {},
                }
                assert(cg.edges@ =~= before + body_edges(*p, *info, *resolver, method.id, method.body@, (j + 1) as nat));
                j = j + 1;
            }
            i = i + 1;
        }
        cg
    }
}

} // verus!
