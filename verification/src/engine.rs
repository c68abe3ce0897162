//! The analysis pipeline over a whole program: merging the programs of the
//! files, the graphs, the alias and taint analyses, and the mapping of
//! taint findings to report findings.
use vstd::prelude::*;
use crate::alias::{states_wf, AliasEngine};
use crate::callgraph::{java_targets, python_targets, CallGraphBuilder, CallResolver, CallSiteId, JavaResolver, PythonResolver};
use crate::cfg::{block_end, cfg_edges, entry_block, exit_block, kind_of, lemma_leaders, leaders, BlockId, CfgBuilder, ControlFlowGraph};
use crate::common::Span;
use crate::icfg::IcfgBuilder;
use crate::ir::{Instruction, InstructionId, InstructionKind, MethodId, ModuleId, Program, TypeId};
use crate::reporting::{has_fingerprint, location_text, sorted_by_fingerprint, DiagnosticMessage, FindingTrace, ReportBuilder, RuleMetadata, SourceLocation, TraceStep, TraceStepKind};
use crate::rulepacks::loader::{name_views, select_packs, RulePackLoader};
use crate::rulepacks::packs::all_packs_view;
use crate::rules::{any_hit, opt_view, FindingView, RegistryView, RuleRegistry};
use crate::semantic::SemanticInfo;
use crate::taint::{finding_views, TaintAnalysis};
use crate::text::{chars_of, decimal, push_char, push_decimal};
use crate::frontend::LanguageFrontend;
use std::collections::HashSet;

verus! {

broadcast use vstd::string::group_string_axioms;

/// What the engine analyses and how.
#[derive(Debug, Clone)]
pub struct AnalysisConfiguration {
    pub languages: Vec<String>,
    pub rule_packs: Vec<String>,
    pub enabled_cwes: Vec<u32>,
    pub excluded_directories: Vec<String>,
    pub excluded_files: Vec<String>,
    pub max_context_depth: usize,
    pub max_access_path_depth: usize,
    pub scheduler_threads: usize,
    pub incremental_mode: bool,
}

/// The views of a list of strings.
pub open spec fn string_views(v: Seq<String>) -> Seq<Seq<char>> {
    v.map_values(|s: String| s@)
}

/// The rule packs the engine loads by default.
pub open spec fn default_pack_names() -> Seq<Seq<char>> {
    seq!["core"@, "python"@, "java"@, "web"@, "database"@, "filesystem"@, "deserialization"@,
        "cryptography"@, "authentication"@, "secrets"@, "ssrf"@, "command-injection"@, "xxe"@]
}

/// Appends a copy of `s`.
fn push_text(v: &mut Vec<String>, s: &str)
    ensures
        string_views(final(v)@) == string_views(old(v)@).push(s@),
{
    let ghost before = v@;
    v.push(String::from_str(s));
    assert(string_views(v@) =~= string_views(before).push(s@));
}

impl Default for AnalysisConfiguration {
    /// Python and Java, every embedded pack, no CWE filter or exclusion,
    /// context depth 2, access-path depth 5, four threads, incremental.
    fn default() -> (r: Self)
        ensures
            string_views(r.languages@) == seq!["python"@, "java"@],
            string_views(r.rule_packs@) == default_pack_names(),
            r.enabled_cwes@.len() == 0,
            r.excluded_directories@.len() == 0,
            r.excluded_files@.len() == 0,
            r.max_context_depth == 2,
            r.max_access_path_depth == 5,
            r.scheduler_threads == 4,
            r.incremental_mode,
    {
        let mut languages: Vec<String> = Vec::new();
        assert(string_views(languages@) =~= Seq::<Seq<char>>::empty());
        push_text(&mut languages, "python");
        push_text(&mut languages, "java");
        let mut rule_packs: Vec<String> = Vec::new();
        assert(string_views(rule_packs@) =~= Seq::<Seq<char>>::empty());
        push_text(&mut rule_packs, "core");
        push_text(&mut rule_packs, "python");
        push_text(&mut rule_packs, "java");
        push_text(&mut rule_packs, "web");
        push_text(&mut rule_packs, "database");
        push_text(&mut rule_packs, "filesystem");
        push_text(&mut rule_packs, "deserialization");
        push_text(&mut rule_packs, "cryptography");
        push_text(&mut rule_packs, "authentication");
        push_text(&mut rule_packs, "secrets");
        push_text(&mut rule_packs, "ssrf");
        push_text(&mut rule_packs, "command-injection");
        push_text(&mut rule_packs, "xxe");
        assert(string_views(languages@) =~= seq!["python"@, "java"@]);
        assert(string_views(rule_packs@) =~= default_pack_names());
        AnalysisConfiguration {
            languages,
            rule_packs,
            enabled_cwes: Vec::new(),
            excluded_directories: Vec::new(),
            excluded_files: Vec::new(),
            max_context_depth: 2,
            max_access_path_depth: 5,
            scheduler_threads: 4,
            incremental_mode: true,
        }
    }
}

/// Counts gathered over a run.
#[derive(Debug, Clone)]
pub struct EngineStatistics {
    pub file_count: usize,
    pub method_count: usize,
    pub instruction_count: usize,
    pub findings_count: usize,
    pub cache_hits: usize,
    pub cache_misses: usize,
}

impl Default for EngineStatistics {
    fn default() -> (r: Self)
        ensures
            r.file_count == 0,
            r.method_count == 0,
            r.instruction_count == 0,
            r.findings_count == 0,
            r.cache_hits == 0,
            r.cache_misses == 0,
    {
        EngineStatistics { file_count: 0, method_count: 0, instruction_count: 0, findings_count: 0, cache_hits: 0, cache_misses: 0 }
    }
}

/// How one phase of a run went.
#[derive(Debug, Clone)]
pub struct PhaseExecutionSummary {
    pub name: String,
    pub elapsed_ms: u64,
    pub memory_estimate_bytes: usize,
    pub status: String,
}

/// The outcome of a run: its phases, counts, findings and the files seen.
#[derive(Debug, Clone)]
pub struct AnalysisResult {
    pub success: bool,
    pub phases: Vec<PhaseExecutionSummary>,
    pub statistics: EngineStatistics,
    pub findings: Vec<crate::reporting::Finding>,
    pub analyzed_files: Vec<String>,
}

} // verus!

verus! {

/// The index of the first module of `p` that lists type `t`, if any.
pub open spec fn module_of_type(p: Program, t: TypeId) -> Option<int> {
    if exists|m: int| 0 <= m < p.modules@.len() && (#[trigger] p.modules@[m]).types@.contains(t) {
        Some(choose|m: int| 0 <= m < p.modules@.len() && (#[trigger] p.modules@[m]).types@.contains(t)
            && forall|j: int| 0 <= j < m ==> !p.modules@[j].types@.contains(t))
    } else {
        None
    }
}

/// The index of the first module of `p` that lists method `m`, if any.
pub open spec fn module_of_method(p: Program, m: MethodId) -> Option<int> {
    if exists|k: int| 0 <= k < p.modules@.len() && (#[trigger] p.modules@[k]).methods@.contains(m) {
        Some(choose|k: int| 0 <= k < p.modules@.len() && (#[trigger] p.modules@[k]).methods@.contains(m)
            && forall|j: int| 0 <= j < k ==> !p.modules@[j].methods@.contains(m))
    } else {
        None
    }
}

/// Whether a program can be merged into another: it is well formed, its
/// bodies name instructions it has, each type is listed by a module, and
/// the parent types of its methods and fields are types it has.
pub open spec fn mergeable(p: Program) -> bool {
    &&& p.wf()
    &&& p.bodies_known()
    &&& forall|k: int| 0 <= k < p.types@.len() ==> module_of_type(p, #[trigger] p.types@[k].id) is Some
    &&& forall|k: int| 0 <= k < p.methods@.len() ==> ((#[trigger] p.methods@[k]).parent_type_id matches Some(t) ==> p.type_index(t) is Some)
    &&& forall|k: int| 0 <= k < p.fields@.len() ==> p.type_index((#[trigger] p.fields@[k]).parent_type_id) is Some
}

/// Whether `v` holds `t`.
fn holds_type(v: &Vec<TypeId>, t: TypeId) -> (r: bool)
    ensures
        r == v@.contains(t),
{
    let mut i: usize = 0;
    while i < v.len()
        invariant
            i <= v@.len(),
            forall|j: int| 0 <= j < i ==> v@[j] != t,
        decreases v.len() - i,
    {
        if v[i] == t {
            assert(v@[i as int] == t);
            return true;
        }
        i = i + 1;
    }
    false
}

/// Whether `v` holds `m`.
fn holds_method(v: &Vec<MethodId>, m: MethodId) -> (r: bool)
    ensures
        r == v@.contains(m),
{
    let mut i: usize = 0;
    while i < v.len()
        invariant
            i <= v@.len(),
            forall|j: int| 0 <= j < i ==> v@[j] != m,
        decreases v.len() - i,
    {
        if v[i] == m {
            assert(v@[i as int] == m);
            return true;
        }
        i = i + 1;
    }
    false
}

/// The first module of `p` that lists type `t`, if any.
fn find_module_of_type(p: &Program, t: TypeId) -> (r: Option<usize>)
    ensures
        match r {
            Some(k) => module_of_type(*p, t) == Some(k as int) && k < p.modules@.len(),
            None => module_of_type(*p, t) is None,
        },
{
    let mut k: usize = 0;
    while k < p.modules.len()
        invariant
            k <= p.modules@.len(),
            forall|j: int| 0 <= j < k ==> !p.modules@[j].types@.contains(t),
        decreases p.modules.len() - k,
    {
        if holds_type(&p.modules[k].types, t) {
            let ghost c = choose|m: int| 0 <= m < p.modules@.len() && (#[trigger] p.modules@[m]).types@.contains(t)
                && forall|j: int| 0 <= j < m ==> !p.modules@[j].types@.contains(t);
            assert(p.modules@[k as int].types@.contains(t));
            proof {
                if c != k {
                    if c < k {
                        assert(!p.modules@[c].types@.contains(t));
                    } else {
                        assert(!p.modules@[k as int].types@.contains(t));
                    }
                }
            }
            return Some(k);
        }
        k = k + 1;
    }
    None
}

/// The first module of `p` that lists method `m`, if any.
fn find_module_of_method(p: &Program, m: MethodId) -> (r: Option<usize>)
    ensures
        match r {
            Some(k) => module_of_method(*p, m) == Some(k as int) && k < p.modules@.len(),
            None => module_of_method(*p, m) is None,
        },
{
    let mut k: usize = 0;
    while k < p.modules.len()
        invariant
            k <= p.modules@.len(),
            forall|j: int| 0 <= j < k ==> !p.modules@[j].methods@.contains(m),
        decreases p.modules.len() - k,
    {
        if holds_method(&p.modules[k].methods, m) {
            let ghost c = choose|c: int| 0 <= c < p.modules@.len() && (#[trigger] p.modules@[c]).methods@.contains(m)
                && forall|j: int| 0 <= j < c ==> !p.modules@[j].methods@.contains(m);
            assert(p.modules@[k as int].methods@.contains(m));
            proof {
                if c != k {
                    if c < k {
                        assert(!p.modules@[c].methods@.contains(m));
                    } else {
                        assert(!p.modules@[k as int].methods@.contains(m));
                    }
                }
            }
            return Some(k);
        }
        k = k + 1;
    }
    None
}

/// Whether a program can be merged, as `mergeable` says.
fn is_mergeable(p: &Program) -> (r: bool)
    requires
        p.wf(),
    ensures
        r == mergeable(*p),
{
    let mut k: usize = 0;
    while k < p.types.len()
        invariant
            k <= p.types@.len(),
            forall|j: int| 0 <= j < k ==> module_of_type(*p, #[trigger] p.types@[j].id) is Some,
        decreases p.types.len() - k,
    {
        if find_module_of_type(p, p.types[k].id).is_none() {
            return false;
        }
        k = k + 1;
    }
    let mut k: usize = 0;
    while k < p.methods.len()
        invariant
            k <= p.methods@.len(),
            forall|j: int| 0 <= j < k ==> ((#[trigger] p.methods@[j]).parent_type_id matches Some(t) ==> p.type_index(t) is Some),
        decreases p.methods.len() - k,
    {
        match p.methods[k].parent_type_id {
            Some(t) => {
                if !(1 <= t.0 && (t.0 as usize) <= p.types.len()) {
                    return false;
                }
            },
            None => {},
        }
        k = k + 1;
    }
    let mut k: usize = 0;
    while k < p.fields.len()
        invariant
            k <= p.fields@.len(),
            forall|j: int| 0 <= j < k ==> p.type_index((#[trigger] p.fields@[j]).parent_type_id) is Some,
        decreases p.fields.len() - k,
    {
        let t = p.fields[k].parent_type_id;
        if !(1 <= t.0 && (t.0 as usize) <= p.types.len()) {
            return false;
        }
        k = k + 1;
    }
    let mut i: usize = 0;
    while i < p.methods.len()
        invariant
            i <= p.methods@.len(),
            forall|a: int, b: int| #![trigger p.methods@[a].body@[b]] 0 <= a < i && 0 <= b < p.methods@[a].body@.len()
                ==> p.instruction_index(p.methods@[a].body@[b]) is Some,
        decreases p.methods.len() - i,
    {
        let body = &p.methods[i].body;
        let mut j: usize = 0;
        while j < body.len()
            invariant
                j <= body@.len(),
                i < p.methods@.len(),
                body@ == p.methods@[i as int].body@,
                forall|b: int| 0 <= b < j ==> p.instruction_index(#[trigger] body@[b]) is Some,
            decreases body.len() - j,
        {
            let id = body[j];
            if !(1 <= id.0 && (id.0 as usize) <= p.instructions.len()) {
                assert(p.instruction_index(p.methods@[i as int].body@[j as int]) is None);
                assert(!p.bodies_known());
                return false;
            }
            j = j + 1;
        }
        i = i + 1;
    }
    true
}

/// A copy of a list of strings.
pub(crate) fn copy_strings(v: &Vec<String>) -> (r: Vec<String>)
    ensures
        r@ == v@,
{
    let mut r: Vec<String> = Vec::new();
    let mut i: usize = 0;
    while i < v.len()
        invariant
            i <= v@.len(),
            r@ == v@.take(i as int),
        decreases v.len() - i,
    {
        r.push(v[i].clone());
        assert(r@ =~= v@.take(i + 1int));
        i = i + 1;
    }
    assert(v@.take(v@.len() as int) =~= v@);
    r
}

/// The instruction identifiers of a body, moved up by `offset`.
pub open spec fn shifted_body(body: Seq<InstructionId>, offset: int) -> Seq<InstructionId> {
    body.map_values(|i: InstructionId| InstructionId((i.0 + offset) as u32))
}

/// Adds a module for each module of `source`, in order.
fn merge_modules(target: &mut Program, source: &Program)
    requires
        old(target).wf(),
        old(target).modules@.len() + source.modules@.len() + 1 < u32::MAX,
    ensures
        final(target).wf(),
        final(target).modules@.len() == old(target).modules@.len() + source.modules@.len(),
        final(target).types == old(target).types,
        final(target).methods == old(target).methods,
        final(target).fields == old(target).fields,
        final(target).instructions == old(target).instructions,
{
    let mut k: usize = 0;
    while k < source.modules.len()
        invariant
            k <= source.modules@.len(),
            target.wf(),
            target.modules@.len() == old(target).modules@.len() + k,
            target.types == old(target).types,
            target.methods == old(target).methods,
            target.fields == old(target).fields,
            target.instructions == old(target).instructions,
            old(target).modules@.len() + source.modules@.len() + 1 < u32::MAX,
        decreases source.modules.len() - k,
    {
        target.alloc_module(source.modules[k].name.clone(), source.modules[k].file_path.clone());
        k = k + 1;
    }
}

/// Adds a type for each type of `source`, in order, each in the module
/// that first lists it, the modules of `source` having been added from
/// index `mo` on.
fn merge_types(target: &mut Program, source: &Program, mo: usize)
    requires
        old(target).wf(),
        source.wf(),
        forall|k: int| 0 <= k < source.types@.len() ==> module_of_type(*source, #[trigger] source.types@[k].id) is Some,
        mo + source.modules@.len() + 1 < u32::MAX,
        old(target).types@.len() + source.types@.len() + 1 < u32::MAX,
    ensures
        final(target).wf(),
        final(target).modules@.len() == old(target).modules@.len(),
        final(target).types@.len() == old(target).types@.len() + source.types@.len(),
        final(target).methods == old(target).methods,
        final(target).fields == old(target).fields,
        final(target).instructions == old(target).instructions,
{
    let mut k: usize = 0;
    while k < source.types.len()
        invariant
            k <= source.types@.len(),
            target.wf(),
            forall|j: int| 0 <= j < source.types@.len() ==> module_of_type(*source, #[trigger] source.types@[j].id) is Some,
            target.modules@.len() == old(target).modules@.len(),
            target.types@.len() == old(target).types@.len() + k,
            target.methods == old(target).methods,
            target.fields == old(target).fields,
            target.instructions == old(target).instructions,
            mo + source.modules@.len() + 1 < u32::MAX,
            old(target).types@.len() + source.types@.len() + 1 < u32::MAX,
        decreases source.types.len() - k,
    {
        let mi = match find_module_of_type(source, source.types[k].id) {
            Some(mi) => mi,
            None => {
                assert(module_of_type(*source, source.types@[k as int].id) is Some);
                0
            },
        };
        let parent = crate::rules::copy_opt_string(&source.types[k].parent_type);
        target.alloc_type(source.types[k].name.clone(), parent, ModuleId((mo + mi + 1) as u32));
        k = k + 1;
    }
}

/// Adds a method for each method of `source`, in order, with its parent
/// type renumbered from `to` on and in the module that first lists it,
/// renumbered from `mo` on.
fn merge_methods(target: &mut Program, source: &Program, mo: usize, to: usize)
    requires
        old(target).wf(),
        old(target).bodies_known(),
        source.wf(),
        forall|k: int| 0 <= k < source.methods@.len() ==> ((#[trigger] source.methods@[k]).parent_type_id matches Some(t) ==> source.type_index(t) is Some),
        mo + source.modules@.len() + 1 < u32::MAX,
        to + source.types@.len() + 1 < u32::MAX,
        old(target).methods@.len() + source.methods@.len() + 1 < u32::MAX,
    ensures
        final(target).wf(),
        final(target).bodies_known(),
        final(target).modules@.len() == old(target).modules@.len(),
        final(target).types@.len() == old(target).types@.len(),
        final(target).methods@.len() == old(target).methods@.len() + source.methods@.len(),
        forall|i: int| 0 <= i < old(target).methods@.len() ==> (#[trigger] final(target).methods@[i]) == old(target).methods@[i],
        forall|j: int| 0 <= j < source.methods@.len() ==> {
            let n = #[trigger] final(target).methods@[old(target).methods@.len() + j];
            &&& n.name == source.methods@[j].name
            &&& n.parameters@ == source.methods@[j].parameters@
            &&& n.body@.len() == 0
        },
        final(target).fields == old(target).fields,
        final(target).instructions == old(target).instructions,
{
    let meo = target.methods.len();
    let mut k: usize = 0;
    while k < source.methods.len()
        invariant
            k <= source.methods@.len(),
            meo == old(target).methods@.len(),
            forall|j: int| 0 <= j < source.methods@.len() ==> ((#[trigger] source.methods@[j]).parent_type_id matches Some(t) ==> source.type_index(t) is Some),
            target.wf(),
            target.bodies_known(),
            target.modules@.len() == old(target).modules@.len(),
            target.types@.len() == old(target).types@.len(),
            target.methods@.len() == meo + k,
            forall|i: int| 0 <= i < meo ==> (#[trigger] target.methods@[i]) == old(target).methods@[i],
            forall|j: int| 0 <= j < k ==> {
                let n = #[trigger] target.methods@[meo + j];
                &&& n.name == source.methods@[j].name
                &&& n.parameters@ == source.methods@[j].parameters@
                &&& n.body@.len() == 0
            },
            target.fields == old(target).fields,
            target.instructions == old(target).instructions,
            mo + source.modules@.len() + 1 < u32::MAX,
            to + source.types@.len() + 1 < u32::MAX,
            meo + source.methods@.len() + 1 < u32::MAX,
        decreases source.methods.len() - k,
    {
        let ghost before = *target;
        let m = &source.methods[k];
        let parent_type = match m.parent_type_id {
            Some(t) => Some(TypeId((to as u32) + t.0)),
            None => None,
        };
        let module = match find_module_of_method(source, m.id) {
            Some(idx) => Some(ModuleId((mo + idx + 1) as u32)),
            None => None,
        };
        target.alloc_method(m.name.clone(), parent_type, copy_strings(&m.parameters), module);
        assert forall|i: int| 0 <= i < meo + k implies #[trigger] target.methods@[i] == before.methods@[i] by {
            assert(target.methods@.drop_last()[i] == target.methods@[i]);
        }
        assert forall|a: int, b: int| #![trigger target.methods@[a].body@[b]] 0 <= a < target.methods@.len() && 0 <= b < target.methods@[a].body@.len()
            implies target.instruction_index(target.methods@[a].body@[b]) is Some by {
            if a < meo + k {
                assert(target.methods@[a] == before.methods@[a]);
                assert(before.methods@[a].body@[b] == target.methods@[a].body@[b]);
            }
        }
        k = k + 1;
    }
}

/// Adds a field for each field of `source`, in order, with its parent type
/// renumbered from `to` on.
fn merge_fields(target: &mut Program, source: &Program, to: usize)
    requires
        old(target).wf(),
        source.wf(),
        forall|k: int| 0 <= k < source.fields@.len() ==> source.type_index((#[trigger] source.fields@[k]).parent_type_id) is Some,
        to + source.types@.len() + 1 < u32::MAX,
        old(target).fields@.len() + source.fields@.len() + 1 < u32::MAX,
    ensures
        final(target).wf(),
        final(target).modules == old(target).modules,
        final(target).types@.len() == old(target).types@.len(),
        final(target).methods == old(target).methods,
        final(target).fields@.len() == old(target).fields@.len() + source.fields@.len(),
        final(target).instructions == old(target).instructions,
{
    let mut k: usize = 0;
    while k < source.fields.len()
        invariant
            k <= source.fields@.len(),
            forall|j: int| 0 <= j < source.fields@.len() ==> source.type_index((#[trigger] source.fields@[j]).parent_type_id) is Some,
            target.wf(),
            target.modules == old(target).modules,
            target.types@.len() == old(target).types@.len(),
            target.methods == old(target).methods,
            target.fields@.len() == old(target).fields@.len() + k,
            target.instructions == old(target).instructions,
            to + source.types@.len() + 1 < u32::MAX,
            old(target).fields@.len() + source.fields@.len() + 1 < u32::MAX,
        decreases source.fields.len() - k,
    {
        let f = &source.fields[k];
        target.alloc_field(f.name.clone(), TypeId((to as u32) + f.parent_type_id.0));
        k = k + 1;
    }
}

/// Adds the instructions of `insts`, in order.
fn merge_instructions(target: &mut Program, insts: Vec<Instruction>)
    requires
        old(target).wf(),
        old(target).instructions@.len() + insts@.len() + 1 < u32::MAX,
    ensures
        final(target).wf(),
        final(target).modules == old(target).modules,
        final(target).types == old(target).types,
        final(target).methods == old(target).methods,
        final(target).fields == old(target).fields,
        final(target).instructions@.len() == old(target).instructions@.len() + insts@.len(),
        final(target).instructions@.take(old(target).instructions@.len() as int) == old(target).instructions@,
        forall|k: int| 0 <= k < insts@.len() ==> {
            let n = #[trigger] final(target).instructions@[old(target).instructions@.len() + k];
            &&& n.kind == insts@[k].kind
            &&& n.span == insts@[k].span
        },
{
    let io = target.instructions.len();
    let ghost all = insts@;
    let mut rest = insts;
    let mut k: usize = 0;
    assert(target.instructions@.take(io as int) =~= old(target).instructions@);
    while rest.len() > 0
        invariant
            io == old(target).instructions@.len(),
            k + rest@.len() == all.len(),
            rest@ == all.skip(k as int),
            target.wf(),
            target.modules == old(target).modules,
            target.types == old(target).types,
            target.methods == old(target).methods,
            target.fields == old(target).fields,
            target.instructions@.len() == io + k,
            target.instructions@.take(io as int) == old(target).instructions@,
            forall|j: int| 0 <= j < k ==> {
                let n = #[trigger] target.instructions@[io + j];
                &&& n.kind == all[j].kind
                &&& n.span == all[j].span
            },
            io + all.len() + 1 < u32::MAX,
        decreases rest.len(),
    {
        let ghost before = target.instructions@;
        let inst = rest.remove(0);
        assert(inst == all[k as int]);
        assert(rest@ =~= all.skip(k + 1int));
        target.alloc_instruction(inst.kind, inst.span);
        assert(target.instructions@.take(io as int) =~= before.take(io as int));
        assert forall|j: int| 0 <= j <= k implies {
            let n = #[trigger] target.instructions@[io + j];
            &&& n.kind == all[j].kind
            &&& n.span == all[j].span
        } by {
            if j < k {
                assert(target.instructions@[io + j] == before[io + j]);
            }
        }
        k = k + 1;
    }
}

/// Appends the instructions of `body`, moved up by `io`, to the body of
/// method `id`.
fn append_body(target: &mut Program, id: MethodId, body: &Vec<InstructionId>, io: usize)
    requires
        old(target).wf(),
        old(target).bodies_known(),
        forall|c: int| 0 <= c < body@.len() ==> 1 <= (#[trigger] body@[c]).0 && io + body@[c].0 <= old(target).instructions@.len(),
        old(target).instructions@.len() < u32::MAX,
    ensures
        final(target).wf(),
        final(target).bodies_known(),
        final(target).modules == old(target).modules,
        final(target).types == old(target).types,
        final(target).fields == old(target).fields,
        final(target).instructions == old(target).instructions,
        final(target).methods@.len() == old(target).methods@.len(),
        forall|i: int| 0 <= i < old(target).methods@.len() ==> {
            let m0 = old(target).methods@[i];
            let m1 = #[trigger] final(target).methods@[i];
            &&& m1.id == m0.id
            &&& m1.name == m0.name
            &&& m1.parameters == m0.parameters
            &&& m1.body@ == if m0.id == id { m0.body@ + shifted_body(body@, io as int) } else { m0.body@ }
        },
{
    let mut j: usize = 0;
    while j < body.len()
        invariant
            j <= body@.len(),
            forall|c: int| 0 <= c < body@.len() ==> 1 <= (#[trigger] body@[c]).0 && io + body@[c].0 <= old(target).instructions@.len(),
            old(target).instructions@.len() < u32::MAX,
            target.wf(),
            target.bodies_known(),
            target.modules == old(target).modules,
            target.types == old(target).types,
            target.fields == old(target).fields,
            target.instructions == old(target).instructions,
            target.methods@.len() == old(target).methods@.len(),
            forall|i: int| 0 <= i < old(target).methods@.len() ==> {
                let m0 = old(target).methods@[i];
                let m1 = #[trigger] target.methods@[i];
                &&& m1.id == m0.id
                &&& m1.name == m0.name
                &&& m1.parameters == m0.parameters
                &&& m1.body@ == if m0.id == id { m0.body@ + shifted_body(body@.take(j as int), io as int) } else { m0.body@ }
            },
        decreases body.len() - j,
    {
        let ghost before = *target;
        let inst = InstructionId((io as u32) + body[j].0);
        target.push_to_body(id, inst);
        assert forall|a: int, b: int| #![trigger target.methods@[a].body@[b]] 0 <= a < target.methods@.len() && 0 <= b < target.methods@[a].body@.len()
            implies target.instruction_index(target.methods@[a].body@[b]) is Some by {
            if b < before.methods@[a].body@.len() {
                assert(target.methods@[a].body@[b] == before.methods@[a].body@[b]);
            }
        }
        assert forall|i: int| 0 <= i < old(target).methods@.len() implies {
            let m0 = old(target).methods@[i];
            let m1 = #[trigger] target.methods@[i];
            &&& m1.id == m0.id
            &&& m1.name == m0.name
            &&& m1.parameters == m0.parameters
            &&& m1.body@ == if m0.id == id { m0.body@ + shifted_body(body@.take(j + 1int), io as int) } else { m0.body@ }
        } by {
            if old(target).methods@[i].id == id {
                assert(shifted_body(body@.take(j + 1int), io as int) =~= shifted_body(body@.take(j as int), io as int).push(inst));
                assert(target.methods@[i].body@ =~= old(target).methods@[i].body@ + shifted_body(body@.take(j + 1int), io as int));
            }
        }
        j = j + 1;
    }
    assert(body@.take(body@.len() as int) =~= body@);
}

/// Appends `source` to `target`: its modules, types, methods, fields and
/// instructions get the identifiers that follow those of `target`, in
/// identifier order; a type joins the module that first lists it, a method
/// the module that first lists it, if any; parent types and bodies are
/// renumbered; the source files are recorded, a later text replacing an
/// earlier one of the same path.
fn merge_program(target: &mut Program, source: Program)
    requires
        old(target).wf(),
        old(target).bodies_known(),
        mergeable(source),
        old(target).modules@.len() + source.modules@.len() + 1 < u32::MAX,
        old(target).types@.len() + source.types@.len() + 1 < u32::MAX,
        old(target).methods@.len() + source.methods@.len() + 1 < u32::MAX,
        old(target).fields@.len() + source.fields@.len() + 1 < u32::MAX,
        old(target).instructions@.len() + source.instructions@.len() + 1 < u32::MAX,
    ensures
        final(target).wf(),
        final(target).bodies_known(),
        final(target).modules@.len() == old(target).modules@.len() + source.modules@.len(),
        final(target).types@.len() == old(target).types@.len() + source.types@.len(),
        final(target).methods@.len() == old(target).methods@.len() + source.methods@.len(),
        final(target).fields@.len() == old(target).fields@.len() + source.fields@.len(),
        final(target).instructions@.len() == old(target).instructions@.len() + source.instructions@.len(),
        final(target).instructions@.take(old(target).instructions@.len() as int) == old(target).instructions@,
        forall|k: int| 0 <= k < source.instructions@.len() ==> {
            let n = #[trigger] final(target).instructions@[old(target).instructions@.len() + k];
            &&& n.kind == source.instructions@[k].kind
            &&& n.span == source.instructions@[k].span
        },
        forall|i: int| 0 <= i < old(target).methods@.len() ==> {
            &&& (#[trigger] final(target).methods@[i]).name == old(target).methods@[i].name
            &&& final(target).methods@[i].body@ == old(target).methods@[i].body@
        },
        forall|k: int| 0 <= k < source.methods@.len() ==> {
            let n = #[trigger] final(target).methods@[old(target).methods@.len() + k];
            &&& n.name == source.methods@[k].name
            &&& n.parameters@ == source.methods@[k].parameters@
            &&& n.body@ == shifted_body(source.methods@[k].body@, old(target).instructions@.len() as int)
        },
{
    let ghost t0 = *target;
    let mo = target.modules.len();
    let to = target.types.len();
    let meo = target.methods.len();
    let io = target.instructions.len();
    merge_modules(target, &source);
    assert(target.bodies_known());
    merge_types(target, &source, mo);
    assert(target.bodies_known());
    merge_methods(target, &source, mo, to);
    merge_fields(target, &source, to);
    let ghost t3 = *target;
    assert(target.bodies_known());
    let Program { methods: src_methods, instructions: src_instructions, source_files: src_files, .. } = source;
    let ghost n_insts = src_instructions@.len();
    merge_instructions(target, src_instructions);
    assert forall|a: int, b: int| #![trigger target.methods@[a].body@[b]] 0 <= a < target.methods@.len() && 0 <= b < target.methods@[a].body@.len()
        implies target.instruction_index(target.methods@[a].body@[b]) is Some by {
        assert(t3.methods@[a].body@[b] == target.methods@[a].body@[b]);
    }
    let ghost t4 = *target;
    let mut k: usize = 0;
    while k < src_methods.len()
        invariant
            k <= src_methods@.len(),
            meo == t0.methods@.len(),
            io == t0.instructions@.len(),
            src_methods@ == source.methods@,
            target.wf(),
            target.bodies_known(),
            target.modules@.len() == t4.modules@.len(),
            target.types@.len() == t4.types@.len(),
            target.fields@.len() == t4.fields@.len(),
            target.instructions == t4.instructions,
            target.instructions@.len() == io + n_insts,
            n_insts == source.instructions@.len(),
            io + n_insts + 1 < u32::MAX,
            mergeable(source),
            target.methods@.len() == meo + src_methods@.len(),
            forall|i: int| 0 <= i < meo ==> {
                &&& (#[trigger] target.methods@[i]).name == t0.methods@[i].name
                &&& target.methods@[i].body@ == t0.methods@[i].body@
            },
            forall|j: int| 0 <= j < src_methods@.len() ==> {
                let n = #[trigger] target.methods@[meo + j];
                &&& n.name == src_methods@[j].name
                &&& n.parameters@ == src_methods@[j].parameters@
                &&& n.body@ == if j < k { shifted_body(src_methods@[j].body@, io as int) } else { Seq::empty() }
            },
            meo + src_methods@.len() + 1 < u32::MAX,
        decreases src_methods.len() - k,
    {
        let ghost before = *target;
        let new_id = MethodId((meo + k + 1) as u32);
        assert forall|c: int| 0 <= c < src_methods@[k as int].body@.len() implies 1 <= (#[trigger] src_methods@[k as int].body@[c]).0
            && io + src_methods@[k as int].body@[c].0 <= target.instructions@.len() by {
            assert(source.instruction_index(source.methods@[k as int].body@[c]) is Some);
        }
        append_body(target, new_id, &src_methods[k].body, io);
        assert forall|j: int| 0 <= j < src_methods@.len() implies {
            let n = #[trigger] target.methods@[meo + j];
            &&& n.name == src_methods@[j].name
            &&& n.parameters@ == src_methods@[j].parameters@
            &&& n.body@ == if j < k + 1 { shifted_body(src_methods@[j].body@, io as int) } else { Seq::empty() }
        } by {
            assert(before.methods@[meo + j].id == MethodId((meo + j + 1) as u32));
            if j == k {
                assert(Seq::<InstructionId>::empty() + shifted_body(src_methods@[j].body@, io as int) =~= shifted_body(src_methods@[j].body@, io as int));
            }
        }
        assert forall|i: int| 0 <= i < meo implies {
            &&& (#[trigger] target.methods@[i]).name == t0.methods@[i].name
            &&& target.methods@[i].body@ == t0.methods@[i].body@
        } by {
            assert(before.methods@[i].id == MethodId((i + 1) as u32));
        }
        k = k + 1;
    }
    let ghost t5 = *target;
    let mut files = src_files;
    while files.len() > 0
        invariant
            target.wf(),
            target.modules == t5.modules,
            target.types == t5.types,
            target.methods == t5.methods,
            target.fields == t5.fields,
            target.instructions == t5.instructions,
        decreases files.len(),
    {
        let (path, text) = files.remove(0);
        target.set_source_file(path, text);
    }
    assert(target.bodies_known()) by {
        assert(t5.bodies_known());
    }
}

} // verus!

verus! {


/// Whether a text ends with `.py`.
pub open spec fn ends_with_py(s: Seq<char>) -> bool {
    s.len() >= 3 && s.subrange(s.len() - 3, s.len() as int) == seq!['.', 'p', 'y']
}

/// Whether `caller` is listed by a module whose file is a Python file.
pub open spec fn in_python_module(p: Program, caller: MethodId) -> bool {
    exists|k: int| 0 <= k < p.modules@.len() && (#[trigger] p.modules@[k]).methods@.contains(caller) && ends_with_py(p.modules@[k].file_path@)
}

/// Whether `s` ends with `.py`.
fn is_python_path(s: &str) -> (r: bool)
    ensures
        r == ends_with_py(s@),
{
    let c = chars_of(s);
    let n = c.len();
    if n < 3 {
        return false;
    }
    let r = c[n - 3] == '.' && c[n - 2] == 'p' && c[n - 1] == 'y';
    assert(r == (c@.subrange(n - 3, n as int) =~= seq!['.', 'p', 'y']));
    r
}

/// Whether `caller` is listed by a module whose file is a Python file.
fn caller_in_python(program: &Program, caller: MethodId) -> (r: bool)
    ensures
        r == in_python_module(*program, caller),
{
    let mut k: usize = 0;
    while k < program.modules.len()
        invariant
            k <= program.modules@.len(),
            forall|j: int| 0 <= j < k ==> !((#[trigger] program.modules@[j]).methods@.contains(caller) && ends_with_py(program.modules@[j].file_path@)),
        decreases program.modules.len() - k,
    {
        let m = &program.modules[k];
        if holds_method(&m.methods, caller) && is_python_path(m.file_path.as_str()) {
            assert(program.modules@[k as int].methods@.contains(caller) && ends_with_py(program.modules@[k as int].file_path@));
            return true;
        }
        k = k + 1;
    }
    false
}

/// Resolution for repositories that mix languages: calls in methods of
/// Python files resolve as Python calls, the others as Java calls.
pub struct CompositeResolver;

impl CallResolver for CompositeResolver {
    open spec fn targets(&self, program: Program, semantic_info: SemanticInfo, caller: MethodId, callsite: CallSiteId, callee_name: Seq<char>) -> Seq<MethodId> {
        if in_python_module(program, caller) {
            python_targets(program, semantic_info, caller, callee_name)
        } else {
            java_targets(program, semantic_info, callee_name)
        }
    }

    fn resolve(
        &self,
        program: &Program,
        semantic_info: &SemanticInfo,
        caller: MethodId,
        callsite: CallSiteId,
        callee_name: &str,
        instantiated_types: &HashSet<String>,
    ) -> (r: Vec<MethodId>) {
        let is_python = caller_in_python(program, caller);
        if is_python {
            PythonResolver.resolve(program, semantic_info, caller, callsite, callee_name, instantiated_types)
        } else {
            JavaResolver.resolve(program, semantic_info, caller, callsite, callee_name, instantiated_types)
        }
    }
}


/// Whether method `mid` of `p` has instruction `t` in its body.
pub open spec fn method_has_inst(p: Program, mid: MethodId, t: InstructionId) -> bool {
    match p.method_index(mid) {
        Some(k) => p.methods@[k].body@.contains(t),
        None => false,
    }
}

/// Whether some method listed by module `mi` has instruction `t`.
pub open spec fn module_has_inst(p: Program, mi: int, t: InstructionId) -> bool {
    exists|j: int| 0 <= j < p.modules@[mi].methods@.len() && method_has_inst(p, #[trigger] p.modules@[mi].methods@[j], t)
}

/// The first module, in order, one of whose methods has instruction `t`.
pub open spec fn module_with_inst(p: Program, t: InstructionId) -> Option<int> {
    if exists|mi: int| 0 <= mi < p.modules@.len() && #[trigger] module_has_inst(p, mi, t) {
        Some(choose|mi: int| 0 <= mi < p.modules@.len() && #[trigger] module_has_inst(p, mi, t)
            && forall|j: int| 0 <= j < mi ==> !module_has_inst(p, j, t))
    } else {
        None
    }
}

/// The first method listed by module `mi` that has instruction `t`.
pub open spec fn method_with_inst(p: Program, mi: int, t: InstructionId) -> MethodId {
    p.modules@[mi].methods@[choose|j: int| 0 <= j < p.modules@[mi].methods@.len() && method_has_inst(p, #[trigger] p.modules@[mi].methods@[j], t)
        && forall|k: int| 0 <= k < j ==> !method_has_inst(p, p.modules@[mi].methods@[k], t)]
}

/// The span of instruction `t`, if the program has it and it has one.
pub open spec fn span_of(p: Program, t: InstructionId) -> Option<Span> {
    match p.instruction_index(t) {
        Some(k) => p.instructions@[k].span,
        None => None,
    }
}

/// Where instruction `t` stands: the file of the first module with a method
/// that has it, that method's name, and its span; `<unknown>` twice and no
/// span when no method has it.
pub open spec fn inst_meta(p: Program, t: InstructionId) -> (Seq<char>, Seq<char>, Option<Span>) {
    match module_with_inst(p, t) {
        Some(mi) => {
            let mid = method_with_inst(p, mi, t);
            (p.modules@[mi].file_path@, p.methods@[mid.0 - 1].name@, span_of(p, t))
        },
        None => ("<unknown>"@, "<unknown>"@, None),
    }
}

/// Whether `v` holds `t`.
fn holds_inst(v: &Vec<InstructionId>, t: InstructionId) -> (r: bool)
    ensures
        r == v@.contains(t),
{
    let mut i: usize = 0;
    while i < v.len()
        invariant
            i <= v@.len(),
            forall|j: int| 0 <= j < i ==> v@[j] != t,
        decreases v.len() - i,
    {
        if v[i] == t {
            assert(v@[i as int] == t);
            return true;
        }
        i = i + 1;
    }
    false
}

/// The index of the first method listed by module `mi` that has `t`.
fn method_index_with_inst(p: &Program, mi: usize, t: InstructionId) -> (r: Option<usize>)
    requires
        p.wf(),
        mi < p.modules@.len(),
    ensures
        match r {
            Some(j) => j < p.modules@[mi as int].methods@.len() && method_has_inst(*p, p.modules@[mi as int].methods@[j as int], t)
                && forall|k: int| 0 <= k < j ==> !method_has_inst(*p, p.modules@[mi as int].methods@[k], t),
            None => !module_has_inst(*p, mi as int, t),
        },
{
    let ms = &p.modules[mi].methods;
    let mut j: usize = 0;
    while j < ms.len()
        invariant
            j <= ms@.len(),
            p.wf(),
            ms@ == p.modules@[mi as int].methods@,
            forall|k: int| 0 <= k < j ==> !method_has_inst(*p, ms@[k], t),
        decreases ms.len() - j,
    {
        match p.method(ms[j]) {
            Some(m) => {
                if holds_inst(&m.body, t) {
                    return Some(j);
                }
            },
            None => {},
        }
        j = j + 1;
    }
    None
}

/// The analysis pipeline: its configuration and the rules it loaded.
pub struct AnalysisPipeline {
    pub config: AnalysisConfiguration,
    pub registry: RuleRegistry,
}

impl AnalysisPipeline {
    /// A pipeline with the embedded packs the configuration names, or with
    /// every embedded pack when it names none.
    pub fn new(config: AnalysisConfiguration) -> (r: Self)
        ensures
            r.registry@ == if config.rule_packs@.len() == 0 {
                RegistryView::empty().load_packs(all_packs_view())
            } else {
                RegistryView::empty().load_packs(select_packs(all_packs_view(), string_views(config.rule_packs@)))
            },
            r.config == config,
    {
        let registry = if config.rule_packs.len() == 0 {
            RulePackLoader::all_embedded()
        } else {
            let mut names: Vec<&str> = Vec::new();
            let mut i: usize = 0;
            while i < config.rule_packs.len()
                invariant
                    i <= config.rule_packs@.len(),
                    name_views(names@) == string_views(config.rule_packs@.take(i as int)),
                decreases config.rule_packs.len() - i,
            {
                let ghost before = names@;
                names.push(config.rule_packs[i].as_str());
                assert(name_views(names@) =~= name_views(before).push(config.rule_packs@[i as int]@));
                assert(string_views(config.rule_packs@.take(i + 1int)) =~= string_views(config.rule_packs@.take(i as int)).push(config.rule_packs@[i as int]@));
                i = i + 1;
            }
            assert(config.rule_packs@.take(config.rule_packs@.len() as int) =~= config.rule_packs@);
            RulePackLoader::embedded_by_names(names.as_slice())
        };
        AnalysisPipeline { config, registry }
    }

    /// Where instruction `target_inst_id` stands, as `inst_meta` says.
    fn get_instruction_metadata(&self, program: &Program, target_inst_id: InstructionId) -> (r: (String, String, Option<Span>))
        requires
            program.wf(),
        ensures
            (r.0@, r.1@, r.2) == inst_meta(*program, target_inst_id),
    {
        let mut mi: usize = 0;
        while mi < program.modules.len()
            invariant
                mi <= program.modules@.len(),
                program.wf(),
                forall|j: int| 0 <= j < mi ==> !module_has_inst(*program, j, target_inst_id),
            decreases program.modules.len() - mi,
        {
            match method_index_with_inst(program, mi, target_inst_id) {
                Some(j) => {
                    let module = &program.modules[mi];
                    let mid = module.methods[j];
                    assert(module_has_inst(*program, mi as int, target_inst_id));
                    let ghost c = choose|c: int| 0 <= c < program.modules@.len() && #[trigger] module_has_inst(*program, c, target_inst_id)
                        && forall|j: int| 0 <= j < c ==> !module_has_inst(*program, j, target_inst_id);
                    assert(c == mi as int) by {
                        if c < mi {
                        } else if c > mi {
                            assert(!module_has_inst(*program, mi as int, target_inst_id));
                        }
                    }
                    let ghost cj = choose|jj: int| 0 <= jj < program.modules@[mi as int].methods@.len()
                        && method_has_inst(*program, #[trigger] program.modules@[mi as int].methods@[jj], target_inst_id)
                        && forall|k: int| 0 <= k < jj ==> !method_has_inst(*program, program.modules@[mi as int].methods@[k], target_inst_id);
                    assert(cj == j as int) by {
                        if cj < j {
                        } else if cj > j {
                        }
                    }
                    let method = match program.method(mid) {
                        Some(m) => m,
                        None => {
                            assert(false);
                            return (String::new(), String::new(), None);
                        },
                    };
                    let span = match program.instruction(target_inst_id) {
                        Some(inst) => inst.span,
                        None => None,
                    };
                    return (module.file_path.clone(), method.name.clone(), span);
                },
                None => {},
            }
            mi = mi + 1;
        }
        (String::from_str("<unknown>"), String::from_str("<unknown>"), None)
    }
}


/// Whether every character of `s` is an ASCII digit.
pub open spec fn all_digits(s: Seq<char>) -> bool {
    forall|i: int| 0 <= i < s.len() ==> '0' <= #[trigger] s[i] <= '9'
}

/// The number that a run of decimal digits denotes.
pub open spec fn digits_value(s: Seq<char>) -> nat
    decreases s.len(),
{
    if s.len() == 0 {
        0
    } else {
        digits_value(s.drop_last()) * 10 + (s.last() as int - '0' as int) as nat
    }
}

/// What `u32` parsing gives for `s`: an optional `+`, then one or more
/// decimal digits whose value fits.
pub open spec fn parse_u32_text(s: Seq<char>) -> Option<u32> {
    let d = if s.len() > 0 && s[0] == '+' { s.drop_first() } else { s };
    if d.len() > 0 && all_digits(d) && digits_value(d) <= u32::MAX {
        Some(digits_value(d) as u32)
    } else {
        None
    }
}

/// The instruction a sink location `inst:N` names, or 0.
pub open spec fn sink_id_of(loc: Option<Seq<char>>) -> u32 {
    match loc {
        Some(s) => if s.len() >= 5 && s.take(5) == seq!['i', 'n', 's', 't', ':'] {
            match parse_u32_text(s.skip(5)) {
                Some(n) => n,
                None => 0,
            }
        } else {
            0
        },
        None => 0,
    }
}

/// A prefix of digits denotes no more than the whole run.
proof fn lemma_digits_prefix(s: Seq<char>, k: int)
    requires
        0 <= k <= s.len(),
        all_digits(s),
    ensures
        digits_value(s.take(k)) <= digits_value(s),
    decreases s.len() - k,
{
    if k < s.len() {
        lemma_digits_prefix(s, k + 1);
        assert(s.take(k + 1).drop_last() =~= s.take(k));
        assert('0' <= s[k] <= '9');
    } else {
        assert(s.take(k) =~= s);
    }
}

/// Parses decimal digits from position `start` of `c`, as `u32` parsing does.
fn parse_u32_from(c: &Vec<char>, start: usize) -> (r: Option<u32>)
    requires
        start <= c@.len(),
    ensures
        r == parse_u32_text(c@.skip(start as int)),
{
    let ghost s = c@.skip(start as int);
    let mut i = start;
    if i < c.len() && c[i] == '+' {
        i = i + 1;
    }
    let ghost d = c@.skip(i as int);
    assert(d =~= if s.len() > 0 && s[0] == '+' { s.drop_first() } else { s });
    if i >= c.len() {
        assert(d.len() == 0);
        return None;
    }
    let mut value: u64 = 0;
    let mut k = i;
    while k < c.len()
        invariant
            i <= k <= c@.len(),
            d == c@.skip(i as int),
            s == c@.skip(start as int),
            d == (if s.len() > 0 && s[0] == '+' { s.drop_first() } else { s }),
            d.len() > 0,
            all_digits(d.take(k - i)),
            value == digits_value(d.take(k - i)),
            value <= u32::MAX,
        decreases c.len() - k,
    {
        let ch = c[k];
        if !('0' <= ch && ch <= '9') {
            assert(!all_digits(d)) by {
                assert(d[k - i] == ch);
            }
            return None;
        }
        let digit: u64 = (ch as u64) - ('0' as u64);
        assert(d.take(k - i + 1).drop_last() =~= d.take(k - i));
        assert(d.take(k - i + 1).last() == ch);
        let next = value * 10 + digit;
        if next > 0xffff_ffff {
            assert(digits_value(d.take(k - i + 1)) == next);
            proof {
                if all_digits(d) {
                    lemma_digits_prefix(d, k - i + 1);
                }
            }
            return None;
        }
        value = next;
        k = k + 1;
    }
    assert(d.take(k - i) =~= d);
    Some(value as u32)
}

/// The instruction a sink location `inst:N` names, or 0.
fn parse_sink_id(loc: &Option<String>) -> (r: u32)
    ensures
        r == sink_id_of(opt_view(*loc)),
{
    match loc {
        Some(s) => {
            let c = chars_of(s.as_str());
            if c.len() >= 5 && c[0] == 'i' && c[1] == 'n' && c[2] == 's' && c[3] == 't' && c[4] == ':' {
                assert(c@.take(5) =~= seq!['i', 'n', 's', 't', ':']);
                match parse_u32_from(&c, 5) {
                    Some(n) => n,
                    None => 0,
                }
            } else {
                proof {
                    if c@.len() >= 5 {
                        if c@.take(5) == seq!['i', 'n', 's', 't', ':'] {
                            assert(c@.take(5)[0] == 'i' && c@.take(5)[1] == 'n' && c@.take(5)[2] == 's' && c@.take(5)[3] == 't' && c@.take(5)[4] == ':');
                        }
                    }
                }
                0
            }
        },
        None => 0,
    }
}


/// Whether instruction `k` (by index) of `p` calls a source.
pub open spec fn is_source_call(p: Program, reg: RegistryView, k: int) -> bool {
    match p.instructions@[k].kind {
        InstructionKind::Call { callee, .. } => any_hit(reg.sources, callee@),
        _ => false,
    }
}

/// Whether instruction `k` (by index) calls a source and stands in `file`.
pub open spec fn source_in_file(p: Program, reg: RegistryView, k: int, file: Seq<char>) -> bool {
    is_source_call(p, reg, k) && inst_meta(p, InstructionId((k + 1) as u32)).0 == file
}

/// The first instruction, by index, that calls a source in `file`.
pub open spec fn first_source_in_file(p: Program, reg: RegistryView, file: Seq<char>) -> Option<int> {
    if exists|k: int| 0 <= k < p.instructions@.len() && #[trigger] source_in_file(p, reg, k, file) {
        Some(choose|k: int| 0 <= k < p.instructions@.len() && #[trigger] source_in_file(p, reg, k, file)
            && forall|j: int| 0 <= j < k ==> !source_in_file(p, reg, j, file))
    } else {
        None
    }
}

/// How a location at instruction `id` with an optional span reads.
pub open spec fn loc_text_of(file: Seq<char>, id: u32, span: Option<Span>) -> Seq<char> {
    match span {
        Some(sp) => location_text(file, id, Some(sp.start_line), Some(sp.start_col)),
        None => location_text(file, id, None, None),
    }
}

/// How the sink of a taint finding reads.
pub open spec fn sink_text(p: Program, f: FindingView) -> Seq<char> {
    let id = sink_id_of(f.sink_location);
    let m = inst_meta(p, InstructionId(id));
    loc_text_of(m.0, id, m.2)
}

/// How the source of a taint finding reads: the first source call in the
/// sink's file, or else the sink's file at instruction 0.
pub open spec fn source_text(p: Program, reg: RegistryView, f: FindingView) -> Seq<char> {
    let m = inst_meta(p, InstructionId(sink_id_of(f.sink_location)));
    match first_source_in_file(p, reg, m.0) {
        Some(k) => {
            let sm = inst_meta(p, InstructionId((k + 1) as u32));
            loc_text_of(sm.0, (k + 1) as u32, sm.2)
        },
        None => location_text(m.0, 0, None, None),
    }
}

/// The fingerprint of the report finding made from a taint finding.
pub open spec fn engine_fingerprint(p: Program, reg: RegistryView, f: FindingView) -> Seq<char> {
    f.rule_id + "|"@ + source_text(p, reg, f) + "|"@ + sink_text(p, f) + "|"@ + f.access_path
}

/// Whether `out` reports the taint findings `fs`: in fingerprint order, no
/// more findings than `fs`, every finding of `fs` represented by the one
/// with its fingerprint, and every reported one made from some of `fs`.
pub open spec fn reports(p: Program, reg: RegistryView, fs: Seq<FindingView>, out: Seq<crate::reporting::Finding>) -> bool {
    &&& sorted_by_fingerprint(out)
    &&& out.len() <= fs.len()
    &&& forall|i: int| 0 <= i < fs.len() ==> has_fingerprint(out, engine_fingerprint(p, reg, #[trigger] fs[i]))
    &&& forall|j: int| 0 <= j < out.len() ==> made_from(p, reg, fs, #[trigger] out[j])
}

/// Whether report finding `f` has the fingerprint of one of the taint
/// findings `fs`.
pub open spec fn made_from(p: Program, reg: RegistryView, fs: Seq<FindingView>, f: crate::reporting::Finding) -> bool {
    exists|i: int| 0 <= i < fs.len() && f.fingerprint.0@ == engine_fingerprint(p, reg, #[trigger] fs[i])
}

proof fn lemma_reports_intro(p: Program, reg: RegistryView, fs: Seq<FindingView>, out: Seq<crate::reporting::Finding>)
    requires
        sorted_by_fingerprint(out),
        out.len() <= fs.len(),
        forall|i: int| 0 <= i < fs.len() ==> has_fingerprint(out, engine_fingerprint(p, reg, #[trigger] fs[i])),
        forall|j: int| 0 <= j < out.len() ==> made_from(p, reg, fs, #[trigger] out[j]),
    ensures
        reports(p, reg, fs, out),
{
}

/// A location from its parts.
fn location(file: &String, method: &String, id: u32, span: Option<Span>) -> (r: SourceLocation)
    ensures
        r.text() == loc_text_of(file@, id, span),
        r.file@ == file@,
{
    let (line, column) = match span {
        Some(sp) => (Some(sp.start_line), Some(sp.start_col)),
        None => (None, None),
    };
    SourceLocation { file: file.clone(), method: method.clone(), instruction_id: id, line, column }
}

/// The index of the metadata recorded for rule `rule_id`, if any.
fn find_metadata(metadata: &Vec<RuleMetadata>, rule_id: &String) -> (r: Option<usize>)
    ensures
        r matches Some(m) ==> m < metadata@.len() && metadata@[m as int].rule_id@ == rule_id@
            && forall|j: int| 0 <= j < m ==> (#[trigger] metadata@[j]).rule_id@ != rule_id@,
        r is None ==> forall|j: int| 0 <= j < metadata@.len() ==> (#[trigger] metadata@[j]).rule_id@ != rule_id@,
{
    let mut m: usize = 0;
    while m < metadata.len()
        invariant
            m <= metadata@.len(),
            forall|j: int| 0 <= j < m ==> (#[trigger] metadata@[j]).rule_id@ != rule_id@,
        decreases metadata.len() - m,
    {
        if crate::text::str_eq(metadata[m].rule_id.as_str(), rule_id.as_str()) {
            return Some(m);
        }
        m = m + 1;
    }
    None
}

/// A copy of rule metadata.
fn copy_metadata(m: &RuleMetadata) -> (r: RuleMetadata)
    ensures
        r == *m,
{
    RuleMetadata {
        rule_id: m.rule_id.clone(),
        rule_name: m.rule_name.clone(),
        cwe: m.cwe,
        severity: m.severity,
        category: crate::rules::copy_opt_string(&m.category),
        language: crate::rules::copy_opt_string(&m.language),
        description: crate::rules::copy_opt_string(&m.description),
    }
}

/// One more taint finding offered to the report keeps what `reports` asks
/// of the findings offered so far.
#[verifier::spinoff_prover]
#[verifier::rlimit(40)]
proof fn lemma_report_step(
    before: Seq<crate::reporting::Finding>,
    after: Seq<crate::reporting::Finding>,
    nf: crate::reporting::Finding,
    fv: Seq<FindingView>,
    p: Program,
    reg: RegistryView,
    i: int,
)
    requires
        0 <= i < fv.len(),
        nf.fingerprint.0@ == engine_fingerprint(p, reg, fv[i]),
        crate::reporting::added(before, after, nf),
        before.len() <= i,
        forall|a: int| 0 <= a < i ==> has_fingerprint(before, engine_fingerprint(p, reg, #[trigger] fv[a])),
        forall|j: int| 0 <= j < before.len() ==> exists|a: int| 0 <= a < i
            && (#[trigger] before[j]).fingerprint.0@ == engine_fingerprint(p, reg, fv[a]),
    ensures
        after.len() <= i + 1,
        forall|a: int| 0 <= a < i + 1 ==> has_fingerprint(after, engine_fingerprint(p, reg, #[trigger] fv[a])),
        forall|j: int| 0 <= j < after.len() ==> exists|a: int| 0 <= a < i + 1
            && (#[trigger] after[j]).fingerprint.0@ == engine_fingerprint(p, reg, fv[a]),
{
    if has_fingerprint(before, nf.fingerprint.0@) {
        assert(after == before);
    } else {
        let pos = choose|pos: int| 0 <= pos <= before.len() && after == before.insert(pos, nf);
        assert(after[pos] == nf);
        assert forall|a: int| 0 <= a < i + 1 implies has_fingerprint(after, engine_fingerprint(p, reg, #[trigger] fv[a])) by {
            if a < i {
                let w = choose|w: int| 0 <= w < before.len() && (#[trigger] before[w]).fingerprint.0@ == engine_fingerprint(p, reg, fv[a]);
                if w < pos {
                    assert(after[w] == before[w]);
                } else {
                    assert(after[w + 1] == before[w]);
                }
            }
        }
        assert forall|j: int| 0 <= j < after.len() implies exists|a: int| 0 <= a < i + 1
            && (#[trigger] after[j]).fingerprint.0@ == engine_fingerprint(p, reg, fv[a]) by {
            if j < pos {
                assert(after[j] == before[j]);
                let a = choose|a: int| 0 <= a < i && (#[trigger] before[j]).fingerprint.0@ == engine_fingerprint(p, reg, fv[a]);
            } else if j > pos {
                assert(after[j] == before[j - 1]);
                let a = choose|a: int| 0 <= a < i && (#[trigger] before[j - 1]).fingerprint.0@ == engine_fingerprint(p, reg, fv[a]);
            }
        }
    }
}

impl AnalysisPipeline {
    /// Whether instruction `k` (by index) calls a source and stands in
    /// `file`.
    fn is_source_in_file(&self, program: &Program, k: usize, file: &String) -> (r: bool)
        requires
            program.wf(),
            k < program.instructions@.len(),
        ensures
            r == source_in_file(*program, self.registry@, k as int, file@),
    {
        let inst = &program.instructions[k];
        match &inst.kind {
            InstructionKind::Call { callee, .. } => {
                if self.registry.is_source(callee.as_str()) {
                    let iid = inst.id;
                    assert(iid == InstructionId((k + 1) as u32));
                    let (src_file, _src_method, _src_span) = self.get_instruction_metadata(program, iid);
                    crate::text::str_eq(src_file.as_str(), file.as_str())
                } else {
                    false
                }
            },
            _ => false,
        }
    }

    /// The location of the first source call in `sink_file`, or of
    /// instruction 0 of that file when there is none.
    fn source_location(&self, program: &Program, sink_file: &String) -> (r: SourceLocation)
        requires
            program.wf(),
        ensures
            r.text() == match first_source_in_file(*program, self.registry@, sink_file@) {
                Some(k) => {
                    let sm = inst_meta(*program, InstructionId((k + 1) as u32));
                    loc_text_of(sm.0, (k + 1) as u32, sm.2)
                },
                None => location_text(sink_file@, 0, None, None),
            },
    {
        let mut k: usize = 0;
        while k < program.instructions.len()
            invariant
                k <= program.instructions@.len(),
                program.wf(),
                forall|j: int| 0 <= j < k ==> !source_in_file(*program, self.registry@, j, sink_file@),
            decreases program.instructions.len() - k,
        {
            if self.is_source_in_file(program, k, sink_file) {
                let iid = program.instructions[k].id;
                let ghost c = choose|c: int| 0 <= c < program.instructions@.len() && #[trigger] source_in_file(*program, self.registry@, c, sink_file@)
                    && forall|j: int| 0 <= j < c ==> !source_in_file(*program, self.registry@, j, sink_file@);
                assert(c == k as int) by {
                    if c > k {
                        assert(!source_in_file(*program, self.registry@, k as int, sink_file@));
                    }
                }
                let (src_file, src_method, src_span) = self.get_instruction_metadata(program, iid);
                return location(&src_file, &src_method, iid.0, src_span);
            }
            k = k + 1;
        }
        let mut loc = SourceLocation::unknown();
        loc.file = sink_file.clone();
        loc
    }

    /// The report findings made from the taint findings `fs`: each gets its
    /// sink from the instruction its sink location names, its source from
    /// the first source call in the sink's file, the metadata of the first
    /// finding of its rule, a source-to-sink trace and a CWE message; then
    /// they are de-duplicated by fingerprint and sorted.
    fn map_findings(&self, program: &Program, fs: &Vec<crate::rules::Finding>) -> (r: Vec<crate::reporting::Finding>)
        requires
            program.wf(),
            fs@.len() < u32::MAX,
        ensures
            reports(*program, self.registry@, finding_views(fs@), r@),
    {
        let ghost fv = finding_views(fs@);
        let mut builder = ReportBuilder::new();
        let mut metadata: Vec<RuleMetadata> = Vec::new();
        let mut i: usize = 0;
        while i < fs.len()
            invariant
                i <= fs@.len(),
                fs@.len() < u32::MAX,
                program.wf(),
                fv == finding_views(fs@),
                builder.counter() == i,
                builder.report().len() <= i,
                forall|a: int| 0 <= a < i ==> has_fingerprint(builder.report(), engine_fingerprint(*program, self.registry@, #[trigger] fv[a])),
                forall|j: int| 0 <= j < builder.report().len() ==> exists|a: int| 0 <= a < i
                    && (#[trigger] builder.report()[j]).fingerprint.0@ == engine_fingerprint(*program, self.registry@, fv[a]),
            decreases fs.len() - i,
        {
            let f = &fs[i];
            let sink_id = parse_sink_id(&f.sink_location);
            let (sink_file, sink_method, sink_span) = self.get_instruction_metadata(program, InstructionId(sink_id));
            let sink_loc = location(&sink_file, &sink_method, sink_id, sink_span);
            let src_loc = self.source_location(program, &sink_file);
            let rule_meta = match find_metadata(&metadata, &f.rule_id) {
                Some(m) => copy_metadata(&metadata[m]),
                None => {
                    let language = if is_python_path(sink_file.as_str()) { String::from_str("python") } else { String::from_str("java") };
                    let meta = RuleMetadata {
                        rule_id: f.rule_id.clone(),
                        rule_name: f.rule_name.clone(),
                        cwe: f.cwe,
                        severity: f.severity,
                        category: Some(String::from_str("injection")),
                        language: Some(language),
                        description: Some(String::from_str("Dataflow vulnerability detected.")),
                    };
                    metadata.push(copy_metadata(&meta));
                    meta
                },
            };
            let mut trace = FindingTrace::new();
            trace.push(TraceStep { kind: TraceStepKind::Source, description: String::from_str("Source call"), location: src_loc.clone() });
            trace.push(TraceStep { kind: TraceStepKind::Sink, description: String::from_str("Sink call"), location: sink_loc.clone() });
            let confidence = match f.confidence {
                crate::rules::Confidence::High => crate::reporting::Confidence::High,
                crate::rules::Confidence::Medium => crate::reporting::Confidence::Medium,
                crate::rules::Confidence::Low => crate::reporting::Confidence::Low,
            };
            let mut title = String::from_str("CWE-");
            push_decimal(&mut title, match f.cwe { Some(n) => n as u64, None => 0 });
            title.append(" Violation");
            let message = DiagnosticMessage {
                title,
                detail: String::from_str("Untrusted input reaches critical sink."),
                remediation: Some(String::from_str("Ensure inputs are sanitized.")),
            };
            let ghost before = builder.report();
            let ghost fp = engine_fingerprint(*program, self.registry@, fv[i as int]);
            assert(fv[i as int] == f@);
            assert(crate::reporting::fingerprint_text(rule_meta.rule_id@, src_loc, sink_loc, f.access_path@) == fp);
            let access_path = f.access_path.clone();
            builder.add_finding(rule_meta, confidence, src_loc, sink_loc, access_path, trace, message);
            proof {
                let nf = choose|nf: crate::reporting::Finding| nf.fingerprint.0@ == fp && crate::reporting::added(before, builder.report(), nf);
                lemma_report_step(before, builder.report(), nf, fv, *program, self.registry@, i as int);
            }
            i = i + 1;
        }
        let ghost rep = builder.report();
        let out = builder.build().into_sorted();
        assert(out@ == rep);
        assert(fv.len() == fs@.len());
        assert(i == fs@.len());
        assert(sorted_by_fingerprint(out@));
        assert(out@.len() <= fv.len());
        assert(forall|a: int| 0 <= a < fv.len() ==> has_fingerprint(out@, engine_fingerprint(*program, self.registry@, #[trigger] fv[a])));
        assert forall|j: int| 0 <= j < out@.len() implies made_from(*program, self.registry@, fv, #[trigger] out@[j]) by {
            assert(rep[j] == out@[j]);
            let a = choose|a: int| 0 <= a < i && (#[trigger] rep[j]).fingerprint.0@ == engine_fingerprint(*program, self.registry@, fv[a]);
            assert(out@[j].fingerprint.0@ == engine_fingerprint(*program, self.registry@, fv[a]));
        }
        proof { lemma_reports_intro(*program, self.registry@, fv, out@); }
        out
    }
}


/// Whether `cfg` is what `CfgBuilder::build` gives for `insts` when its
/// blocks are numbered from `next`.
pub open spec fn built_cfg(p: Program, insts: Seq<InstructionId>, next: nat, cfg: ControlFlowGraph) -> bool {
    let ls = leaders(p, insts);
    &&& cfg.entry == entry_block()
    &&& cfg.exit == exit_block()
    &&& cfg.edges@ == cfg_edges(p, insts, next)
    &&& cfg.blocks@.len() == 2 + ls.len()
    &&& cfg.blocks@[0].id == entry_block()
    &&& cfg.blocks@[0].instructions@ == Seq::<InstructionId>::empty()
    &&& cfg.blocks@[1].id == exit_block()
    &&& cfg.blocks@[1].instructions@ == Seq::<InstructionId>::empty()
    &&& forall|j: int| 0 <= j < ls.len() ==> {
        &&& (#[trigger] cfg.blocks@[2 + j]).id == BlockId((next + j) as u32)
        &&& cfg.blocks@[2 + j].instructions@ == insts.subrange(ls[j] as int, block_end(ls, j, insts.len()))
    }
}

/// The first block number of the graph of method `k`: blocks are numbered
/// from 1 across the methods in order.
pub open spec fn cfg_start(p: Program, k: int) -> nat
    decreases k,
{
    if k <= 0 { 1 } else { cfg_start(p, k - 1) + leaders(p, p.methods@[k - 1].body@).len() }
}

/// Whether `cfgs` are the control-flow graphs of the methods of `p`, in
/// identifier order, blocks numbered across methods, up to the first
/// method whose blocks could run past the largest block identifier.
pub open spec fn cfgs_built(p: Program, cfgs: Seq<(MethodId, ControlFlowGraph)>) -> bool {
    &&& cfgs.len() <= p.methods@.len()
    &&& forall|k: int| 0 <= k < cfgs.len() ==> (#[trigger] cfgs[k]).0 == p.methods@[k].id
        && built_cfg(p, p.methods@[k].body@, cfg_start(p, k), cfgs[k].1)
    &&& cfgs.len() < p.methods@.len() ==>
        p.methods@[cfgs.len() as int].body@.len() + cfg_start(p, cfgs.len() as int) > 0xffff_ffff
}

/// Whether `edges` is the interprocedural graph the pipeline builds for
/// `p`: over the control-flow graphs of its methods and its call graph,
/// each call resolved by the language of its file under semantic
/// information with only an empty global scope.
pub open spec fn pipeline_graph(p: Program, edges: Seq<crate::icfg::IcfgEdge>) -> bool {
    exists|cfgs: Seq<(MethodId, ControlFlowGraph)>, cg: crate::callgraph::CallGraph, info: SemanticInfo|
        #![trigger crate::icfg::icfg_edges(p, cg, cfgs, p.methods@.len()), crate::callgraph::program_edges(p, info, CompositeResolver, p.methods@.len())]
    {
        &&& cfgs_built(p, cfgs)
        &&& info.scopes@.len() == 1
        &&& info.global_scope_id == 0
        &&& info.scopes@[0].symbols@.len() == 0
        &&& cg.edges@ == crate::callgraph::program_edges(p, info, CompositeResolver, p.methods@.len())
        &&& edges == crate::icfg::icfg_edges(p, cg, cfgs, p.methods@.len())
    }
}

/// The control-flow graph of each method of `program`, in identifier
/// order, numbering blocks across methods; it stops before a method whose
/// blocks could run past the largest block identifier.
fn build_cfgs(program: &Program) -> (cfgs: Vec<(MethodId, ControlFlowGraph)>)
    requires
        program.wf(),
        program.bodies_known(),
    ensures
        cfgs_built(*program, cfgs@),
{
    let mut cfgs: Vec<(MethodId, ControlFlowGraph)> = Vec::new();
    let mut builder = CfgBuilder::new(program);
    let mut k: usize = 0;
    while k < program.methods.len()
        invariant
            k <= program.methods@.len(),
            program.wf(),
            program.bodies_known(),
            builder.prog() == *program,
            builder.next_id() == cfg_start(*program, k as int),
            cfgs@.len() == k,
            forall|j: int| 0 <= j < k ==> (#[trigger] cfgs@[j]).0 == program.methods@[j].id
                && built_cfg(*program, program.methods@[j].body@, cfg_start(*program, j), cfgs@[j].1),
        decreases program.methods.len() - k,
    {
        let method = &program.methods[k];
        if method.body.len() as u64 > 0xffff_ffff - (builder.next_block() as u64) {
            return cfgs;
        }
        proof {
            lemma_leaders(*program, method.body@, method.body@.len());
            assert forall|i: int| 0 <= i < method.body@.len() implies kind_of(*program, #[trigger] method.body@[i]) is Some by {
                assert(program.methods@[k as int].body@[i] == method.body@[i]);
            }
        }
        let ghost start = builder.next_id();
        let cfg = builder.build(method.body.as_slice());
        assert(built_cfg(*program, method.body@, start as nat, cfg));
        cfgs.push((method.id, cfg));
        assert(cfgs@[k as int].1 == cfg);
        k = k + 1;
    }
    cfgs
}

impl AnalysisPipeline {
    /// Runs the analyses over a whole program and reports what they find:
    /// the control-flow graphs, the call graph with each call resolved by
    /// the language of its file, the interprocedural graph, the alias
    /// analysis, the taint analysis from the entry of every method, and the
    /// report made from the taint findings.
    pub fn analyze(&self, program: &Program) -> (r: Vec<crate::reporting::Finding>)
        requires
            program.wf(),
            program.bodies_known(),
        ensures
            exists|entries: Seq<(crate::icfg::IcfgNode, Vec<crate::solver::DataFlowFact<crate::accesspath::AccessPath>>)>,
                edges: Seq<crate::solver::PathEdge<crate::icfg::IcfgNode, crate::accesspath::AccessPath>>,
                q: crate::taint::TaintProblem|
                #![trigger crate::taint::groups_edges(entries, edges), crate::solver::tabulated(q, edges)] {
                let fs = crate::taint::methods_findings(*program, self.registry@, entries, program.methods@);
                &&& q.program_view() == *program
                &&& q.rules_view() == self.registry@
                &&& q.entries_view() == program.methods@.map_values(|m: crate::ir::Method| m.id)
                &&& pipeline_graph(*program, q.graph_view().edges@)
                &&& crate::alias::alias_outcome(*program, q.graph_view().edges@, q.alias_view())
                &&& crate::solver::tabulated(q, edges)
                &&& crate::taint::groups_edges(entries, edges)
                &&& fs.len() < u32::MAX ==> reports(*program, self.registry@, fs, r@)
                &&& fs.len() >= u32::MAX ==> r@.len() == 0
            },
    {
        let cfgs = build_cfgs(program);
        let sem_info = SemanticInfo::new();
        let cg = CallGraphBuilder::new(program, &sem_info).build(&CompositeResolver);
        let icfg = IcfgBuilder::new(program, &cg, &cfgs).build();
        let alias_result = AliasEngine::new(program, &icfg).run();
        let mut entry_methods: Vec<MethodId> = Vec::new();
        let mut k: usize = 0;
        while k < program.methods.len()
            invariant
                k <= program.methods@.len(),
                entry_methods@ == program.methods@.take(k as int).map_values(|m: crate::ir::Method| m.id),
            decreases program.methods.len() - k,
        {
            entry_methods.push(program.methods[k].id);
            assert(program.methods@.take(k + 1int).map_values(|m: crate::ir::Method| m.id)
                =~= program.methods@.take(k as int).map_values(|m: crate::ir::Method| m.id).push(program.methods@[k as int].id));
            k = k + 1;
        }
        assert(program.methods@.take(program.methods@.len() as int) =~= program.methods@);
        let analysis = TaintAnalysis::new(program, &icfg, &alias_result, &self.registry, entry_methods);
        let (results, solver_findings) = analysis.run_with_findings();
        if solver_findings.len() >= 0xffff_ffff {
            return Vec::new();
        }
        self.map_findings(program, &solver_findings)
    }
}


/// Builds a pipeline from a configuration, the default one unless another
/// is given.
pub struct PipelineBuilder {
    config: AnalysisConfiguration,
}

impl PipelineBuilder {
    /// The configuration the pipeline will get.
    pub closed spec fn configuration(&self) -> AnalysisConfiguration {
        self.config
    }

    /// A builder with the default configuration.
    pub fn new() -> (r: Self)
        ensures
            string_views(r.configuration().rule_packs@) == default_pack_names(),
            string_views(r.configuration().languages@) == seq!["python"@, "java"@],
            r.configuration().incremental_mode,
    {
        PipelineBuilder { config: AnalysisConfiguration::default() }
    }

    /// The builder with `config` in place of its configuration.
    pub fn with_configuration(self, config: AnalysisConfiguration) -> (r: Self)
        ensures
            r.configuration() == config,
    {
        PipelineBuilder { config }
    }

    /// The pipeline over the configuration.
    pub fn build(self) -> (r: AnalysisPipeline)
        ensures
            r.config == self.configuration(),
            r.registry@ == if self.configuration().rule_packs@.len() == 0 {
                RegistryView::empty().load_packs(all_packs_view())
            } else {
                RegistryView::empty().load_packs(select_packs(all_packs_view(), string_views(self.configuration().rule_packs@)))
            },
    {
        AnalysisPipeline::new(self.config)
    }
}

impl Default for PipelineBuilder {
    fn default() -> (r: Self)
        ensures
            string_views(r.configuration().rule_packs@) == default_pack_names(),
            r.configuration().incremental_mode,
    {
        Self::new()
    }
}

/// A phase that went well, with its time and memory estimate.
pub fn phase(name: &str, elapsed_ms: u64, memory_estimate_bytes: usize) -> (r: PhaseExecutionSummary)
    ensures
        r.name@ == name@,
        r.elapsed_ms == elapsed_ms,
        r.memory_estimate_bytes == memory_estimate_bytes,
        r.status@ == "Success"@,
{
    PhaseExecutionSummary {
        name: String::from_str(name),
        elapsed_ms,
        memory_estimate_bytes,
        status: String::from_str("Success"),
    }
}

/// Whether `p` is a successful phase named `name` that took `ms`
/// milliseconds with memory estimate `mem`.
pub open spec fn phase_is(p: PhaseExecutionSummary, name: Seq<char>, ms: u64, mem: int) -> bool {
    &&& p.name@ == name
    &&& p.elapsed_ms == ms
    &&& p.memory_estimate_bytes == mem
    &&& p.status@ == "Success"@
}

/// Whether every memory estimate of a run fits in a `usize`.
pub open spec fn estimates_fit(s: EngineStatistics) -> bool {
    &&& s.file_count * 4096 <= usize::MAX
    &&& s.method_count * 2048 <= usize::MAX
    &&& s.instruction_count * 128 <= usize::MAX
    &&& s.findings_count * 512 <= usize::MAX
}

/// The phases of a run with statistics `stats`: discovery alone when no
/// file was found, else discovery, parsing, control flow, interprocedural
/// flow, alias analysis and reporting, each with its time and its memory
/// estimate (bytes per file, method, instruction or finding).
pub fn run_phases(stats: &EngineStatistics, discovery_ms: u64, parsing_ms: u64, analysis_ms: u64) -> (r: Vec<
    PhaseExecutionSummary,
>)
    requires
        estimates_fit(*stats),
    ensures
        r@.len() == if stats.file_count == 0 { 1int } else { 6int },
        phase_is(r@[0], "Workspace Discovery"@, discovery_ms, stats.file_count * 256),
        stats.file_count > 0 ==> {
            &&& phase_is(r@[1], "Parsing & IR Lowering"@, parsing_ms, stats.instruction_count * 128)
            &&& phase_is(r@[2], "CFG Generation"@, analysis_ms, stats.method_count * 1024)
            &&& phase_is(r@[3], "ICFG Generation"@, analysis_ms, stats.method_count * 2048)
            &&& phase_is(r@[4], "Context & Alias Analysis"@, analysis_ms, stats.file_count * 4096)
            &&& phase_is(r@[5], "Finding Generation & Reporting"@, analysis_ms, stats.findings_count * 512)
        },
{
    let mut r: Vec<PhaseExecutionSummary> = Vec::new();
    r.push(phase("Workspace Discovery", discovery_ms, stats.file_count * 256));
    if stats.file_count == 0 {
        return r;
    }
    r.push(phase("Parsing & IR Lowering", parsing_ms, stats.instruction_count * 128));
    r.push(phase("CFG Generation", analysis_ms, stats.method_count * 1024));
    r.push(phase("ICFG Generation", analysis_ms, stats.method_count * 2048));
    r.push(phase("Context & Alias Analysis", analysis_ms, stats.file_count * 4096));
    r.push(phase("Finding Generation & Reporting", analysis_ms, stats.findings_count * 512));
    r
}

/// The engine that runs pipelines over repositories.
pub struct RepositoryAnalysisEngine {
    pub config: AnalysisConfiguration,
}

impl RepositoryAnalysisEngine {
    /// An engine with `config`.
    pub fn new(config: AnalysisConfiguration) -> (r: Self)
        ensures
            r.config == config,
    {
        RepositoryAnalysisEngine { config }
    }
}


/// Whether `a + b + 1` stays below the largest `u32`.
fn fits_u32(a: usize, b: usize) -> (r: bool)
    ensures
        r == (a + b + 1 < u32::MAX),
{
    a < 0xffff_ffff && b < 0xffff_ffff && (a as u64) + (b as u64) + 1 < 0xffff_ffff
}

/// Whether `source` can be merged into `target`: it is mergeable and the
/// identifiers stay in range.
pub open spec fn can_merge(target: Program, source: Program) -> bool {
    &&& mergeable(source)
    &&& target.modules@.len() + source.modules@.len() + 1 < u32::MAX
    &&& target.types@.len() + source.types@.len() + 1 < u32::MAX
    &&& target.methods@.len() + source.methods@.len() + 1 < u32::MAX
    &&& target.fields@.len() + source.fields@.len() + 1 < u32::MAX
    &&& target.instructions@.len() + source.instructions@.len() + 1 < u32::MAX
}

/// Whether `after` is `before` with `source` merged in: its methods and
/// instructions appended, each method with its name, parameters and body
/// (shifted past the instructions already there).
pub open spec fn merged_into(before: Program, after: Program, source: Program) -> bool {
    &&& after.methods@.len() == before.methods@.len() + source.methods@.len()
    &&& after.instructions@.len() == before.instructions@.len() + source.instructions@.len()
    &&& forall|k: int| 0 <= k < source.methods@.len() ==> {
        let n = #[trigger] after.methods@[before.methods@.len() + k];
        &&& n.name == source.methods@[k].name
        &&& n.parameters@ == source.methods@[k].parameters@
        &&& n.body@ == shifted_body(source.methods@[k].body@, before.instructions@.len() as int)
    }
    &&& forall|k: int| 0 <= k < source.instructions@.len() ==> {
        let n = #[trigger] after.instructions@[before.instructions@.len() + k];
        &&& n.kind == source.instructions@[k].kind
        &&& n.span == source.instructions@[k].span
    }
}

/// One file's step of building the shared program: its program, if it
/// lowered and can be merged, merged in; otherwise nothing changes.
pub open spec fn merge_step(before: Program, after: Program, lowered: Option<Program>) -> bool {
    match lowered {
        Some(p) => if can_merge(before, p) { merged_into(before, after, p) } else { after == before },
        None => after == before,
    }
}

/// Whether `p` has no module, type, method, field or instruction.
pub open spec fn empty_program(p: Program) -> bool {
    &&& p.modules@.len() == 0
    &&& p.types@.len() == 0
    &&& p.methods@.len() == 0
    &&& p.fields@.len() == 0
    &&& p.instructions@.len() == 0
}

/// Merges the program of one file into the shared program, as
/// `merge_program` does, when it can be merged: the file's program is
/// well formed, every part it links to exists, and the identifiers stay in
/// range. Says whether it merged; otherwise `target` is unchanged.
pub fn merge_file_program(target: &mut Program, source: Program) -> (merged: bool)
    requires
        old(target).wf(),
        old(target).bodies_known(),
    ensures
        final(target).wf(),
        final(target).bodies_known(),
        merged == can_merge(*old(target), source),
        !merged ==> *final(target) == *old(target),
        merged ==> merged_into(*old(target), *final(target), source),
{
    let fits = fits_u32(target.modules.len(), source.modules.len())
        && fits_u32(target.types.len(), source.types.len())
        && fits_u32(target.methods.len(), source.methods.len())
        && fits_u32(target.fields.len(), source.fields.len())
        && fits_u32(target.instructions.len(), source.instructions.len());
    if !fits || !source.wf_check() {
        return false;
    }
    if !is_mergeable(&source) {
        return false;
    }
    merge_program(target, source);
    true
}


/// The language of a source file.
#[derive(Debug, Clone, Copy, PartialEq, Eq, Structural)]
pub enum SourceLanguage {
    Python,
    Java,
}

/// What lowering one file may give: a one-module program named after the
/// file; for Python, nothing when the text does not parse, and otherwise,
/// under the semantic information resolved from its tree, the lowering of
/// that tree, or nothing when that lowering fails; for Java, a program
/// whenever the text is within bounds, holding the instructions, methods
/// and method bodies its logical lines give.
pub open spec fn lowers_to(language: SourceLanguage, path: Seq<char>, content: Seq<char>, r: Option<Program>) -> bool {
    &&& r matches Some(p) ==> crate::python::file_program(p, crate::frontend::module_name_of(path), path)
    &&& language == SourceLanguage::Python && crate::parser::python_tree(content) is Err ==> r is None
    &&& language == SourceLanguage::Java && content.len() < usize::MAX - 4
        && crate::java::lines_size(crate::java::logical_lines(content)) < 0xffff_0000 ==> r is Some
    &&& language == SourceLanguage::Java ==> (r matches Some(p) ==> crate::java::java_lowered(p, content))
    &&& language == SourceLanguage::Python && crate::parser::python_tree(content) is Ok ==>
        exists|sem: SemanticInfo| {
            &&& sem.wf()
            &&& crate::semantic::info_view(sem) == crate::semantic::semantics_of(crate::semantic::initial_info(), crate::parser::python_tree(content)->Ok_0, 0)
            &&& match r {
                Some(p) => crate::python::python_lowered(p, sem, crate::parser::python_tree(content)->Ok_0),
                None => !crate::python::walk_of(sem, crate::python::module_start(), crate::parser::python_tree(content)->Ok_0).ok,
            }
        }
}

/// The program of one file, from its language's frontend: Python text is
/// parsed and resolved before it is lowered; Java text is lowered with the
/// semantic information of a single module node holding it. `None` when
/// the text does not parse or does not lower.
pub fn lower_source(language: SourceLanguage, path: &str, content: &str) -> (r: Option<Program>)
    ensures
        lowers_to(language, path@, content@, r),
{
    match language {
        SourceLanguage::Python => {
            let cst = match crate::parser::parse_python(content) {
                Ok(c) => c,
                Err(_) => return None,
            };
            let sem = crate::semantic::resolve_semantics(&cst);
            let lowered = crate::python::PythonFrontend.lower(content, &sem, path);
            proof {
                let tree = crate::parser::python_tree(content@)->Ok_0;
                assert(tree == cst@);
                if lowered is Ok {
                    assert(crate::python::python_lowered(lowered->Ok_0, sem, tree));
                }
            }
            match lowered {
                Ok(p) => Some(p),
                Err(_) => None,
            }
        },
        SourceLanguage::Java => {
            let module = crate::parser::SimpleCstNode {
                kind: String::from_str("module"),
                span: Span { start_line: 1, start_col: 0, end_line: 1, end_col: 0 },
                raw: content.to_string(),
                children: Vec::new(),
            };
            let sem = crate::semantic::resolve_semantics(&module);
            match crate::java::JavaFrontend.lower(content, &sem, path) {
                Ok(p) => Some(p),
                Err(_) => None,
            }
        },
    }
}

/// Whether `steps` builds a shared program from `files`, file by file:
/// from an empty program, each file's lowering (one that `lowers_to`
/// allows) merged in when it can be.
pub open spec fn builds(files: Seq<(SourceLanguage, String, String)>, lowered: Seq<Option<Program>>, steps: Seq<Program>) -> bool {
    &&& lowered.len() == files.len()
    &&& steps.len() == files.len() + 1
    &&& empty_program(steps[0])
    &&& forall|k: int| 0 <= k < files.len() ==> {
        &&& lowers_to(files[k].0, files[k].1@, files[k].2@, #[trigger] lowered[k])
        &&& merge_step(steps[k], steps[k + 1], lowered[k])
    }
}

/// The shared program of a repository given as (language, path, text)
/// files: each file's program, lowered by its frontend, merged in file
/// order; a file that does not lower or cannot be merged is left out.
pub fn build_program(files: &Vec<(SourceLanguage, String, String)>) -> (r: Program)
    ensures
        r.wf(),
        r.bodies_known(),
        files@.len() == 0 ==> r.modules@.len() == 0 && r.methods@.len() == 0 && r.instructions@.len() == 0,
        exists|lowered: Seq<Option<Program>>, steps: Seq<Program>| #[trigger] builds(files@, lowered, steps) && steps.last() == r,
{
    let mut program = Program::new();
    let ghost mut lowered: Seq<Option<Program>> = Seq::empty();
    let ghost mut steps: Seq<Program> = seq![program];
    let mut i: usize = 0;
    while i < files.len()
        invariant
            i <= files@.len(),
            program.wf(),
            program.bodies_known(),
            files@.len() == 0 ==> program.modules@.len() == 0 && program.methods@.len() == 0 && program.instructions@.len() == 0,
            lowered.len() == i,
            steps.len() == i + 1,
            empty_program(steps[0]),
            steps.last() == program,
            forall|k: int| 0 <= k < i ==> {
                &&& lowers_to(files@[k].0, files@[k].1@, files@[k].2@, #[trigger] lowered[k])
                &&& merge_step(steps[k], steps[k + 1], lowered[k])
            },
        decreases files.len() - i,
    {
        let (language, path, content) = (&files[i].0, &files[i].1, &files[i].2);
        let out = lower_source(*language, path.as_str(), content.as_str());
        let ghost before = program;
        let ghost lo = out;
        match out {
            Some(p) => {
                merge_file_program(&mut program, p);
            },
            None => {},
        }
        proof {
            lowered = lowered.push(lo);
            steps = steps.push(program);
            assert(merge_step(before, program, lo));
            assert forall|k: int| 0 <= k < i + 1 implies {
                &&& lowers_to(files@[k].0, files@[k].1@, files@[k].2@, #[trigger] lowered[k])
                &&& merge_step(steps[k], steps[k + 1], lowered[k])
            } by {
                if k == i {
                    assert(steps[k] == before);
                }
            }
        }
        i = i + 1;
    }
    assert(builds(files@, lowered, steps));
    program
}

} // verus!
