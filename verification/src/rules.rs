//! Taint rules, rule packs and the registry that answers, for a callee name,
//! whether it is a source, a sink, a sanitizer or a propagator.
use vstd::prelude::*;
use crate::text::{after_last, after_last_char, has_char, str_eq};

verus! {

broadcast use vstd::string::group_string_axioms;

/// Severity level for a rule.
#[derive(Debug, Clone, Copy, PartialEq, Eq, Hash, Structural)]
pub enum Severity {
    Critical,
    High,
    Medium,
    Low,
    Info,
}

impl Default for Severity {
    fn default() -> (r: Self)
        ensures
            r == Severity::Medium,
    {
        Severity::Medium
    }
}

/// The role that a matched call plays.
#[derive(Debug, Clone, Copy, PartialEq, Eq, Hash, Structural)]
pub enum RuleKind {
    Source,
    Sink,
    Sanitizer,
    Propagator,
}

/// How a call site is matched against a rule.
#[derive(Debug, Clone, PartialEq, Eq, Hash)]
pub enum Matcher {
    /// A bare function name: `source()`, `eval()`.
    FunctionName(String),
    /// A qualified name: `os.system`, `subprocess.run`.
    QualifiedName(String),
    /// A class method: `Runtime.exec`.
    MethodName { class: String, method: String },
}

/// A matcher over character sequences.
pub enum MatcherView {
    FunctionName(Seq<char>),
    QualifiedName(Seq<char>),
    MethodName { class: Seq<char>, method: Seq<char> },
}

impl View for Matcher {
    type V = MatcherView;

    open spec fn view(&self) -> MatcherView {
        match self {
            Matcher::FunctionName(n) => MatcherView::FunctionName(n@),
            Matcher::QualifiedName(n) => MatcherView::QualifiedName(n@),
            Matcher::MethodName { class, method } => MatcherView::MethodName { class: class@, method: method@ },
        }
    }
}

impl MatcherView {
    /// The key under which a rule with this matcher is indexed.
    pub open spec fn key(self) -> Seq<char> {
        match self {
            MatcherView::FunctionName(n) => n,
            MatcherView::QualifiedName(n) => n,
            MatcherView::MethodName { method, .. } => method,
        }
    }

    /// Whether the matcher accepts `callee`: the exact name, or for a method
    /// either `Class.method` or the bare method name.
    pub open spec fn accepts(self, callee: Seq<char>) -> bool {
        match self {
            MatcherView::FunctionName(n) => callee == n,
            MatcherView::QualifiedName(n) => callee == n,
            MatcherView::MethodName { class, method } => callee == class + seq!['.'] + method || callee == method,
        }
    }
}

impl Matcher {
    /// Returns the primary lookup key used to index this matcher.
    pub fn lookup_key(&self) -> (r: &str)
        ensures
            r@ == self@.key(),
    {
        match self {
            Matcher::FunctionName(name) => name.as_str(),
            Matcher::QualifiedName(name) => name.as_str(),
            Matcher::MethodName { method, .. } => method.as_str(),
        }
    }

    /// Tests whether this matcher matches a given callee string.
    pub fn matches(&self, callee: &str) -> (r: bool)
        ensures
            r == self@.accepts(callee@),
    {
        match self {
            Matcher::FunctionName(name) => {
                let r = str_eq(callee, name.as_str());
                assert(self@ == MatcherView::FunctionName(name@));
                r
            },
            Matcher::QualifiedName(name) => {
                let r = str_eq(callee, name.as_str());
                assert(self@ == MatcherView::QualifiedName(name@));
                r
            },
            Matcher::MethodName { class, method } => {
                let mut full = class.clone();
                full.append(".");
                full.append(method.as_str());
                proof {
                    reveal_strlit(".");
                    assert("."@ =~= seq!['.']);
                }
                str_eq(callee, full.as_str()) || str_eq(callee, method.as_str())
            },
        }
    }

    /// A copy of this matcher.
    pub fn duplicate(&self) -> (r: Matcher)
        ensures
            r == *self,
    {
        match self {
            Matcher::FunctionName(n) => Matcher::FunctionName(n.clone()),
            Matcher::QualifiedName(n) => Matcher::QualifiedName(n.clone()),
            Matcher::MethodName { class, method } => Matcher::MethodName { class: class.clone(), method: method.clone() },
        }
    }
}

/// A copy of an optional string.
pub fn copy_opt_string(s: &Option<String>) -> (r: Option<String>)
    ensures
        r == *s,
{
    match s {
        Some(x) => Some(x.clone()),
        None => None,
    }
}

/// The view of an optional string.
pub open spec fn opt_view(s: Option<String>) -> Option<Seq<char>> {
    match s {
        Some(x) => Some(x@),
        None => None,
    }
}

/// A single taint rule (source, sink, sanitizer, or propagator).
#[derive(Debug, Clone)]
pub struct Rule {
    pub id: String,
    pub name: String,
    pub kind: RuleKind,
    pub language: Option<String>,
    pub cwe: Option<u32>,
    pub severity: Severity,
    pub category: Option<String>,
    pub description: Option<String>,
    pub matcher: Matcher,
}

/// A rule over character sequences.
pub struct RuleView {
    pub id: Seq<char>,
    pub name: Seq<char>,
    pub kind: RuleKind,
    pub language: Option<Seq<char>>,
    pub cwe: Option<u32>,
    pub severity: Severity,
    pub category: Option<Seq<char>>,
    pub description: Option<Seq<char>>,
    pub matcher: MatcherView,
}

impl View for Rule {
    type V = RuleView;

    open spec fn view(&self) -> RuleView {
        RuleView {
            id: self.id@,
            name: self.name@,
            kind: self.kind,
            language: opt_view(self.language),
            cwe: self.cwe,
            severity: self.severity,
            category: opt_view(self.category),
            description: opt_view(self.description),
            matcher: self.matcher@,
        }
    }
}

impl Rule {
    /// A copy of this rule.
    pub fn duplicate(&self) -> (r: Rule)
        ensures
            r == *self,
    {
        Rule {
            id: self.id.clone(),
            name: self.name.clone(),
            kind: self.kind,
            language: copy_opt_string(&self.language),
            cwe: self.cwe,
            severity: self.severity,
            category: copy_opt_string(&self.category),
            description: copy_opt_string(&self.description),
            matcher: self.matcher.duplicate(),
        }
    }
}

/// A named pack of rules covering all categories.
#[derive(Debug, Clone, Default)]
pub struct RulePack {
    pub name: String,
    pub rules: Vec<Rule>,
}

/// A rule pack over character sequences.
pub struct RulePackView {
    pub name: Seq<char>,
    pub rules: Seq<RuleView>,
}

/// The views of a sequence of rules.
pub open spec fn rule_views(rules: Seq<Rule>) -> Seq<RuleView> {
    rules.map_values(|r: Rule| r@)
}

impl View for RulePack {
    type V = RulePackView;

    open spec fn view(&self) -> RulePackView {
        RulePackView { name: self.name@, rules: rule_views(self.rules@) }
    }
}

impl RulePack {
    /// An empty pack with the given name.
    pub fn new(name: &str) -> (p: Self)
        ensures
            p.name@ == name@,
            p.rules@.len() == 0,
    {
        RulePack { name: String::from_str(name), rules: Vec::new() }
    }

    /// Appends a rule to the pack.
    pub fn add_rule(&mut self, rule: Rule)
        ensures
            final(self).name == old(self).name,
            final(self).rules@ == old(self).rules@.push(rule),
    {
        self.rules.push(rule);
    }
}

} // verus!

verus! {

/// Whether some rule of `l` has identifier `id`.
pub open spec fn has_id(l: Seq<RuleView>, id: Seq<char>) -> bool {
    exists|i: int| 0 <= i < l.len() && (#[trigger] l[i]).id == id
}

/// `l` with `r` appended, unless a rule with the same identifier is already there.
pub open spec fn insert_unique(l: Seq<RuleView>, r: RuleView) -> Seq<RuleView> {
    if has_id(l, r.id) { l } else { l.push(r) }
}

/// Whether some rule of `l` accepts `callee`.
pub open spec fn any_hit(l: Seq<RuleView>, callee: Seq<char>) -> bool {
    exists|i: int| 0 <= i < l.len() && (#[trigger] l[i]).matcher.accepts(callee)
}

/// The rules of `l` that accept `callee`, in order.
pub open spec fn matching(l: Seq<RuleView>, callee: Seq<char>) -> Seq<RuleView>
    decreases l.len(),
{
    if l.len() == 0 {
        Seq::empty()
    } else {
        let p = matching(l.drop_last(), callee);
        if l.last().matcher.accepts(callee) { p.push(l.last()) } else { p }
    }
}

/// The four rule lists of a registry, by kind.
pub struct RegistryView {
    pub sources: Seq<RuleView>,
    pub sinks: Seq<RuleView>,
    pub sanitizers: Seq<RuleView>,
    pub propagators: Seq<RuleView>,
}

impl RegistryView {
    pub open spec fn empty() -> RegistryView {
        RegistryView {
            sources: Seq::empty(),
            sinks: Seq::empty(),
            sanitizers: Seq::empty(),
            propagators: Seq::empty(),
        }
    }

    /// The list of rules of one kind.
    pub open spec fn list(self, kind: RuleKind) -> Seq<RuleView> {
        match kind {
            RuleKind::Source => self.sources,
            RuleKind::Sink => self.sinks,
            RuleKind::Sanitizer => self.sanitizers,
            RuleKind::Propagator => self.propagators,
        }
    }

    /// The registry with the list of one kind replaced.
    pub open spec fn with_list(self, kind: RuleKind, l: Seq<RuleView>) -> RegistryView {
        match kind {
            RuleKind::Source => RegistryView { sources: l, ..self },
            RuleKind::Sink => RegistryView { sinks: l, ..self },
            RuleKind::Sanitizer => RegistryView { sanitizers: l, ..self },
            RuleKind::Propagator => RegistryView { propagators: l, ..self },
        }
    }

    /// The registry after registering one rule.
    pub open spec fn insert(self, r: RuleView) -> RegistryView {
        self.with_list(r.kind, insert_unique(self.list(r.kind), r))
    }

    /// The registry after registering each rule of `rules`, in order.
    pub open spec fn load(self, rules: Seq<RuleView>) -> RegistryView
        decreases rules.len(),
    {
        if rules.len() == 0 {
            self
        } else {
            self.load(rules.drop_last()).insert(rules.last())
        }
    }

    /// The registry after loading each pack of `packs`, in order.
    pub open spec fn load_packs(self, packs: Seq<RulePackView>) -> RegistryView
        decreases packs.len(),
    {
        if packs.len() == 0 {
            self
        } else {
            self.load_packs(packs.drop_last()).load(packs.last().rules)
        }
    }
}

/// Efficient lookup registry: the rules of each kind, each identifier
/// registered once per kind, in the order they were loaded.
#[derive(Debug)]
pub struct RuleRegistry {
    sources: Vec<Rule>,
    sinks: Vec<Rule>,
    sanitizers: Vec<Rule>,
    propagators: Vec<Rule>,
}

impl View for RuleRegistry {
    type V = RegistryView;

    closed spec fn view(&self) -> RegistryView {
        RegistryView {
            sources: rule_views(self.sources@),
            sinks: rule_views(self.sinks@),
            sanitizers: rule_views(self.sanitizers@),
            propagators: rule_views(self.propagators@),
        }
    }
}

/// Registers `rule` in `list` unless a rule with the same identifier is there.
fn insert_rule(list: &mut Vec<Rule>, rule: &Rule)
    ensures
        rule_views(final(list)@) == insert_unique(rule_views(old(list)@), rule@),
{
    let ghost l = rule_views(list@);
    let mut i: usize = 0;
    let mut found = false;
    while i < list.len()
        invariant
            i <= list@.len(),
            l == rule_views(list@),
            found == (exists|j: int| 0 <= j < i && (#[trigger] l[j]).id == rule@.id),
        decreases list.len() - i,
    {
        if list[i].id == rule.id {
            found = true;
        }
        assert(l[i as int] == list@[i as int]@);
        i = i + 1;
    }
    if !found {
        list.push(rule.duplicate());
        assert(rule_views(list@) =~= l.push(rule@));
    }
}

/// Whether some rule in `list` accepts `callee`.
fn any_hit_in(list: &Vec<Rule>, callee: &str) -> (r: bool)
    ensures
        r == any_hit(rule_views(list@), callee@),
{
    let ghost l = rule_views(list@);
    let mut i: usize = 0;
    while i < list.len()
        invariant
            i <= list@.len(),
            l == rule_views(list@),
            forall|j: int| 0 <= j < i ==> !(#[trigger] l[j]).matcher.accepts(callee@),
        decreases list.len() - i,
    {
        assert(l[i as int] == list@[i as int]@);
        if list[i].matcher.matches(callee) {
            return true;
        }
        i = i + 1;
    }
    false
}

/// The rules of `list` that accept `callee`, in order.
fn matching_in(list: &Vec<Rule>, callee: &str) -> (out: Vec<Rule>)
    ensures
        rule_views(out@) == matching(rule_views(list@), callee@),
{
    let ghost l = rule_views(list@);
    let mut out: Vec<Rule> = Vec::new();
    let mut i: usize = 0;
    while i < list.len()
        invariant
            i <= list@.len(),
            l == rule_views(list@),
            rule_views(out@) == matching(l.take(i as int), callee@),
        decreases list.len() - i,
    {
        let r = &list[i];
        assert(l.take(i + 1int).drop_last() =~= l.take(i as int));
        assert(l[i as int] == list@[i as int]@);
        if r.matcher.matches(callee) {
            out.push(r.duplicate());
            assert(rule_views(out@) =~= rule_views(out@.drop_last()).push(r@));
        }
        i = i + 1;
    }
    assert(l.take(l.len() as int) =~= l);
    out
}

impl RuleRegistry {
    /// An empty registry.
    pub fn new() -> (r: Self)
        ensures
            r@ == RegistryView::empty(),
            registry_unique(r@),
            lists_by_kind(r@),
    {
        let r = RuleRegistry { sources: Vec::new(), sinks: Vec::new(), sanitizers: Vec::new(), propagators: Vec::new() };
        assert(r@.sources =~= Seq::<RuleView>::empty());
        assert(r@.sinks =~= Seq::<RuleView>::empty());
        assert(r@.sanitizers =~= Seq::<RuleView>::empty());
        assert(r@.propagators =~= Seq::<RuleView>::empty());
        assert(forall|kind: RuleKind| #[trigger] r@.list(kind).len() == 0);
        r
    }

    /// Loads all rules from a pack, deduplicating by identifier within each kind.
    pub fn load(&mut self, pack: &RulePack)
        ensures
            final(self)@ == old(self)@.load(pack@.rules),
            registry_unique(old(self)@) ==> registry_unique(final(self)@),
            lists_by_kind(old(self)@) ==> lists_by_kind(final(self)@),
    {
        proof {
            if registry_unique(self@) {
                law_load_keeps_unique(self@, pack@.rules);
            }
            if lists_by_kind(self@) {
                law_load_keeps_kinds(self@, pack@.rules);
            }
        }
        let ghost start = self@;
        let ghost rs = pack@.rules;
        let mut i: usize = 0;
        while i < pack.rules.len()
            invariant
                i <= pack.rules@.len(),
                rs == rule_views(pack.rules@),
                self@ == start.load(rs.take(i as int)),
            decreases pack.rules.len() - i,
        {
            let rule = &pack.rules[i];
            assert(rs.take(i + 1int).drop_last() =~= rs.take(i as int));
            assert(rs.take(i + 1int).last() == rule@);
            match rule.kind {
                RuleKind::Source => insert_rule(&mut self.sources, rule),
                RuleKind::Sink => insert_rule(&mut self.sinks, rule),
                RuleKind::Sanitizer => insert_rule(&mut self.sanitizers, rule),
                RuleKind::Propagator => insert_rule(&mut self.propagators, rule),
            }
            i = i + 1;
        }
        assert(rs.take(rs.len() as int) =~= rs);
    }

    /// Returns true if `callee` matches any registered source rule.
    pub fn is_source(&self, callee: &str) -> (r: bool)
        ensures
            r == any_hit(self@.sources, callee@),
    {
        any_hit_in(&self.sources, callee)
    }

    /// Returns true if `callee` matches any registered sink rule.
    pub fn is_sink(&self, callee: &str) -> (r: bool)
        ensures
            r == any_hit(self@.sinks, callee@),
    {
        any_hit_in(&self.sinks, callee)
    }

    /// Returns true if `callee` matches any registered sanitizer rule.
    pub fn is_sanitizer(&self, callee: &str) -> (r: bool)
        ensures
            r == any_hit(self@.sanitizers, callee@),
    {
        any_hit_in(&self.sanitizers, callee)
    }

    /// Returns true if `callee` matches any registered propagator rule.
    pub fn is_propagator(&self, callee: &str) -> (r: bool)
        ensures
            r == any_hit(self@.propagators, callee@),
    {
        any_hit_in(&self.propagators, callee)
    }

    /// Returns the matching source rules for `callee`.
    pub fn source_rules(&self, callee: &str) -> (out: Vec<Rule>)
        ensures
            rule_views(out@) == matching(self@.sources, callee@),
    {
        matching_in(&self.sources, callee)
    }

    /// Returns the matching sink rules for `callee`.
    pub fn sink_rules(&self, callee: &str) -> (out: Vec<Rule>)
        ensures
            rule_views(out@) == matching(self@.sinks, callee@),
    {
        matching_in(&self.sinks, callee)
    }

    /// Returns the matching sanitizer rules for `callee`.
    pub fn sanitizer_rules(&self, callee: &str) -> (out: Vec<Rule>)
        ensures
            rule_views(out@) == matching(self@.sanitizers, callee@),
    {
        matching_in(&self.sanitizers, callee)
    }
}

} // verus!

verus! {

/// No two rules of `l` share an identifier.
pub open spec fn unique_rules(l: Seq<RuleView>) -> bool {
    forall|i: int, j: int| 0 <= i < j < l.len() ==> (#[trigger] l[i]).id != (#[trigger] l[j]).id
}

/// Within each kind, no two registered rules share an identifier.
pub open spec fn registry_unique(v: RegistryView) -> bool {
    &&& unique_rules(v.sources)
    &&& unique_rules(v.sinks)
    &&& unique_rules(v.sanitizers)
    &&& unique_rules(v.propagators)
}

/// Registering a rule keeps every rule that was already registered.
proof fn lemma_insert_keeps(v: RegistryView, r: RuleView, kind: RuleKind, id: Seq<char>)
    requires
        has_id(v.list(kind), id),
    ensures
        has_id(v.insert(r).list(kind), id),
{
    let l = v.list(kind);
    let i = choose|i: int| 0 <= i < l.len() && (#[trigger] l[i]).id == id;
    let l2 = v.insert(r).list(kind);
    assert(l2[i] == l[i]);
}

/// After loading, every loaded rule's identifier is registered under its kind.
proof fn lemma_load_registers(v: RegistryView, rs: Seq<RuleView>, k: int)
    requires
        0 <= k < rs.len(),
    ensures
        has_id(v.load(rs).list(rs[k].kind), rs[k].id),
    decreases rs.len(),
{
    let w = v.load(rs.drop_last());
    if k == rs.len() - 1 {
        let r = rs.last();
        let l = w.list(r.kind);
        if !has_id(l, r.id) {
            let l2 = l.push(r);
            assert(l2[l.len() as int] == r);
        }
    } else {
        assert(rs.drop_last()[k] == rs[k]);
        lemma_load_registers(v, rs.drop_last(), k);
        lemma_insert_keeps(w, rs.last(), rs[k].kind, rs[k].id);
    }
}

/// Loading rules whose identifiers are all registered already changes nothing.
proof fn lemma_load_present(v: RegistryView, rs: Seq<RuleView>)
    requires
        forall|k: int| 0 <= k < rs.len() ==> has_id(v.list((#[trigger] rs[k]).kind), rs[k].id),
    ensures
        v.load(rs) == v,
    decreases rs.len(),
{
    if rs.len() > 0 {
        assert forall|k: int| 0 <= k < rs.drop_last().len() implies has_id(
            v.list((#[trigger] rs.drop_last()[k]).kind),
            rs.drop_last()[k].id,
        ) by {
            assert(rs.drop_last()[k] == rs[k]);
        }
        lemma_load_present(v, rs.drop_last());
        let r = rs.last();
        assert(rs[rs.len() - 1] == r);
        assert(v.with_list(r.kind, v.list(r.kind)) == v);
    }
}

/// Loading the same rules a second time leaves the registry as the first
/// load left it: duplicates are suppressed.
pub proof fn law_load_idempotent(v: RegistryView, rs: Seq<RuleView>)
    ensures
        v.load(rs).load(rs) == v.load(rs),
{
    assert forall|k: int| 0 <= k < rs.len() implies has_id(
        v.load(rs).list((#[trigger] rs[k]).kind),
        rs[k].id,
    ) by {
        lemma_load_registers(v, rs, k);
    }
    lemma_load_present(v.load(rs), rs);
}

/// Registering a rule keeps each kind free of duplicate identifiers.
proof fn lemma_insert_unique(v: RegistryView, r: RuleView)
    requires
        registry_unique(v),
    ensures
        registry_unique(v.insert(r)),
{
    let l = v.list(r.kind);
    if !has_id(l, r.id) {
        let l2 = l.push(r);
        assert forall|i: int, j: int| 0 <= i < j < l2.len() implies (#[trigger] l2[i]).id != (#[trigger] l2[j]).id by {
            if j == l.len() {
                assert(l2[i] == l[i]);
            } else {
                assert(l2[i] == l[i] && l2[j] == l[j]);
            }
        }
    }
}

/// Whether each list of the registry holds only rules of its own kind.
pub open spec fn lists_by_kind(v: RegistryView) -> bool {
    forall|kind: RuleKind, i: int| 0 <= i < v.list(kind).len() ==> (#[trigger] v.list(kind)[i]).kind == kind
}

/// Registering a rule files it under its own kind.
proof fn lemma_insert_by_kind(v: RegistryView, r: RuleView)
    requires
        lists_by_kind(v),
    ensures
        lists_by_kind(v.insert(r)),
{
    assert forall|kind: RuleKind, i: int| 0 <= i < v.insert(r).list(kind).len() implies (#[trigger] v.insert(r).list(kind)[i]).kind == kind by {
        if kind != r.kind {
            assert(v.insert(r).list(kind) == v.list(kind));
        } else if !has_id(v.list(kind), r.id) {
            assert(v.insert(r).list(kind) == v.list(kind).push(r));
            if i < v.list(kind).len() {
                assert(v.list(kind).push(r)[i] == v.list(kind)[i]);
            }
        }
    }
}

/// A registry built by loading files each rule under its own kind.
pub proof fn law_load_keeps_kinds(v: RegistryView, rs: Seq<RuleView>)
    requires
        lists_by_kind(v),
    ensures
        lists_by_kind(v.load(rs)),
    decreases rs.len(),
{
    if rs.len() > 0 {
        law_load_keeps_kinds(v, rs.drop_last());
        lemma_insert_by_kind(v.load(rs.drop_last()), rs.last());
    }
}

/// Whether no two sink rules of `rs` share an identifier.
pub open spec fn sink_ids_distinct(rs: Seq<RuleView>) -> bool {
    forall|i: int, j: int| 0 <= i < j < rs.len() && (#[trigger] rs[i]).kind == RuleKind::Sink && (#[trigger] rs[j]).kind == RuleKind::Sink
        ==> rs[i].id != rs[j].id
}

/// Whether some sink rule of `rs` accepts `callee`.
pub open spec fn some_sink_accepts(rs: Seq<RuleView>, callee: Seq<char>) -> bool {
    exists|k: int| 0 <= k < rs.len() && (#[trigger] rs[k]).kind == RuleKind::Sink && rs[k].matcher.accepts(callee)
}

/// Whether every rule of `l` is a sink rule that `rs` holds.
spec fn drawn_from_sinks(l: Seq<RuleView>, rs: Seq<RuleView>) -> bool {
    forall|j: int| 0 <= j < l.len() ==> (#[trigger] l[j]).kind == RuleKind::Sink && rs.contains(l[j])
}

proof fn lemma_drawn_from_prefix(l: Seq<RuleView>, rs: Seq<RuleView>)
    requires
        rs.len() > 0,
        drawn_from_sinks(l, rs.drop_last()),
    ensures
        drawn_from_sinks(l, rs),
{
    let front = rs.drop_last();
    assert forall|j: int| 0 <= j < l.len() implies (#[trigger] l[j]).kind == RuleKind::Sink && rs.contains(l[j]) by {
        assert(front.contains(l[j]));
        let k = choose|k: int| 0 <= k < front.len() && front[k] == l[j];
        assert(front[k] == rs[k]);
    }
}

proof fn lemma_loaded_sinks(rs: Seq<RuleView>, callee: Seq<char>)
    requires
        sink_ids_distinct(rs),
    ensures
        drawn_from_sinks(RegistryView::empty().load(rs).sinks, rs),
        any_hit(RegistryView::empty().load(rs).sinks, callee) <==> some_sink_accepts(rs, callee),
    decreases rs.len(),
{
    if rs.len() > 0 {
        let n = rs.len() - 1;
        let front = rs.drop_last();
        assert forall|i: int, j: int| 0 <= i < j < front.len() && (#[trigger] front[i]).kind == RuleKind::Sink && (#[trigger] front[j]).kind == RuleKind::Sink
            implies front[i].id != front[j].id by {
            assert(front[i] == rs[i] && front[j] == rs[j]);
        }
        lemma_loaded_sinks(front, callee);
        let w = RegistryView::empty().load(front);
        let r = rs.last();
        let v = RegistryView::empty().load(rs);
        assert(v == w.insert(r));
        lemma_drawn_from_prefix(w.sinks, rs);
        if r.kind == RuleKind::Sink {
            if has_id(w.sinks, r.id) {
                let j = choose|j: int| 0 <= j < w.sinks.len() && (#[trigger] w.sinks[j]).id == r.id;
                assert(front.contains(w.sinks[j]));
                let k = choose|k: int| 0 <= k < front.len() && front[k] == w.sinks[j];
                assert(front[k] == rs[k]);
                assert(rs[n] == r);
                assert(false);
            }
            assert(v.sinks == w.sinks.push(r));
            assert forall|j: int| 0 <= j < v.sinks.len() implies (#[trigger] v.sinks[j]).kind == RuleKind::Sink && rs.contains(v.sinks[j]) by {
                if j < w.sinks.len() {
                    assert(v.sinks[j] == w.sinks[j]);
                } else {
                    assert(v.sinks[j] == rs[n]);
                }
            }
            if any_hit(v.sinks, callee) {
                let i = choose|i: int| 0 <= i < v.sinks.len() && (#[trigger] v.sinks[i]).matcher.accepts(callee);
                if i < w.sinks.len() {
                    assert(v.sinks[i] == w.sinks[i]);
                    let k = choose|k: int| 0 <= k < front.len() && (#[trigger] front[k]).kind == RuleKind::Sink && front[k].matcher.accepts(callee);
                    assert(front[k] == rs[k]);
                } else {
                    assert(rs[n].matcher.accepts(callee));
                }
            }
            if some_sink_accepts(rs, callee) {
                let k = choose|k: int| 0 <= k < rs.len() && (#[trigger] rs[k]).kind == RuleKind::Sink && rs[k].matcher.accepts(callee);
                if k < n {
                    assert(front[k] == rs[k]);
                    assert(some_sink_accepts(front, callee));
                    let i = choose|i: int| 0 <= i < w.sinks.len() && (#[trigger] w.sinks[i]).matcher.accepts(callee);
                    assert(v.sinks[i] == w.sinks[i]);
                } else {
                    assert(v.sinks[w.sinks.len() as int] == r);
                }
            }
        } else {
            assert(v.sinks == w.sinks);
            if some_sink_accepts(rs, callee) {
                let k = choose|k: int| 0 <= k < rs.len() && (#[trigger] rs[k]).kind == RuleKind::Sink && rs[k].matcher.accepts(callee);
                assert(k < n);
                assert(front[k] == rs[k]);
            }
            if some_sink_accepts(front, callee) {
                let k = choose|k: int| 0 <= k < front.len() && (#[trigger] front[k]).kind == RuleKind::Sink && front[k].matcher.accepts(callee);
                assert(front[k] == rs[k]);
            }
        }
    } else {
        assert(RegistryView::empty().load(rs).sinks.len() == 0);
    }
}

/// A registry loaded with rules, starting empty, reports a callee as a sink
/// exactly when some loaded sink rule accepts it, where no two loaded sink
/// rules share an identifier (a later rule with a taken identifier is not
/// registered).
pub proof fn law_sinks_are_loaded_sinks(rs: Seq<RuleView>, callee: Seq<char>)
    requires
        sink_ids_distinct(rs),
    ensures
        any_hit(RegistryView::empty().load(rs).sinks, callee) <==> some_sink_accepts(rs, callee),
{
    lemma_loaded_sinks(rs, callee);
}

/// A registry built by loading holds each identifier at most once per kind.
pub proof fn law_load_keeps_unique(v: RegistryView, rs: Seq<RuleView>)
    requires
        registry_unique(v),
    ensures
        registry_unique(v.load(rs)),
    decreases rs.len(),
{
    if rs.len() > 0 {
        law_load_keeps_unique(v, rs.drop_last());
        lemma_insert_unique(v.load(rs.drop_last()), rs.last());
    }
}

} // verus!

verus! {

/// Confidence in a finding.
#[derive(Debug, Clone, Copy, PartialEq, Eq, Structural)]
pub enum Confidence {
    High,
    Medium,
    Low,
}

/// A taint finding: a tainted access path reached a sink.
#[derive(Debug, Clone)]
pub struct Finding {
    pub rule_id: String,
    pub rule_name: String,
    pub cwe: Option<u32>,
    pub severity: Severity,
    pub source_location: Option<String>,
    pub sink_location: Option<String>,
    pub access_path: String,
    pub call_trace: Vec<String>,
    pub confidence: Confidence,
}

/// A finding over character sequences.
pub struct FindingView {
    pub rule_id: Seq<char>,
    pub rule_name: Seq<char>,
    pub cwe: Option<u32>,
    pub severity: Severity,
    pub source_location: Option<Seq<char>>,
    pub sink_location: Option<Seq<char>>,
    pub access_path: Seq<char>,
    pub call_trace: Seq<Seq<char>>,
    pub confidence: Confidence,
}

impl View for Finding {
    type V = FindingView;

    open spec fn view(&self) -> FindingView {
        FindingView {
            rule_id: self.rule_id@,
            rule_name: self.rule_name@,
            cwe: self.cwe,
            severity: self.severity,
            source_location: opt_view(self.source_location),
            sink_location: opt_view(self.sink_location),
            access_path: self.access_path@,
            call_trace: self.call_trace@.map_values(|t: String| t@),
            confidence: self.confidence,
        }
    }
}

/// A built-in rule: no description, the given category.
pub open spec fn plain_rule_view(
    id: Seq<char>,
    name: Seq<char>,
    kind: RuleKind,
    lang: Seq<char>,
    cwe: Option<u32>,
    severity: Severity,
    category: Seq<char>,
    matcher: MatcherView,
) -> RuleView {
    RuleView {
        id,
        name,
        kind,
        language: Some(lang),
        cwe,
        severity,
        category: Some(category),
        description: None,
        matcher,
    }
}

fn plain_rule(
    id: &str,
    name: &str,
    kind: RuleKind,
    lang: &str,
    cwe: Option<u32>,
    severity: Severity,
    category: &str,
    matcher: Matcher,
) -> (r: Rule)
    ensures
        r@ == plain_rule_view(id@, name@, kind, lang@, cwe, severity, category@, matcher@),
{
    Rule {
        id: String::from_str(id),
        name: String::from_str(name),
        kind,
        language: Some(String::from_str(lang)),
        cwe,
        severity,
        category: Some(String::from_str(category)),
        description: None,
        matcher,
    }
}

fn named(s: &str) -> (m: Matcher)
    ensures
        m@ == MatcherView::FunctionName(s@),
{
    Matcher::FunctionName(String::from_str(s))
}

fn qualified(s: &str) -> (m: Matcher)
    ensures
        m@ == MatcherView::QualifiedName(s@),
{
    Matcher::QualifiedName(String::from_str(s))
}

fn class_method(class: &str, method: &str) -> (m: Matcher)
    ensures
        m@ == (MatcherView::MethodName { class: class@, method: method@ }),
{
    Matcher::MethodName { class: String::from_str(class), method: String::from_str(method) }
}

/// The rules of the built-in default pack: dotted names are qualified
/// matchers, bare names function matchers.
pub open spec fn default_rules() -> Seq<RuleView> {
    seq![
        plain_rule_view("py-src-001"@, "Python input()"@, RuleKind::Source, "python"@, None, Severity::Medium, "source"@, MatcherView::FunctionName("input"@)),
        plain_rule_view("py-src-002"@, "Python os.getenv"@, RuleKind::Source, "python"@, None, Severity::Medium, "source"@, MatcherView::QualifiedName("os.getenv"@)),
        plain_rule_view("py-src-003"@, "Python sys.argv"@, RuleKind::Source, "python"@, None, Severity::Medium, "source"@, MatcherView::QualifiedName("sys.argv"@)),
        plain_rule_view("py-sink-001"@, "Python eval()"@, RuleKind::Sink, "python"@, Some(95u32), Severity::High, "injection"@, MatcherView::FunctionName("eval"@)),
        plain_rule_view("py-sink-002"@, "Python exec()"@, RuleKind::Sink, "python"@, Some(95u32), Severity::High, "injection"@, MatcherView::FunctionName("exec"@)),
        plain_rule_view("py-sink-003"@, "Python os.system()"@, RuleKind::Sink, "python"@, Some(78u32), Severity::High, "injection"@, MatcherView::QualifiedName("os.system"@)),
        plain_rule_view("py-sink-004"@, "Python subprocess.run()"@, RuleKind::Sink, "python"@, Some(78u32), Severity::High, "injection"@, MatcherView::QualifiedName("subprocess.run"@)),
        plain_rule_view("py-san-001"@, "Python html.escape"@, RuleKind::Sanitizer, "python"@, None, Severity::Info, "sanitizer"@, MatcherView::QualifiedName("html.escape"@)),
        plain_rule_view("py-san-002"@, "Python shlex.quote"@, RuleKind::Sanitizer, "python"@, None, Severity::Info, "sanitizer"@, MatcherView::QualifiedName("shlex.quote"@)),
        plain_rule_view("java-src-001"@, "Java HttpServletRequest.getParameter"@, RuleKind::Source, "java"@, None, Severity::Medium, "source"@,
            MatcherView::MethodName { class: "HttpServletRequest"@, method: "getParameter"@ }),
        plain_rule_view("java-sink-001"@, "Java Runtime.exec"@, RuleKind::Sink, "java"@, Some(78u32), Severity::High, "injection"@,
            MatcherView::MethodName { class: "Runtime"@, method: "exec"@ }),
        plain_rule_view("java-sink-002"@, "Java ProcessBuilder.start"@, RuleKind::Sink, "java"@, Some(78u32), Severity::High, "injection"@,
            MatcherView::MethodName { class: "ProcessBuilder"@, method: "start"@ }),
        plain_rule_view("java-san-001"@, "Java StringEscapeUtils.escapeHtml4"@, RuleKind::Sanitizer, "java"@, None, Severity::Info, "sanitizer"@,
            MatcherView::MethodName { class: "StringEscapeUtils"@, method: "escapeHtml4"@ }),
    ]
}

/// Returns a small built-in rule pack.
pub fn default_rule_pack() -> (p: RulePack)
    ensures
        p@.name == "default"@,
        p@.rules == default_rules(),
{
    let rules = vec![
        plain_rule("py-src-001", "Python input()", RuleKind::Source, "python", None, Severity::Medium, "source", named("input")),
        plain_rule("py-src-002", "Python os.getenv", RuleKind::Source, "python", None, Severity::Medium, "source", qualified("os.getenv")),
        plain_rule("py-src-003", "Python sys.argv", RuleKind::Source, "python", None, Severity::Medium, "source", qualified("sys.argv")),
        plain_rule("py-sink-001", "Python eval()", RuleKind::Sink, "python", Some(95u32), Severity::High, "injection", named("eval")),
        plain_rule("py-sink-002", "Python exec()", RuleKind::Sink, "python", Some(95u32), Severity::High, "injection", named("exec")),
        plain_rule("py-sink-003", "Python os.system()", RuleKind::Sink, "python", Some(78u32), Severity::High, "injection", qualified("os.system")),
        plain_rule("py-sink-004", "Python subprocess.run()", RuleKind::Sink, "python", Some(78u32), Severity::High, "injection", qualified("subprocess.run")),
        plain_rule("py-san-001", "Python html.escape", RuleKind::Sanitizer, "python", None, Severity::Info, "sanitizer", qualified("html.escape")),
        plain_rule("py-san-002", "Python shlex.quote", RuleKind::Sanitizer, "python", None, Severity::Info, "sanitizer", qualified("shlex.quote")),
        plain_rule("java-src-001", "Java HttpServletRequest.getParameter", RuleKind::Source, "java", None, Severity::Medium, "source",
            class_method("HttpServletRequest", "getParameter")),
        plain_rule("java-sink-001", "Java Runtime.exec", RuleKind::Sink, "java", Some(78u32), Severity::High, "injection",
            class_method("Runtime", "exec")),
        plain_rule("java-sink-002", "Java ProcessBuilder.start", RuleKind::Sink, "java", Some(78u32), Severity::High, "injection",
            class_method("ProcessBuilder", "start")),
        plain_rule("java-san-001", "Java StringEscapeUtils.escapeHtml4", RuleKind::Sanitizer, "java", None, Severity::Info, "sanitizer",
            class_method("StringEscapeUtils", "escapeHtml4")),
    ];
    let p = RulePack { name: String::from_str("default"), rules };
    assert(p@.rules =~= default_rules());
    p
}

/// A registry pre-loaded with the default pack.
pub fn default_registry() -> (r: RuleRegistry)
    ensures
        r@ == RegistryView::empty().load(default_rules()),
{
    let mut registry = RuleRegistry::new();
    registry.load(&default_rule_pack());
    registry
}

} // verus!
