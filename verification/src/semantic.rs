//! Scopes, symbols and the class hierarchy gathered from a syntax tree.
use vstd::prelude::*;
use crate::common::Span;
use crate::text::{str_eq, trim};

verus! {

broadcast use vstd::string::group_string_axioms;

#[derive(Debug, Clone, Copy, PartialEq, Eq, Hash, Structural)]
pub enum ScopeKind {
    Global,
    Class,
    Function,
}

#[derive(Debug, Clone, Copy, PartialEq, Eq, Hash, Structural)]
pub enum SymbolKind {
    Variable,
    Class,
    Method,
    Parameter,
    Import,
}

/// A named entity declared in a scope.
#[derive(Debug, Clone)]
pub struct Symbol {
    pub name: String,
    pub kind: SymbolKind,
    pub span: Span,
}

/// A scope: its symbols by name, its parent and its children.
#[derive(Debug, Clone)]
pub struct Scope {
    pub id: usize,
    pub kind: ScopeKind,
    pub name: String,
    pub symbols: Vec<Symbol>,
    pub parent_id: Option<usize>,
    pub children_ids: Vec<usize>,
}

/// All scopes of a file, the global one first, and the superclass of each
/// class by name.
#[derive(Debug, Clone)]
pub struct SemanticInfo {
    pub scopes: Vec<Scope>,
    pub global_scope_id: usize,
    pub types_hierarchy: Vec<(String, Option<String>)>,
}

/// The last symbol of `syms` named `name`, if any.
pub open spec fn symbol_named(syms: Seq<Symbol>, name: Seq<char>) -> Option<Symbol>
    decreases syms.len(),
{
    if syms.len() == 0 {
        None
    } else if syms.last().name@ == name {
        Some(syms.last())
    } else {
        symbol_named(syms.drop_last(), name)
    }
}

/// `syms` with `sym` in place of the symbol of the same name, or added at
/// the end when there is none.
pub open spec fn with_symbol(syms: Seq<Symbol>, sym: Symbol) -> Seq<Symbol> {
    if exists|i: int| 0 <= i < syms.len() && syms[i].name@ == sym.name@ {
        let i = choose|i: int| 0 <= i < syms.len() && syms[i].name@ == sym.name@;
        syms.update(i, sym)
    } else {
        syms.push(sym)
    }
}

/// Whether no two symbols share a name.
pub open spec fn names_unique(syms: Seq<Symbol>) -> bool {
    forall|i: int, j: int| 0 <= i < syms.len() && 0 <= j < syms.len() && i != j ==> syms[i].name@ != syms[j].name@
}

/// The symbol `name` seen from scope `id`: found in that scope or, failing
/// that, in its ancestors, following at most `fuel` scopes.
pub open spec fn lookup_from(scopes: Seq<Scope>, name: Seq<char>, id: usize, fuel: nat) -> Option<Symbol>
    decreases fuel,
{
    if fuel == 0 || id >= scopes.len() {
        None
    } else {
        match symbol_named(scopes[id as int].symbols@, name) {
            Some(s) => Some(s),
            None => match scopes[id as int].parent_id {
                Some(p) => lookup_from(scopes, name, p, (fuel - 1) as nat),
                None => None,
            },
        }
    }
}

impl SemanticInfo {
    /// Scope `k` sits at index `k`, so the next scope gets the next index;
    /// the symbols of each scope have distinct names.
    pub open spec fn wf(&self) -> bool {
        &&& forall|k: int| 0 <= k < self.scopes@.len() ==> (#[trigger] self.scopes@[k]).id == k
        &&& forall|k: int| 0 <= k < self.scopes@.len() ==> names_unique((#[trigger] self.scopes@[k]).symbols@)
    }

    /// Whether the information is well formed, as `wf` says.
    pub fn wf_check(&self) -> (r: bool)
        ensures
            r == self.wf(),
    {
        let mut k: usize = 0;
        while k < self.scopes.len()
            invariant
                k <= self.scopes@.len(),
                forall|j: int| 0 <= j < k ==> (#[trigger] self.scopes@[j]).id == j,
                forall|j: int| 0 <= j < k ==> names_unique((#[trigger] self.scopes@[j]).symbols@),
            decreases self.scopes.len() - k,
        {
            if self.scopes[k].id != k {
                return false;
            }
            let syms = &self.scopes[k].symbols;
            let mut a: usize = 0;
            while a < syms.len()
                invariant
                    a <= syms@.len(),
                    k < self.scopes@.len(),
                    syms@ == self.scopes@[k as int].symbols@,
                    forall|i: int, j: int| 0 <= i < a && 0 <= j < syms@.len() && i != j ==> syms@[i].name@ != syms@[j].name@,
                decreases syms.len() - a,
            {
                let mut b: usize = 0;
                while b < syms.len()
                    invariant
                        a < syms@.len(),
                        b <= syms@.len(),
                        k < self.scopes@.len(),
                        syms@ == self.scopes@[k as int].symbols@,
                        forall|i: int, j: int| 0 <= i < a && 0 <= j < syms@.len() && i != j ==> syms@[i].name@ != syms@[j].name@,
                        forall|j: int| 0 <= j < b && j != a ==> syms@[a as int].name@ != syms@[j].name@,
                    decreases syms.len() - b,
                {
                    if a != b && crate::text::str_eq(syms[a].name.as_str(), syms[b].name.as_str()) {
                        assert(!names_unique(self.scopes@[k as int].symbols@));
                        return false;
                    }
                    b = b + 1;
                }
                assert forall|i: int, j: int| 0 <= i < a + 1 && 0 <= j < syms@.len() && i != j implies syms@[i].name@ != syms@[j].name@ by {}
                a = a + 1;
            }
            k = k + 1;
        }
        true
    }

    /// Only the global scope, with no symbol, and no class hierarchy.
    pub fn new() -> (r: Self)
        ensures
            r.wf(),
            r.scopes@.len() == 1,
            r.global_scope_id == 0,
            r.scopes@[0].kind == ScopeKind::Global,
            r.scopes@[0].name@ == "global"@,
            r.scopes@[0].symbols@.len() == 0,
            r.scopes@[0].parent_id is None,
            r.scopes@[0].children_ids@.len() == 0,
            r.types_hierarchy@.len() == 0,
    {
        let global = Scope {
            id: 0,
            kind: ScopeKind::Global,
            name: String::from_str("global"),
            symbols: Vec::new(),
            parent_id: None,
            children_ids: Vec::new(),
        };
        let r = SemanticInfo { scopes: vec![global], global_scope_id: 0, types_hierarchy: Vec::new() };
        assert(names_unique(r.scopes@[0].symbols@));
        r
    }

    /// Adds an empty child scope of `parent_id` and returns its identifier;
    /// the parent, when it exists, lists the child.
    pub fn alloc_scope(&mut self, kind: ScopeKind, name: String, parent_id: usize) -> (id: usize)
        requires
            old(self).wf(),
            old(self).scopes@.len() < usize::MAX,
        ensures
            final(self).wf(),
            id == old(self).scopes@.len(),
            final(self).scopes@.len() == old(self).scopes@.len() + 1,
            final(self).scopes@[id as int].kind == kind,
            final(self).scopes@[id as int].name == name,
            final(self).scopes@[id as int].symbols@.len() == 0,
            final(self).scopes@[id as int].parent_id == Some(parent_id),
            final(self).scopes@[id as int].children_ids@.len() == 0,
            forall|k: int| 0 <= k < old(self).scopes@.len() ==> {
                let s0 = old(self).scopes@[k];
                let s1 = #[trigger] final(self).scopes@[k];
                &&& s1.id == s0.id && s1.kind == s0.kind && s1.name == s0.name && s1.parent_id == s0.parent_id
                &&& s1.symbols@ == s0.symbols@
                &&& s1.children_ids@ == if k == parent_id { s0.children_ids@.push(id) } else { s0.children_ids@ }
            },
            final(self).global_scope_id == old(self).global_scope_id,
            final(self).types_hierarchy == old(self).types_hierarchy,
    {
        let id = self.scopes.len();
        let scope = Scope { id, kind, name, symbols: Vec::new(), parent_id: Some(parent_id), children_ids: Vec::new() };
        self.scopes.push(scope);
        if parent_id < id {
            let mut parent = self.scopes.remove(parent_id);
            parent.children_ids.push(id);
            self.scopes.insert(parent_id, parent);
        }
        proof {
            assert forall|k: int| 0 <= k < self.scopes@.len() implies names_unique((#[trigger] self.scopes@[k]).symbols@) by {
                if k < old(self).scopes@.len() {
                    assert(self.scopes@[k].symbols@ == old(self).scopes@[k].symbols@);
                }
            }
        }
        id
    }

    /// Declares `symbol` in scope `scope_id`, in place of a symbol of the
    /// same name; nothing happens when there is no such scope.
    pub fn insert_symbol(&mut self, scope_id: usize, symbol: Symbol)
        requires
            old(self).wf(),
        ensures
            final(self).wf(),
            final(self).scopes@.len() == old(self).scopes@.len(),
            forall|k: int| 0 <= k < old(self).scopes@.len() ==> {
                let s0 = old(self).scopes@[k];
                let s1 = #[trigger] final(self).scopes@[k];
                &&& s1.id == s0.id && s1.kind == s0.kind && s1.name == s0.name && s1.parent_id == s0.parent_id
                &&& s1.children_ids@ == s0.children_ids@
                &&& s1.symbols@ == if k == scope_id { with_symbol(s0.symbols@, symbol) } else { s0.symbols@ }
            },
            final(self).global_scope_id == old(self).global_scope_id,
            final(self).types_hierarchy == old(self).types_hierarchy,
    {
        if scope_id < self.scopes.len() {
            let mut scope = self.scopes.remove(scope_id);
            let ghost syms = scope.symbols@;
            assert(names_unique(syms));
            let mut i: usize = 0;
            while i < scope.symbols.len() && !str_eq(scope.symbols[i].name.as_str(), symbol.name.as_str())
                invariant
                    i <= scope.symbols@.len(),
                    scope.symbols@ == syms,
                    forall|j: int| 0 <= j < i ==> syms[j].name@ != symbol.name@,
                decreases scope.symbols.len() - i,
            {
                i = i + 1;
            }
            let found = i < scope.symbols.len();
            if found {
                proof {
                    let c = choose|j: int| 0 <= j < syms.len() && syms[j].name@ == symbol.name@;
                    assert(syms[i as int].name@ == symbol.name@);
                    assert(c == i as int);
                }
                scope.symbols.set(i, symbol);
                assert(scope.symbols@ == with_symbol(syms, symbol));
            } else {
                scope.symbols.push(symbol);
                assert(scope.symbols@ == with_symbol(syms, symbol));
            }
            assert(names_unique(scope.symbols@)) by {
                let t = scope.symbols@;
                assert forall|a: int, b: int| 0 <= a < t.len() && 0 <= b < t.len() && a != b implies t[a].name@ != t[b].name@ by {
                    if found {
                        if a != i && b != i {
                            assert(t[a] == syms[a] && t[b] == syms[b]);
                        } else if a == i {
                            assert(t[b] == syms[b]);
                        } else {
                            assert(t[a] == syms[a]);
                        }
                    } else {
                        if a < syms.len() && b < syms.len() {
                            assert(t[a] == syms[a] && t[b] == syms[b]);
                        }
                    }
                }
            }
            self.scopes.insert(scope_id, scope);
            proof {
                assert forall|k: int| 0 <= k < self.scopes@.len() implies (#[trigger] self.scopes@[k]).id == k by {
                    if k != scope_id {
                        assert(self.scopes@[k] == old(self).scopes@[k]);
                    }
                }
                assert forall|k: int| 0 <= k < self.scopes@.len() implies names_unique((#[trigger] self.scopes@[k]).symbols@) by {
                    if k != scope_id {
                        assert(self.scopes@[k] == old(self).scopes@[k]);
                    }
                }
            }
        }
    }

    /// The symbol `name` as seen from scope `scope_id`: declared there or in
    /// the nearest enclosing scope that declares it.
    #[verifier::loop_isolation(false)]
    pub fn lookup(&self, name: &str, scope_id: usize) -> (r: Option<&Symbol>)
        requires
            self.wf(),
        ensures
            r is None <==> lookup_from(self.scopes@, name@, scope_id, (self.scopes@.len() + 1) as nat) is None,
            r matches Some(s) ==> lookup_from(self.scopes@, name@, scope_id, (self.scopes@.len() + 1) as nat) == Some(*s),
    {
        let mut id = scope_id;
        let mut fuel: usize = self.scopes.len();
        let ghost total = (self.scopes@.len() + 1) as nat;
        loop
            invariant
                self.wf(),
                fuel <= self.scopes@.len(),
                lookup_from(self.scopes@, name@, id, (fuel + 1) as nat) == lookup_from(self.scopes@, name@, scope_id, total),
            decreases fuel,
        {
            if id >= self.scopes.len() {
                return None;
            }
            let scope = &self.scopes[id];
            match find_symbol(&scope.symbols, name) {
                Some(j) => {
                    return Some(&scope.symbols[j]);
                },
                None => {},
            }
            match scope.parent_id {
                Some(p) => {
                    if fuel == 0 {
                        assert(lookup_from(self.scopes@, name@, p, 0) is None);
                        return None;
                    }
                    id = p;
                    fuel = fuel - 1;
                },
                None => {
                    return None;
                },
            }
        }
    }
}

/// The position of the last symbol of `syms` named `name`, if any.
pub(crate) fn find_symbol(syms: &Vec<Symbol>, name: &str) -> (r: Option<usize>)
    ensures
        match r {
            Some(j) => j < syms@.len() && symbol_named(syms@, name@) == Some(syms@[j as int]),
            None => symbol_named(syms@, name@) is None,
        },
{
    let mut j: usize = syms.len();
    assert(syms@.take(j as int) =~= syms@);
    while j > 0
        invariant
            j <= syms@.len(),
            symbol_named(syms@, name@) == symbol_named(syms@.take(j as int), name@),
        decreases j,
    {
        assert(syms@.take(j as int).drop_last() =~= syms@.take(j - 1));
        if str_eq(syms[j - 1].name.as_str(), name) {
            return Some(j - 1);
        }
        j = j - 1;
    }
    None
}


/// The position of the first entry of `h` for `class`, if any.
pub open spec fn class_entry(h: Seq<(String, Option<String>)>, class: Seq<char>) -> Option<int> {
    if exists|i: int| 0 <= i < h.len() && (#[trigger] h[i]).0@ == class {
        Some(choose|i: int| 0 <= i < h.len() && (#[trigger] h[i]).0@ == class
            && forall|j: int| 0 <= j < i ==> (#[trigger] h[j]).0@ != class)
    } else {
        None
    }
}

impl SemanticInfo {
    /// Records that `class` extends `parent` (or nothing), in place of what
    /// was recorded for it before.
    pub fn set_superclass(&mut self, class: String, parent: Option<String>)
        ensures
            final(self).scopes == old(self).scopes,
            final(self).global_scope_id == old(self).global_scope_id,
            final(self).types_hierarchy@ == match class_entry(old(self).types_hierarchy@, class@) {
                Some(i) => old(self).types_hierarchy@.update(i, (class, parent)),
                None => old(self).types_hierarchy@.push((class, parent)),
            },
    {
        let ghost h = self.types_hierarchy@;
        let mut i: usize = 0;
        while i < self.types_hierarchy.len() && !str_eq(self.types_hierarchy[i].0.as_str(), class.as_str())
            invariant
                i <= h.len(),
                self.types_hierarchy@ == h,
                forall|j: int| 0 <= j < i ==> (#[trigger] h[j]).0@ != class@,
            decreases self.types_hierarchy.len() - i,
        {
            i = i + 1;
        }
        if i < self.types_hierarchy.len() {
            proof {
                assert(h[i as int].0@ == class@);
                let c = choose|k: int| 0 <= k < h.len() && (#[trigger] h[k]).0@ == class@
                    && forall|j: int| 0 <= j < k ==> (#[trigger] h[j]).0@ != class@;
                if c < i {
                    assert(h[c].0@ != class@);
                } else if c > i {
                    assert(h[i as int].0@ != class@);
                }
            }
            self.types_hierarchy.set(i, (class, parent));
        } else {
            self.types_hierarchy.push((class, parent));
        }
    }
}

} // verus!

verus! {

/// Whether a syntax node has kind `k`.
pub(crate) fn kind_eq(node: &crate::parser::SimpleCstNode, k: &str) -> (r: bool)
    ensures
        r == (node.kind@ == k@),
{
    str_eq(node.kind.as_str(), k)
}

/// The trimmed text of the first child of kind `Identifier`, if any.
pub(crate) fn find_child_identifier(node: &crate::parser::SimpleCstNode) -> (r: Option<String>)
    ensures
        match r {
            Some(t) => exists|i: int| 0 <= i < node.children@.len()
                && (#[trigger] node.children@[i]).kind@ == "Identifier"@
                && t@ == trim(node.children@[i].raw@)
                && forall|j: int| 0 <= j < i ==> (#[trigger] node.children@[j]).kind@ != "Identifier"@,
            None => forall|j: int| 0 <= j < node.children@.len() ==> (#[trigger] node.children@[j]).kind@ != "Identifier"@,
        },
{
    let mut i: usize = 0;
    while i < node.children.len()
        invariant
            i <= node.children@.len(),
            forall|j: int| 0 <= j < i ==> (#[trigger] node.children@[j]).kind@ != "Identifier"@,
        decreases node.children.len() - i,
    {
        if kind_eq(&node.children[i], "Identifier") {
            let t = crate::text::trimmed(node.children[i].raw.as_str());
            assert(node.children@[i as int].kind@ == "Identifier"@);
            return Some(t);
        }
        i = i + 1;
    }
    None
}

/// Whether a node lists arguments or parameters.
pub open spec fn is_arg_list(n: crate::parser::SimpleCstNode) -> bool {
    n.kind@ == "argument_list"@ || n.kind@ == "parameters"@
}

/// The trimmed text of the first argument of the first child that is an
/// argument list or a parameter list, if any.
pub(crate) fn find_parent_class(node: &crate::parser::SimpleCstNode) -> (r: Option<String>)
    ensures
        (forall|j: int| 0 <= j < node.children@.len() ==> !is_arg_list(#[trigger] node.children@[j])) ==> r is None,
        forall|i: int| 0 <= i < node.children@.len() && is_arg_list(#[trigger] node.children@[i])
            && (forall|j: int| 0 <= j < i ==> !is_arg_list(#[trigger] node.children@[j])) ==> {
            let c = node.children@[i];
            &&& c.children@.len() == 0 ==> r is None
            &&& c.children@.len() > 0 ==> r is Some && r->0@ == trim(c.children@[0].raw@)
        },
{
    let mut i: usize = 0;
    while i < node.children.len()
        invariant
            i <= node.children@.len(),
            forall|j: int| 0 <= j < i ==> !is_arg_list(#[trigger] node.children@[j]),
        decreases node.children.len() - i,
    {
        let c = &node.children[i];
        if kind_eq(c, "argument_list") || kind_eq(c, "parameters") {
            assert(is_arg_list(node.children@[i as int]));
            proof {
                assert forall|k: int| 0 <= k < node.children@.len() && is_arg_list(#[trigger] node.children@[k])
                    && (forall|j: int| 0 <= j < k ==> !is_arg_list(#[trigger] node.children@[j])) implies k == i by {
                    if k < i {
                    } else if k > i {
                        assert(!is_arg_list(node.children@[i as int]));
                    }
                }
            }
            if c.children.len() > 0 {
                return Some(crate::text::trimmed(c.children[0].raw.as_str()));
            }
            return None;
        }
        i = i + 1;
    }
    None
}

/// The scopes and symbols of a syntax tree: classes and functions open
/// scopes and are symbols of the scope around them; parameters, assigned
/// names and imports are symbols of the scope they appear in; each class
/// records its superclass.
pub fn resolve_semantics(root: &crate::parser::SimpleCstNode) -> (r: SemanticInfo)
    ensures
        r.wf(),
        r.scopes@.len() >= 1,
        r.global_scope_id == 0,
        info_view(r) == semantics_of(initial_info(), root@, 0),
{
    let mut info = SemanticInfo::new();
    proof {
        let x = info_view(info);
        assert(info.scopes@[0].id == 0);
        assert(symbol_views(info.scopes@[0].symbols@) =~= Seq::<SymbolView>::empty());
        assert(info.scopes@[0].children_ids@ =~= Seq::<usize>::empty());
        assert(x.scopes[0] == initial_info().scopes[0]);
        assert(x.scopes =~= initial_info().scopes);
        assert(x.hierarchy =~= initial_info().hierarchy);
    }
    let global_scope = info.global_scope_id;
    walk_semantics(root, &mut info, global_scope);
    info
}

/// Records what `node` declares in scope `current_scope_id`.
fn walk_semantics(node: &crate::parser::SimpleCstNode, info: &mut SemanticInfo, current_scope_id: usize)
    requires
        old(info).wf(),
        current_scope_id < old(info).scopes@.len(),
    ensures
        final(info).wf(),
        final(info).scopes@.len() >= old(info).scopes@.len(),
        final(info).global_scope_id == old(info).global_scope_id,
        info_view(*final(info)) == semantics_of(info_view(*old(info)), node@, current_scope_id as int),
    decreases node,
{
    let ghost iv0 = info_view(*info);
    let ghost cs = node@.children;
    proof {
        lemma_cst_views_all(node.children@);
    }
    if kind_eq(node, "ClassDefinition") {
        let name = match find_child_identifier(node) {
            Some(n) => n,
            None => String::from_str("UnknownClass"),
        };
        proof {
            reveal_strlit("UnknownClass");
            if exists|i: int| 0 <= i < node.children@.len() && (#[trigger] node.children@[i]).kind@ == "Identifier"@
                && name@ == trim(node.children@[i].raw@)
                && forall|j: int| 0 <= j < i ==> (#[trigger] node.children@[j]).kind@ != "Identifier"@ {
                let i = choose|i: int| 0 <= i < node.children@.len() && (#[trigger] node.children@[i]).kind@ == "Identifier"@
                    && name@ == trim(node.children@[i].raw@)
                    && forall|j: int| 0 <= j < i ==> (#[trigger] node.children@[j]).kind@ != "Identifier"@;
                lemma_first_identifier(cs, i);
            } else {
                lemma_first_identifier(cs, cs.len() as int);
            }
        }
        let parent_class = find_parent_class(node);
        proof {
            if exists|k: int| 0 <= k < node.children@.len() && is_arg_list(#[trigger] node.children@[k]) {
                let w = choose|k: int| 0 <= k < node.children@.len() && is_arg_list(#[trigger] node.children@[k]);
                let f = lemma_first_arg_list(node.children@, w);
                lemma_first_argument(cs, f);
                lemma_cst_views_all(node.children@[f].children@);
            } else {
                lemma_first_argument(cs, cs.len() as int);
            }
        }
        let ghost name_v = name@;
        let ghost iv_sup = record_superclass(iv0, name_v, opt_text(parent_class));
        let ghost before_sup = *info;
        info.set_superclass(name.clone(), parent_class);
        proof {
            lemma_view_superclass(before_sup, *info, name, parent_class);
        }
        let ghost before_decl = *info;
        let sym = Symbol { name: name.clone(), kind: SymbolKind::Class, span: node.span };
        info.insert_symbol(current_scope_id, sym);
        proof {
            lemma_view_declare(before_decl, *info, current_scope_id, sym);
        }
        if info.scopes.len() >= usize::MAX - 1 {
            return;
        }
        let ghost before_open = *info;
        let new_scope_id = info.alloc_scope(ScopeKind::Class, name, current_scope_id);
        proof {
            lemma_view_open_scope(before_open, *info, ScopeKind::Class, name, current_scope_id, new_scope_id);
        }
        let ghost iv2 = info_view(*info);
        let mut i: usize = 0;
        while i < node.children.len()
            invariant
                i <= node.children@.len(),
                info.wf(),
                new_scope_id < info.scopes@.len(),
                info.scopes@.len() >= old(info).scopes@.len(),
                info.global_scope_id == old(info).global_scope_id,
                cs == crate::parser::cst_views(node.children@),
                cs.len() == node.children@.len(),
                forall|j: int| 0 <= j < node.children@.len() ==> #[trigger] cs[j] == crate::parser::cst_view(node.children@[j]),
                info_view(*info) == semantics_in(iv2, cs, 0, i as int, new_scope_id as int, false),
            decreases node.children.len() - i,
        {
            assert(decreases_to!(node => node.children@[i as int]));
            walk_semantics(&node.children[i], info, new_scope_id);
            assert(cs[i as int] == node.children@[i as int]@);
            i = i + 1;
        }
    } else if kind_eq(node, "FunctionDefinition") {
        let name = match find_child_identifier(node) {
            Some(n) => n,
            None => String::from_str("unknown_func"),
        };
        proof {
            reveal_strlit("unknown_func");
            if exists|i: int| 0 <= i < node.children@.len() && (#[trigger] node.children@[i]).kind@ == "Identifier"@
                && name@ == trim(node.children@[i].raw@)
                && forall|j: int| 0 <= j < i ==> (#[trigger] node.children@[j]).kind@ != "Identifier"@ {
                let i = choose|i: int| 0 <= i < node.children@.len() && (#[trigger] node.children@[i]).kind@ == "Identifier"@
                    && name@ == trim(node.children@[i].raw@)
                    && forall|j: int| 0 <= j < i ==> (#[trigger] node.children@[j]).kind@ != "Identifier"@;
                lemma_first_identifier(cs, i);
            } else {
                lemma_first_identifier(cs, cs.len() as int);
            }
        }
        let ghost before_decl = *info;
        let sym = Symbol { name: name.clone(), kind: SymbolKind::Method, span: node.span };
        info.insert_symbol(current_scope_id, sym);
        proof {
            lemma_view_declare(before_decl, *info, current_scope_id, sym);
        }
        if info.scopes.len() >= usize::MAX - 1 {
            return;
        }
        let ghost before_open = *info;
        let new_scope_id = info.alloc_scope(ScopeKind::Function, name, current_scope_id);
        proof {
            lemma_view_open_scope(before_open, *info, ScopeKind::Function, name, current_scope_id, new_scope_id);
        }
        let mut p: usize = 0;
        while p < node.children.len() && !kind_eq(&node.children[p], "parameters")
            invariant
                p <= node.children@.len(),
                forall|j: int| 0 <= j < p ==> (#[trigger] node.children@[j]).kind@ != "parameters"@,
            decreases node.children.len() - p,
        {
            p = p + 1;
        }
        proof {
            lemma_first_parameters(cs, p as int);
        }
        if p < node.children.len() {
            let params = &node.children[p];
            let ghost ps = params@.children;
            let ghost iv2 = info_view(*info);
            proof {
                lemma_cst_views_all(params.children@);
                assert(cs[p as int] == params@);
            }
            let mut k: usize = 0;
            while k < params.children.len()
                invariant
                    k <= params.children@.len(),
                    info.wf(),
                    new_scope_id < info.scopes@.len(),
                    info.scopes@.len() >= old(info).scopes@.len(),
                    info.global_scope_id == old(info).global_scope_id,
                    ps == crate::parser::cst_views(params.children@),
                    ps.len() == params.children@.len(),
                    forall|j: int| 0 <= j < params.children@.len() ==> #[trigger] ps[j] == crate::parser::cst_view(params.children@[j]),
                    info_view(*info) == declare_params(iv2, new_scope_id as int, ps, k as int),
                decreases params.children.len() - k,
            {
                let param = &params.children[k];
                let param_name = crate::text::trimmed(param.raw.as_str());
                assert(ps[k as int] == param@);
                if crate::text::chars_of(param_name.as_str()).len() > 0 && kind_eq(param, "Identifier") {
                    let ghost before_param = *info;
                    let psym = Symbol { name: param_name, kind: SymbolKind::Parameter, span: param.span };
                    info.insert_symbol(new_scope_id, psym);
                    proof {
                        lemma_view_declare(before_param, *info, new_scope_id, psym);
                    }
                }
                k = k + 1;
            }
        }
        let ghost iv3 = info_view(*info);
        let mut i: usize = 0;
        while i < node.children.len()
            invariant
                i <= node.children@.len(),
                info.wf(),
                new_scope_id < info.scopes@.len(),
                info.scopes@.len() >= old(info).scopes@.len(),
                info.global_scope_id == old(info).global_scope_id,
                cs == crate::parser::cst_views(node.children@),
                cs.len() == node.children@.len(),
                forall|j: int| 0 <= j < node.children@.len() ==> #[trigger] cs[j] == crate::parser::cst_view(node.children@[j]),
                info_view(*info) == semantics_in(iv3, cs, 0, i as int, new_scope_id as int, true),
            decreases node.children.len() - i,
        {
            assert(cs[i as int] == node.children@[i as int]@);
            if !kind_eq(&node.children[i], "parameters") {
                assert(decreases_to!(node => node.children@[i as int]));
                walk_semantics(&node.children[i], info, new_scope_id);
            }
            i = i + 1;
        }
    } else if kind_eq(node, "AssignmentExpression") {
        if node.children.len() > 0 {
            let ghost before_targets = *info;
            proof {
                lemma_info_symbols(before_targets, current_scope_id as int);
            }
            assert(decreases_to!(node => node.children@[0]));
            collect_assignment_targets(&node.children[0], info, current_scope_id);
            proof {
                lemma_view_symbols(before_targets, *info, current_scope_id as int);
                assert(cs[0] == node.children@[0]@);
            }
        }
        let ghost iv1 = info_view(*info);
        if node.children.len() >= 2 {
            let mut i: usize = 1;
            while i < node.children.len()
                invariant
                    1 <= i <= node.children@.len(),
                    info.wf(),
                    current_scope_id < info.scopes@.len(),
                    info.scopes@.len() >= old(info).scopes@.len(),
                    info.global_scope_id == old(info).global_scope_id,
                    cs == crate::parser::cst_views(node.children@),
                    cs.len() == node.children@.len(),
                    forall|j: int| 0 <= j < node.children@.len() ==> #[trigger] cs[j] == crate::parser::cst_view(node.children@[j]),
                    info_view(*info) == semantics_in(iv1, cs, 1, i as int, current_scope_id as int, false),
                decreases node.children.len() - i,
            {
                assert(decreases_to!(node => node.children@[i as int]));
                walk_semantics(&node.children[i], info, current_scope_id);
                assert(cs[i as int] == node.children@[i as int]@);
                i = i + 1;
            }
        }
    } else if kind_eq(node, "ImportStatement") {
        let ghost before_imports = *info;
        proof {
            lemma_info_symbols(before_imports, current_scope_id as int);
        }
        collect_imports(node, info, current_scope_id);
        proof {
            lemma_view_symbols(before_imports, *info, current_scope_id as int);
        }
    } else {
        let mut i: usize = 0;
        while i < node.children.len()
            invariant
                i <= node.children@.len(),
                info.wf(),
                current_scope_id < info.scopes@.len(),
                info.scopes@.len() >= old(info).scopes@.len(),
                info.global_scope_id == old(info).global_scope_id,
                cs == crate::parser::cst_views(node.children@),
                cs.len() == node.children@.len(),
                forall|j: int| 0 <= j < node.children@.len() ==> #[trigger] cs[j] == crate::parser::cst_view(node.children@[j]),
                info_view(*info) == semantics_in(iv0, cs, 0, i as int, current_scope_id as int, false),
            decreases node.children.len() - i,
        {
            assert(decreases_to!(node => node.children@[i as int]));
            walk_semantics(&node.children[i], info, current_scope_id);
            assert(cs[i as int] == node.children@[i as int]@);
            i = i + 1;
        }
    }
}

/// The first argument or parameter list of `s` at or before `w`.
proof fn lemma_first_arg_list(s: Seq<crate::parser::SimpleCstNode>, w: int) -> (f: int)
    requires
        0 <= w < s.len(),
        is_arg_list(s[w]),
    ensures
        0 <= f <= w,
        is_arg_list(s[f]),
        forall|j: int| 0 <= j < f ==> !is_arg_list(#[trigger] s[j]),
    decreases w,
{
    if exists|j: int| 0 <= j < w && is_arg_list(#[trigger] s[j]) {
        let j = choose|j: int| 0 <= j < w && is_arg_list(#[trigger] s[j]);
        lemma_first_arg_list(s, j)
    } else {
        w
    }
}

/// A symbol as plain values: its name, its kind and its span.
pub type SymbolView = (Seq<char>, SymbolKind, Span);

/// The plain values of a sequence of symbols.
pub open spec fn symbol_views(syms: Seq<Symbol>) -> Seq<SymbolView> {
    syms.map_values(|x: Symbol| (x.name@, x.kind, x.span))
}

/// `vs` with `v` in place of the symbol of the same name, or added at the
/// end when there is none.
pub open spec fn with_view(vs: Seq<SymbolView>, v: SymbolView) -> Seq<SymbolView> {
    if exists|i: int| 0 <= i < vs.len() && vs[i].0 == v.0 {
        let i = choose|i: int| 0 <= i < vs.len() && vs[i].0 == v.0;
        vs.update(i, v)
    } else {
        vs.push(v)
    }
}

/// Whether `vs` holds a symbol named `name`.
pub open spec fn view_has(vs: Seq<SymbolView>, name: Seq<char>) -> bool {
    exists|i: int| 0 <= i < vs.len() && vs[i].0 == name
}

/// Whether a node names what an import brings in.
pub open spec fn import_kind(k: Seq<char>) -> bool {
    k == "dotted_name"@ || k == "Identifier"@ || k == "aliased_import"@
}

/// The symbols after recording the imports among `n`'s children.
pub open spec fn imports_in(vs: Seq<SymbolView>, n: crate::parser::CstView) -> Seq<SymbolView>
    decreases n, 0int,
{
    imports_in_list(vs, n.children, n.children.len() as int)
}

/// The symbols after recording the imports among the first `k` of `cs`:
/// a name node is recorded, any other node is searched.
pub open spec fn imports_in_list(vs: Seq<SymbolView>, cs: Seq<crate::parser::CstView>, k: int) -> Seq<SymbolView>
    decreases cs, k,
{
    if k <= 0 || k > cs.len() {
        vs
    } else {
        let before = imports_in_list(vs, cs, k - 1);
        let c = cs[k - 1];
        if import_kind(c.kind) {
            with_view(before, (trim(c.raw), SymbolKind::Import, c.span))
        } else {
            imports_in(before, c)
        }
    }
}

/// The symbols after recording the names an assignment target binds: an
/// identifier is recorded unless its name is there already; any other node
/// is searched.
pub open spec fn targets_in(vs: Seq<SymbolView>, n: crate::parser::CstView) -> Seq<SymbolView>
    decreases n, 1int,
{
    if n.kind == "Identifier"@ {
        if view_has(vs, trim(n.raw)) { vs } else { vs.push((trim(n.raw), SymbolKind::Variable, n.span)) }
    } else {
        targets_in_list(vs, n.children, n.children.len() as int)
    }
}

/// The symbols after recording the targets among the first `k` of `cs`.
pub open spec fn targets_in_list(vs: Seq<SymbolView>, cs: Seq<crate::parser::CstView>, k: int) -> Seq<SymbolView>
    decreases cs, k,
{
    if k <= 0 || k > cs.len() {
        vs
    } else {
        targets_in(targets_in_list(vs, cs, k - 1), cs[k - 1])
    }
}

/// Whether `info` differs from `before` at most in the symbols of scope
/// `scope_id`.
pub open spec fn only_symbols_of(before: SemanticInfo, info: SemanticInfo, scope_id: int) -> bool {
    &&& info.scopes@.len() == before.scopes@.len()
    &&& info.global_scope_id == before.global_scope_id
    &&& info.types_hierarchy == before.types_hierarchy
    &&& forall|k: int| 0 <= k < before.scopes@.len() ==> {
        let s0 = before.scopes@[k];
        let s1 = #[trigger] info.scopes@[k];
        &&& s1.id == s0.id && s1.kind == s0.kind && s1.name == s0.name && s1.parent_id == s0.parent_id
        &&& s1.children_ids@ == s0.children_ids@
        &&& k != scope_id ==> s1.symbols@ == s0.symbols@
    }
}

proof fn lemma_only_symbols_trans(a: SemanticInfo, b: SemanticInfo, c: SemanticInfo, scope_id: int)
    requires
        only_symbols_of(a, b, scope_id),
        only_symbols_of(b, c, scope_id),
    ensures
        only_symbols_of(a, c, scope_id),
{
    assert forall|k: int| 0 <= k < a.scopes@.len() implies {
        let s0 = a.scopes@[k];
        let s1 = #[trigger] c.scopes@[k];
        &&& s1.id == s0.id && s1.kind == s0.kind && s1.name == s0.name && s1.parent_id == s0.parent_id
        &&& s1.children_ids@ == s0.children_ids@
        &&& k != scope_id ==> s1.symbols@ == s0.symbols@
    } by {
        assert(b.scopes@[k] == b.scopes@[k]);
    }
}

proof fn lemma_with_symbol_view(syms: Seq<Symbol>, sym: Symbol)
    requires
        names_unique(syms),
    ensures
        symbol_views(with_symbol(syms, sym)) == with_view(symbol_views(syms), (sym.name@, sym.kind, sym.span)),
{
    let vs = symbol_views(syms);
    let v = (sym.name@, sym.kind, sym.span);
    if exists|i: int| 0 <= i < syms.len() && syms[i].name@ == sym.name@ {
        let i = choose|i: int| 0 <= i < syms.len() && syms[i].name@ == sym.name@;
        assert(vs[i].0 == v.0);
        let j = choose|j: int| 0 <= j < vs.len() && vs[j].0 == v.0;
        assert(syms[j].name@ == sym.name@);
        assert(i == j);
        assert(symbol_views(syms.update(i, sym)) =~= vs.update(i, v));
    } else {
        if exists|j: int| 0 <= j < vs.len() && vs[j].0 == v.0 {
            let j = choose|j: int| 0 <= j < vs.len() && vs[j].0 == v.0;
            assert(syms[j].name@ == sym.name@);
        }
        assert(symbol_views(syms.push(sym)) =~= vs.push(v));
    }
}

proof fn lemma_symbol_named_none(syms: Seq<Symbol>, name: Seq<char>)
    ensures
        symbol_named(syms, name) is None <==> !view_has(symbol_views(syms), name),
    decreases syms.len(),
{
    let vs = symbol_views(syms);
    if syms.len() > 0 {
        lemma_symbol_named_none(syms.drop_last(), name);
        let vd = symbol_views(syms.drop_last());
        assert(vd =~= vs.drop_last());
        if view_has(vs, name) {
            let i = choose|i: int| 0 <= i < vs.len() && vs[i].0 == name;
            if i < vs.len() - 1 {
                assert(vd[i].0 == name);
            }
        }
        if view_has(vd, name) {
            let i = choose|i: int| 0 <= i < vd.len() && vd[i].0 == name;
            assert(vs[i].0 == name);
        }
        if syms.last().name@ == name {
            assert(vs[vs.len() - 1].0 == name);
        }
    }
}

/// The view of a sequence of trees holds, at each position, the view of
/// the tree there.
pub proof fn lemma_cst_views_index(s: Seq<crate::parser::SimpleCstNode>, i: int)
    requires
        0 <= i < s.len(),
    ensures
        crate::parser::cst_views(s).len() == s.len(),
        crate::parser::cst_views(s)[i] == crate::parser::cst_view(s[i]),
    decreases s.len(),
{
    lemma_cst_views_len(s);
    if i < s.len() - 1 {
        lemma_cst_views_index(s.drop_last(), i);
    }
}

/// The view of a sequence of trees is as long as the sequence.
pub proof fn lemma_cst_views_len(s: Seq<crate::parser::SimpleCstNode>)
    ensures
        crate::parser::cst_views(s).len() == s.len(),
    decreases s.len(),
{
    if s.len() > 0 {
        lemma_cst_views_len(s.drop_last());
    }
}

/// A scope as plain values.
pub struct ScopeView {
    pub id: usize,
    pub kind: ScopeKind,
    pub name: Seq<char>,
    pub symbols: Seq<SymbolView>,
    pub parent_id: Option<usize>,
    pub children_ids: Seq<usize>,
}

/// The scopes, global scope and class hierarchy as plain values.
pub struct InfoView {
    pub scopes: Seq<ScopeView>,
    pub global_scope_id: usize,
    pub hierarchy: Seq<(Seq<char>, Option<Seq<char>>)>,
}

/// A scope as plain values.
pub open spec fn scope_view(s: Scope) -> ScopeView {
    ScopeView {
        id: s.id,
        kind: s.kind,
        name: s.name@,
        symbols: symbol_views(s.symbols@),
        parent_id: s.parent_id,
        children_ids: s.children_ids@,
    }
}

/// An optional string by its characters.
pub open spec fn opt_text(o: Option<String>) -> Option<Seq<char>> {
    match o {
        Some(x) => Some(x@),
        None => None,
    }
}

/// The semantic information as plain values.
pub open spec fn info_view(i: SemanticInfo) -> InfoView {
    InfoView {
        scopes: i.scopes@.map_values(|s: Scope| scope_view(s)),
        global_scope_id: i.global_scope_id,
        hierarchy: i.types_hierarchy@.map_values(|e: (String, Option<String>)| (e.0@, opt_text(e.1))),
    }
}

/// `iv` with the symbols of scope `scope` replaced by `syms`.
pub open spec fn set_symbols(iv: InfoView, scope: int, syms: Seq<SymbolView>) -> InfoView {
    if 0 <= scope < iv.scopes.len() {
        let s = iv.scopes[scope];
        InfoView {
            scopes: iv.scopes.update(scope, ScopeView {
                id: s.id, kind: s.kind, name: s.name, symbols: syms, parent_id: s.parent_id, children_ids: s.children_ids,
            }),
            global_scope_id: iv.global_scope_id,
            hierarchy: iv.hierarchy,
        }
    } else {
        iv
    }
}

/// `iv` with `v` declared in scope `scope`.
pub open spec fn declare(iv: InfoView, scope: int, v: SymbolView) -> InfoView {
    if 0 <= scope < iv.scopes.len() {
        set_symbols(iv, scope, with_view(iv.scopes[scope].symbols, v))
    } else {
        iv
    }
}

/// `iv` with a new empty scope, child of `parent`.
pub open spec fn open_scope(iv: InfoView, kind: ScopeKind, name: Seq<char>, parent: usize) -> InfoView {
    let id = iv.scopes.len() as usize;
    let scopes = if parent < iv.scopes.len() {
        let s = iv.scopes[parent as int];
        iv.scopes.update(parent as int, ScopeView {
            id: s.id, kind: s.kind, name: s.name, symbols: s.symbols, parent_id: s.parent_id, children_ids: s.children_ids.push(id),
        })
    } else {
        iv.scopes
    };
    InfoView {
        scopes: scopes.push(ScopeView { id, kind, name, symbols: Seq::empty(), parent_id: Some(parent), children_ids: Seq::empty() }),
        global_scope_id: iv.global_scope_id,
        hierarchy: iv.hierarchy,
    }
}

/// The first position of `class` in a hierarchy, if any.
pub open spec fn first_entry(h: Seq<(Seq<char>, Option<Seq<char>>)>, class: Seq<char>) -> Option<int>
    decreases h.len(),
{
    if h.len() == 0 {
        None
    } else if h[0].0 == class {
        Some(0)
    } else {
        match first_entry(h.drop_first(), class) {
            Some(j) => Some(j + 1),
            None => None,
        }
    }
}

/// `iv` recording that `class` extends `parent`.
pub open spec fn record_superclass(iv: InfoView, class: Seq<char>, parent: Option<Seq<char>>) -> InfoView {
    InfoView {
        scopes: iv.scopes,
        global_scope_id: iv.global_scope_id,
        hierarchy: match first_entry(iv.hierarchy, class) {
            Some(i) => iv.hierarchy.update(i, (class, parent)),
            None => iv.hierarchy.push((class, parent)),
        },
    }
}

proof fn lemma_first_entry(h: Seq<(Seq<char>, Option<Seq<char>>)>, class: Seq<char>, i: int)
    requires
        0 <= i < h.len(),
        h[i].0 == class,
        forall|j: int| 0 <= j < i ==> h[j].0 != class,
    ensures
        first_entry(h, class) == Some(i),
    decreases h.len(),
{
    if i > 0 {
        lemma_first_entry(h.drop_first(), class, i - 1);
    }
}

proof fn lemma_no_entry(h: Seq<(Seq<char>, Option<Seq<char>>)>, class: Seq<char>)
    requires
        forall|j: int| 0 <= j < h.len() ==> h[j].0 != class,
    ensures
        first_entry(h, class) is None,
    decreases h.len(),
{
    if h.len() > 0 {
        lemma_no_entry(h.drop_first(), class);
    }
}

proof fn lemma_view_declare(a: SemanticInfo, b: SemanticInfo, scope_id: usize, symbol: Symbol)
    requires
        a.wf(),
        scope_id < a.scopes@.len(),
        b.scopes@.len() == a.scopes@.len(),
        forall|k: int| 0 <= k < a.scopes@.len() ==> {
            let s0 = a.scopes@[k];
            let s1 = #[trigger] b.scopes@[k];
            &&& s1.id == s0.id && s1.kind == s0.kind && s1.name == s0.name && s1.parent_id == s0.parent_id
            &&& s1.children_ids@ == s0.children_ids@
            &&& s1.symbols@ == if k == scope_id { with_symbol(s0.symbols@, symbol) } else { s0.symbols@ }
        },
        b.global_scope_id == a.global_scope_id,
        b.types_hierarchy == a.types_hierarchy,
    ensures
        info_view(b) == declare(info_view(a), scope_id as int, (symbol.name@, symbol.kind, symbol.span)),
{
    lemma_with_symbol_view(a.scopes@[scope_id as int].symbols@, symbol);
    let x = info_view(b).scopes;
    let y = declare(info_view(a), scope_id as int, (symbol.name@, symbol.kind, symbol.span)).scopes;
    assert forall|k: int| 0 <= k < x.len() implies x[k] == y[k] by {
        assert(b.scopes@[k].symbols@ == if k == scope_id { with_symbol(a.scopes@[k].symbols@, symbol) } else { a.scopes@[k].symbols@ });
    }
    assert(x =~= y);
}

proof fn lemma_view_symbols(a: SemanticInfo, b: SemanticInfo, scope_id: int)
    requires
        only_symbols_of(a, b, scope_id),
        0 <= scope_id < a.scopes@.len(),
    ensures
        info_view(b) == set_symbols(info_view(a), scope_id, symbol_views(b.scopes@[scope_id].symbols@)),
{
    let x = info_view(b).scopes;
    let y = set_symbols(info_view(a), scope_id, symbol_views(b.scopes@[scope_id].symbols@)).scopes;
    assert forall|k: int| 0 <= k < x.len() implies x[k] == y[k] by {
        assert(b.scopes@[k] == b.scopes@[k]);
    }
    assert(x =~= y);
}

proof fn lemma_view_open_scope(a: SemanticInfo, b: SemanticInfo, kind: ScopeKind, name: String, parent_id: usize, id: usize)
    requires
        id == a.scopes@.len(),
        b.scopes@.len() == a.scopes@.len() + 1,
        b.scopes@[id as int].id == id,
        b.scopes@[id as int].kind == kind,
        b.scopes@[id as int].name == name,
        b.scopes@[id as int].symbols@.len() == 0,
        b.scopes@[id as int].parent_id == Some(parent_id),
        b.scopes@[id as int].children_ids@.len() == 0,
        forall|k: int| 0 <= k < a.scopes@.len() ==> {
            let s0 = a.scopes@[k];
            let s1 = #[trigger] b.scopes@[k];
            &&& s1.id == s0.id && s1.kind == s0.kind && s1.name == s0.name && s1.parent_id == s0.parent_id
            &&& s1.symbols@ == s0.symbols@
            &&& s1.children_ids@ == if k == parent_id { s0.children_ids@.push(id) } else { s0.children_ids@ }
        },
        b.global_scope_id == a.global_scope_id,
        b.types_hierarchy == a.types_hierarchy,
    ensures
        info_view(b) == open_scope(info_view(a), kind, name@, parent_id),
{
    let x = info_view(b).scopes;
    let y = open_scope(info_view(a), kind, name@, parent_id).scopes;
    assert forall|k: int| 0 <= k < x.len() implies x[k] == y[k] by {
        if k < a.scopes@.len() {
            assert(b.scopes@[k].symbols@ == a.scopes@[k].symbols@);
        } else {
            assert(symbol_views(b.scopes@[k].symbols@) =~= Seq::<SymbolView>::empty());
            assert(b.scopes@[k].children_ids@ =~= Seq::<usize>::empty());
        }
    }
    assert(x =~= y);
}

proof fn lemma_view_superclass(a: SemanticInfo, b: SemanticInfo, class: String, parent: Option<String>)
    requires
        b.scopes == a.scopes,
        b.global_scope_id == a.global_scope_id,
        b.types_hierarchy@ == match class_entry(a.types_hierarchy@, class@) {
            Some(i) => a.types_hierarchy@.update(i, (class, parent)),
            None => a.types_hierarchy@.push((class, parent)),
        },
    ensures
        info_view(b) == record_superclass(info_view(a), class@, opt_text(parent)),
{
    let h = a.types_hierarchy@;
    let hv = info_view(a).hierarchy;
    if exists|i: int| 0 <= i < h.len() && (#[trigger] h[i]).0@ == class@ {
        let c = choose|i: int| 0 <= i < h.len() && (#[trigger] h[i]).0@ == class@
            && forall|j: int| 0 <= j < i ==> (#[trigger] h[j]).0@ != class@;
        assert(class_entry(h, class@) == Some(c));
        let w = choose|i: int| 0 <= i < h.len() && (#[trigger] h[i]).0@ == class@;
        lemma_first_of(h, class@, w);
        assert forall|j: int| 0 <= j < c implies hv[j].0 != class@ by {
            assert(h[j].0@ != class@);
        }
        lemma_first_entry(hv, class@, c);
        assert(info_view(b).hierarchy =~= hv.update(c, (class@, opt_text(parent))));
    } else {
        assert forall|j: int| 0 <= j < hv.len() implies hv[j].0 != class@ by {
            assert(h[j].0@ != class@);
        }
        lemma_no_entry(hv, class@);
        assert(info_view(b).hierarchy =~= hv.push((class@, opt_text(parent))));
    }
    assert(info_view(b).scopes =~= info_view(a).scopes);
}

proof fn lemma_first_of(h: Seq<(String, Option<String>)>, class: Seq<char>, w: int)
    requires
        0 <= w < h.len(),
        h[w].0@ == class,
    ensures
        exists|i: int| 0 <= i < h.len() && (#[trigger] h[i]).0@ == class
            && forall|j: int| 0 <= j < i ==> (#[trigger] h[j]).0@ != class,
    decreases w,
{
    if exists|j: int| 0 <= j < w && (#[trigger] h[j]).0@ == class {
        let j = choose|j: int| 0 <= j < w && (#[trigger] h[j]).0@ == class;
        lemma_first_of(h, class, j);
    }
}

/// The trimmed text of the first `Identifier` among `cs`, if any.
pub open spec fn first_identifier(cs: Seq<crate::parser::CstView>) -> Option<Seq<char>>
    decreases cs.len(),
{
    if cs.len() == 0 {
        None
    } else if cs[0].kind == "Identifier"@ {
        Some(trim(cs[0].raw))
    } else {
        first_identifier(cs.drop_first())
    }
}

/// The trimmed text of the first argument of the first argument or
/// parameter list among `cs`, if there is one and it has an argument.
pub open spec fn first_argument(cs: Seq<crate::parser::CstView>) -> Option<Seq<char>>
    decreases cs.len(),
{
    if cs.len() == 0 {
        None
    } else if cs[0].kind == "argument_list"@ || cs[0].kind == "parameters"@ {
        if cs[0].children.len() > 0 { Some(trim(cs[0].children[0].raw)) } else { None }
    } else {
        first_argument(cs.drop_first())
    }
}

/// The position of the first parameter list among `cs`, or its length.
pub open spec fn first_parameters(cs: Seq<crate::parser::CstView>) -> int
    decreases cs.len(),
{
    if cs.len() == 0 {
        0
    } else if cs[0].kind == "parameters"@ {
        0
    } else {
        first_parameters(cs.drop_first()) + 1
    }
}

/// `iv` with the named identifiers among the first `k` of `ps` declared as
/// parameters in scope `scope`.
pub open spec fn declare_params(iv: InfoView, scope: int, ps: Seq<crate::parser::CstView>, k: int) -> InfoView
    decreases k,
{
    if k <= 0 || k > ps.len() {
        iv
    } else {
        let prev = declare_params(iv, scope, ps, k - 1);
        let c = ps[k - 1];
        if trim(c.raw).len() > 0 && c.kind == "Identifier"@ {
            declare(prev, scope, (trim(c.raw), SymbolKind::Parameter, c.span))
        } else {
            prev
        }
    }
}

/// What a node declares in scope `scope`: a class is declared there,
/// records its superclass and opens a class scope for its children; a
/// function is declared there and opens a function scope holding its
/// parameters and its other children; an assignment records its targets
/// and walks the rest; an import records its names; any other node walks
/// its children. No scope is opened once the scope count reaches its
/// limit.
pub open spec fn semantics_of(iv: InfoView, n: crate::parser::CstView, scope: int) -> InfoView
    decreases n, 0int,
{
    if n.kind == "ClassDefinition"@ {
        let name = match first_identifier(n.children) { Some(t) => t, None => "UnknownClass"@ };
        let iv1 = declare(record_superclass(iv, name, first_argument(n.children)), scope, (name, SymbolKind::Class, n.span));
        if iv1.scopes.len() >= usize::MAX - 1 {
            iv1
        } else {
            let ns = iv1.scopes.len() as int;
            semantics_in(open_scope(iv1, ScopeKind::Class, name, scope as usize), n.children, 0, n.children.len() as int, ns, false)
        }
    } else if n.kind == "FunctionDefinition"@ {
        let name = match first_identifier(n.children) { Some(t) => t, None => "unknown_func"@ };
        let iv1 = declare(iv, scope, (name, SymbolKind::Method, n.span));
        if iv1.scopes.len() >= usize::MAX - 1 {
            iv1
        } else {
            let ns = iv1.scopes.len() as int;
            let iv2 = open_scope(iv1, ScopeKind::Function, name, scope as usize);
            let p = first_parameters(n.children);
            let iv3 = if p < n.children.len() {
                declare_params(iv2, ns, n.children[p].children, n.children[p].children.len() as int)
            } else {
                iv2
            };
            semantics_in(iv3, n.children, 0, n.children.len() as int, ns, true)
        }
    } else if n.kind == "AssignmentExpression"@ {
        let iv1 = if n.children.len() > 0 {
            set_symbols(iv, scope, targets_in(iv.scopes[scope].symbols, n.children[0]))
        } else {
            iv
        };
        semantics_in(iv1, n.children, 1, n.children.len() as int, scope, false)
    } else if n.kind == "ImportStatement"@ {
        set_symbols(iv, scope, imports_in(iv.scopes[scope].symbols, n))
    } else {
        semantics_in(iv, n.children, 0, n.children.len() as int, scope, false)
    }
}

/// What the children of `cs` from `lo` up to `k` declare in scope
/// `scope`, in order, parameter lists left out when `skip_params` holds.
pub open spec fn semantics_in(iv: InfoView, cs: Seq<crate::parser::CstView>, lo: int, k: int, scope: int, skip_params: bool) -> InfoView
    decreases cs, k,
{
    if k <= lo || k <= 0 || k > cs.len() {
        iv
    } else {
        let prev = semantics_in(iv, cs, lo, k - 1, scope, skip_params);
        let c = cs[k - 1];
        if skip_params && c.kind == "parameters"@ {
            prev
        } else {
            semantics_of(prev, c, scope)
        }
    }
}

/// The information before any node is walked: the global scope alone.
pub open spec fn initial_info() -> InfoView {
    InfoView {
        scopes: seq![ScopeView {
            id: 0,
            kind: ScopeKind::Global,
            name: "global"@,
            symbols: Seq::empty(),
            parent_id: None,
            children_ids: Seq::empty(),
        }],
        global_scope_id: 0,
        hierarchy: Seq::empty(),
    }
}

/// The view of a sequence of trees, position by position.
pub proof fn lemma_cst_views_all(s: Seq<crate::parser::SimpleCstNode>)
    ensures
        crate::parser::cst_views(s).len() == s.len(),
        forall|j: int| 0 <= j < s.len() ==> #[trigger] crate::parser::cst_views(s)[j] == crate::parser::cst_view(s[j]),
{
    lemma_cst_views_len(s);
    assert forall|j: int| 0 <= j < s.len() implies #[trigger] crate::parser::cst_views(s)[j] == crate::parser::cst_view(s[j]) by {
        lemma_cst_views_index(s, j);
    }
}

/// The first identifier among `cs` is the one at `i` when none comes before
/// it, and there is none when none of `cs` is one.
pub proof fn lemma_first_identifier(cs: Seq<crate::parser::CstView>, i: int)
    requires
        0 <= i <= cs.len(),
        forall|j: int| 0 <= j < i ==> cs[j].kind != "Identifier"@,
    ensures
        i < cs.len() && cs[i].kind == "Identifier"@ ==> first_identifier(cs) == Some(trim(cs[i].raw)),
        i == cs.len() ==> first_identifier(cs) is None,
    decreases i,
{
    if i > 0 {
        lemma_first_identifier(cs.drop_first(), i - 1);
    }
}

proof fn lemma_first_argument(cs: Seq<crate::parser::CstView>, i: int)
    requires
        0 <= i <= cs.len(),
        forall|j: int| 0 <= j < i ==> !(cs[j].kind == "argument_list"@ || cs[j].kind == "parameters"@),
    ensures
        i < cs.len() && (cs[i].kind == "argument_list"@ || cs[i].kind == "parameters"@) ==>
            first_argument(cs) == (if cs[i].children.len() > 0 { Some(trim(cs[i].children[0].raw)) } else { None }),
        i == cs.len() ==> first_argument(cs) is None,
    decreases i,
{
    if i > 0 {
        lemma_first_argument(cs.drop_first(), i - 1);
    }
}

proof fn lemma_first_parameters(cs: Seq<crate::parser::CstView>, i: int)
    requires
        0 <= i <= cs.len(),
        forall|j: int| 0 <= j < i ==> cs[j].kind != "parameters"@,
        i < cs.len() ==> cs[i].kind == "parameters"@,
    ensures
        first_parameters(cs) == i,
    decreases i,
{
    if i > 0 {
        lemma_first_parameters(cs.drop_first(), i - 1);
    }
}

proof fn lemma_info_symbols(i: SemanticInfo, scope: int)
    requires
        0 <= scope < i.scopes@.len(),
    ensures
        info_view(i).scopes[scope].symbols == symbol_views(i.scopes@[scope].symbols@),
        info_view(i).scopes.len() == i.scopes@.len(),
{
}

/// Records each name that an assignment target binds, unless the scope
/// already has it.
fn collect_assignment_targets(node: &crate::parser::SimpleCstNode, info: &mut SemanticInfo, scope_id: usize)
    requires
        old(info).wf(),
        scope_id < old(info).scopes@.len(),
    ensures
        final(info).wf(),
        final(info).scopes@.len() == old(info).scopes@.len(),
        final(info).global_scope_id == old(info).global_scope_id,
        only_symbols_of(*old(info), *final(info), scope_id as int),
        symbol_views(final(info).scopes@[scope_id as int].symbols@)
            == targets_in(symbol_views(old(info).scopes@[scope_id as int].symbols@), node@),
    decreases node,
{
    let ghost v0 = symbol_views(info.scopes@[scope_id as int].symbols@);
    if kind_eq(node, "Identifier") {
        let name = crate::text::trimmed(node.raw.as_str());
        proof {
            lemma_symbol_named_none(info.scopes@[scope_id as int].symbols@, name@);
        }
        if find_symbol(&info.scopes[scope_id].symbols, name.as_str()).is_none() {
            let sym = Symbol { name, kind: SymbolKind::Variable, span: node.span };
            let ghost prev = *info;
            proof {
                lemma_with_symbol_view(prev.scopes@[scope_id as int].symbols@, sym);
            }
            info.insert_symbol(scope_id, sym);
            assert(only_symbols_of(prev, *info, scope_id as int));
        }
    } else {
        let ghost cs = node@.children;
        proof {
            lemma_cst_views_len(node.children@);
        }
        let mut i: usize = 0;
        while i < node.children.len()
            invariant
                i <= node.children@.len(),
                info.wf(),
                scope_id < info.scopes@.len(),
                info.scopes@.len() == old(info).scopes@.len(),
                info.global_scope_id == old(info).global_scope_id,
                cs == crate::parser::cst_views(node.children@),
                cs.len() == node.children@.len(),
                v0 == symbol_views(old(info).scopes@[scope_id as int].symbols@),
                only_symbols_of(*old(info), *info, scope_id as int),
                symbol_views(info.scopes@[scope_id as int].symbols@) == targets_in_list(v0, cs, i as int),
            decreases node.children.len() - i,
        {
            let ghost prev = *info;
            proof {
                lemma_cst_views_index(node.children@, i as int);
            }
            assert(decreases_to!(node => node.children@[i as int]));
            collect_assignment_targets(&node.children[i], info, scope_id);
            proof {
                lemma_only_symbols_trans(*old(info), prev, *info, scope_id as int);
            }
            i = i + 1;
        }
    }
}

/// Records the names an import statement brings in: each name node among
/// its children, searching any other child in turn.
fn collect_imports(node: &crate::parser::SimpleCstNode, info: &mut SemanticInfo, scope_id: usize)
    requires
        old(info).wf(),
        scope_id < old(info).scopes@.len(),
    ensures
        final(info).wf(),
        final(info).scopes@.len() == old(info).scopes@.len(),
        final(info).global_scope_id == old(info).global_scope_id,
        only_symbols_of(*old(info), *final(info), scope_id as int),
        symbol_views(final(info).scopes@[scope_id as int].symbols@)
            == imports_in(symbol_views(old(info).scopes@[scope_id as int].symbols@), node@),
    decreases node,
{
    let ghost v0 = symbol_views(info.scopes@[scope_id as int].symbols@);
    let ghost cs = node@.children;
    proof {
        lemma_cst_views_len(node.children@);
        assert(cs == crate::parser::cst_views(node.children@));
    }
    let mut i: usize = 0;
    while i < node.children.len()
        invariant
            i <= node.children@.len(),
            info.wf(),
            scope_id < info.scopes@.len(),
            info.scopes@.len() == old(info).scopes@.len(),
            info.global_scope_id == old(info).global_scope_id,
            cs == crate::parser::cst_views(node.children@),
            cs.len() == node.children@.len(),
            v0 == symbol_views(old(info).scopes@[scope_id as int].symbols@),
            only_symbols_of(*old(info), *info, scope_id as int),
            symbol_views(info.scopes@[scope_id as int].symbols@) == imports_in_list(v0, cs, i as int),
        decreases node.children.len() - i,
    {
        let child = &node.children[i];
        let ghost prev = *info;
        proof {
            lemma_cst_views_index(node.children@, i as int);
            assert(cs[i as int] == child@);
        }
        if kind_eq(child, "dotted_name") || kind_eq(child, "Identifier") || kind_eq(child, "aliased_import") {
            let name = crate::text::trimmed(child.raw.as_str());
            let sym = Symbol { name, kind: SymbolKind::Import, span: child.span };
            proof {
                lemma_with_symbol_view(prev.scopes@[scope_id as int].symbols@, sym);
            }
            info.insert_symbol(scope_id, sym);
            proof {
                assert(only_symbols_of(prev, *info, scope_id as int));
                lemma_only_symbols_trans(*old(info), prev, *info, scope_id as int);
            }
        } else {
            assert(decreases_to!(node => node.children@[i as int]));
            collect_imports(child, info, scope_id);
            proof {
                lemma_only_symbols_trans(*old(info), prev, *info, scope_id as int);
            }
        }
        i = i + 1;
    }
}

} // verus!
