//! Builds registries from the embedded packs, in full or by pack name.
use vstd::prelude::*;
use crate::rules::{rule_views, RegistryView, Rule, RulePack, RulePackView, RuleRegistry, RuleView};
use crate::rulepacks::packs::{all_packs, all_packs_view, pack_views};
use crate::text::str_eq;

verus! {

broadcast use vstd::string::group_string_axioms;

/// The packs of `packs` whose name is one of `names`, in order.
pub open spec fn select_packs(packs: Seq<RulePackView>, names: Seq<Seq<char>>) -> Seq<RulePackView>
    decreases packs.len(),
{
    if packs.len() == 0 {
        Seq::empty()
    } else {
        let p = select_packs(packs.drop_last(), names);
        if names.contains(packs.last().name) { p.push(packs.last()) } else { p }
    }
}

/// Names that no pack bears are ignored: listing them besides `names`
/// selects the same packs, in the same order.
pub proof fn law_unknown_names_ignored(packs: Seq<RulePackView>, names: Seq<Seq<char>>, unknown: Seq<Seq<char>>)
    requires
        forall|i: int| 0 <= i < packs.len() ==> !unknown.contains((#[trigger] packs[i]).name),
    ensures
        select_packs(packs, names + unknown) == select_packs(packs, names),
    decreases packs.len(),
{
    if packs.len() > 0 {
        assert forall|i: int| 0 <= i < packs.drop_last().len() implies !unknown.contains((#[trigger] packs.drop_last()[i]).name) by {
            assert(packs.drop_last()[i] == packs[i]);
        }
        law_unknown_names_ignored(packs.drop_last(), names, unknown);
        let n = packs.last().name;
        assert(!unknown.contains(packs[packs.len() - 1].name));
        if names.contains(n) {
            let j = choose|j: int| 0 <= j < names.len() && names[j] == n;
            assert((names + unknown)[j] == n);
        }
        if (names + unknown).contains(n) {
            let j = choose|j: int| 0 <= j < (names + unknown).len() && (names + unknown)[j] == n;
            if j >= names.len() {
                assert(unknown[j - names.len()] == n);
            } else {
                assert(names[j] == n);
            }
        }
    }
}

/// The views of a slice of names.
pub open spec fn name_views(names: Seq<&str>) -> Seq<Seq<char>> {
    names.map_values(|s: &str| s@)
}

/// Whether a rule belongs in a registry for language `lang`: it is written
/// for that language, for any language, or names no language.
pub open spec fn for_language(r: RuleView, lang: Seq<char>) -> bool {
    match r.language {
        Some(l) => l == lang || l == "any"@,
        None => true,
    }
}

/// The rules of `rs` that belong to language `lang`, in order.
pub open spec fn language_rules(rs: Seq<RuleView>, lang: Seq<char>) -> Seq<RuleView>
    decreases rs.len(),
{
    if rs.len() == 0 {
        Seq::empty()
    } else {
        let p = language_rules(rs.drop_last(), lang);
        if for_language(rs.last(), lang) { p.push(rs.last()) } else { p }
    }
}

/// The packs of `packs`, each keeping only the rules of language `lang`.
pub open spec fn language_packs(packs: Seq<RulePackView>, lang: Seq<char>) -> Seq<RulePackView> {
    packs.map_values(|p: RulePackView| RulePackView { name: p.name, rules: language_rules(p.rules, lang) })
}

/// The rules of `pack` that belong to language `lang`.
fn language_pack(pack: &RulePack, lang: &str) -> (r: RulePack)
    ensures
        r@ == (RulePackView { name: pack@.name, rules: language_rules(pack@.rules, lang@) }),
{
    let ghost rs = pack@.rules;
    let mut rules: Vec<Rule> = Vec::new();
    let mut i: usize = 0;
    while i < pack.rules.len()
        invariant
            i <= pack.rules@.len(),
            rs == rule_views(pack.rules@),
            rule_views(rules@) == language_rules(rs.take(i as int), lang@),
        decreases pack.rules.len() - i,
    {
        let r = &pack.rules[i];
        assert(rs.take(i + 1int).drop_last() =~= rs.take(i as int));
        assert(rs[i as int] == r@);
        let keep = match &r.language {
            Some(l) => str_eq(l.as_str(), lang) || str_eq(l.as_str(), "any"),
            None => true,
        };
        if keep {
            rules.push(r.duplicate());
            assert(rule_views(rules@) =~= rule_views(rules@.drop_last()).push(r@));
        }
        i = i + 1;
    }
    assert(rs.take(rs.len() as int) =~= rs);
    RulePack { name: pack.name.clone(), rules }
}

/// Loads rule packs from embedded definitions.
pub struct RulePackLoader;

fn name_listed(names: &[&str], name: &str) -> (r: bool)
    ensures
        r == name_views(names@).contains(name@),
{
    let ghost nv = name_views(names@);
    let mut i: usize = 0;
    while i < names.len()
        invariant
            i <= names@.len(),
            nv == name_views(names@),
            forall|j: int| 0 <= j < i ==> nv[j] != name@,
        decreases names.len() - i,
    {
        if str_eq(names[i], name) {
            assert(nv[i as int] == name@);
            return true;
        }
        i = i + 1;
    }
    false
}

impl RulePackLoader {
    /// Build a `RuleRegistry` populated with all embedded packs.
    pub fn all_embedded() -> (r: RuleRegistry)
        ensures
            r@ == RegistryView::empty().load_packs(all_packs_view()),
    {
        crate::rulepacks::packs::full_registry()
    }

    /// Build a `RuleRegistry` from the embedded packs whose names are listed.
    /// Unknown names are ignored.
    pub fn embedded_by_names(names: &[&str]) -> (r: RuleRegistry)
        ensures
            r@ == RegistryView::empty().load_packs(select_packs(all_packs_view(), name_views(names@))),
    {
        let mut registry = RuleRegistry::new();
        let packs = all_packs();
        let ghost pv = pack_views(packs@);
        let ghost nv = name_views(names@);
        let mut i: usize = 0;
        while i < packs.len()
            invariant
                i <= packs@.len(),
                pv == pack_views(packs@),
                pv == all_packs_view(),
                nv == name_views(names@),
                registry@ == RegistryView::empty().load_packs(select_packs(pv.take(i as int), nv)),
            decreases packs.len() - i,
        {
            assert(pv.take(i + 1int).drop_last() =~= pv.take(i as int));
            assert(pv[i as int] == packs@[i as int]@);
            if name_listed(names, packs[i].name.as_str()) {
                let ghost before = select_packs(pv.take(i as int), nv);
                registry.load(&packs[i]);
                assert(select_packs(pv.take(i + 1int), nv).drop_last() == before);
            }
            i = i + 1;
        }
        assert(pv.take(pv.len() as int) =~= pv);
        registry
    }

    /// A registry from the embedded packs whose names are listed, keeping
    /// only the rules of language `lang`.
    fn embedded_for_language(names: &[&str], lang: &str) -> (r: RuleRegistry)
        ensures
            r@ == RegistryView::empty().load_packs(language_packs(select_packs(all_packs_view(), name_views(names@)), lang@)),
    {
        let mut registry = RuleRegistry::new();
        let packs = all_packs();
        let ghost pv = pack_views(packs@);
        let ghost nv = name_views(names@);
        let mut i: usize = 0;
        assert(language_packs(select_packs(pv.take(0), nv), lang@) =~= Seq::<RulePackView>::empty());
        while i < packs.len()
            invariant
                i <= packs@.len(),
                pv == pack_views(packs@),
                pv == all_packs_view(),
                nv == name_views(names@),
                registry@ == RegistryView::empty().load_packs(language_packs(select_packs(pv.take(i as int), nv), lang@)),
            decreases packs.len() - i,
        {
            assert(pv.take(i + 1int).drop_last() =~= pv.take(i as int));
            assert(pv[i as int] == packs@[i as int]@);
            if name_listed(names, packs[i].name.as_str()) {
                let ghost before = select_packs(pv.take(i as int), nv);
                let filtered = language_pack(&packs[i], lang);
                registry.load(&filtered);
                let ghost after = select_packs(pv.take(i + 1int), nv);
                assert(after == before.push(pv[i as int]));
                assert(language_packs(after, lang@) =~= language_packs(before, lang@).push(filtered@));
                assert(language_packs(after, lang@).drop_last() =~= language_packs(before, lang@));
            } else {
                assert(select_packs(pv.take(i + 1int), nv) == select_packs(pv.take(i as int), nv));
            }
            i = i + 1;
        }
        assert(pv.take(pv.len() as int) =~= pv);
        registry
    }

    /// Registry containing only Python rules (and rules for any language),
    /// from the packs that cover Python.
    pub fn python_only() -> (r: RuleRegistry)
        ensures
            r@ == RegistryView::empty().load_packs(language_packs(select_packs(all_packs_view(), seq![
                "python"@, "core"@, "web"@, "database"@, "filesystem"@, "deserialization"@, "cryptography"@,
                "ssrf"@, "command-injection"@, "xxe"@, "secrets"@, "authentication"@,
            ]), "python"@)),
    {
        let names: [&str; 12] = ["python", "core", "web", "database", "filesystem", "deserialization", "cryptography",
            "ssrf", "command-injection", "xxe", "secrets", "authentication"];
        let r = Self::embedded_for_language(names.as_slice(), "python");
        assert(name_views(names@) =~= seq![
            "python"@, "core"@, "web"@, "database"@, "filesystem"@, "deserialization"@, "cryptography"@,
            "ssrf"@, "command-injection"@, "xxe"@, "secrets"@, "authentication"@,
        ]);
        r
    }

    /// Registry containing only Java rules (and rules for any language),
    /// from the packs that cover Java.
    pub fn java_only() -> (r: RuleRegistry)
        ensures
            r@ == RegistryView::empty().load_packs(language_packs(select_packs(all_packs_view(), seq![
                "java"@, "core"@, "web"@, "database"@, "filesystem"@, "deserialization"@, "cryptography"@,
                "ssrf"@, "command-injection"@, "xxe"@, "secrets"@, "authentication"@,
            ]), "java"@)),
    {
        let names: [&str; 12] = ["java", "core", "web", "database", "filesystem", "deserialization", "cryptography",
            "ssrf", "command-injection", "xxe", "secrets", "authentication"];
        let r = Self::embedded_for_language(names.as_slice(), "java");
        assert(name_views(names@) =~= seq![
            "java"@, "core"@, "web"@, "database"@, "filesystem"@, "deserialization"@, "cryptography"@,
            "ssrf"@, "command-injection"@, "xxe"@, "secrets"@, "authentication"@,
        ]);
        r
    }
}

} // verus!
