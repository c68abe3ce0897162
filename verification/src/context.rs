//! Calling contexts and object contexts, each cut to its `k` most recent
//! entries, with identifiers drawn from the standard hasher.
use vstd::prelude::*;
use std::collections::hash_map::DefaultHasher;
use std::hash::Hasher;
use vstd::std_specs::hash::DefaultHasherAdditionalSpecFns;
use vstd::std_specs::cmp::PartialEqSpec;

verus! {

/// The identifier of a context.
#[derive(Debug, Clone, Copy, PartialEq, Eq, Hash, PartialOrd, Ord, Structural)]
pub struct ContextId(pub u64);

/// The `n` low bytes of `x`, least significant first.
pub open spec fn le_bytes(x: nat, n: nat) -> Seq<u8>
    decreases n,
{
    if n == 0 {
        Seq::empty()
    } else {
        seq![(x % 256) as u8] + le_bytes(x / 256, (n - 1) as nat)
    }
}

/// The four little-endian bytes of each element, one element after the other.
pub open spec fn u32s_bytes(s: Seq<u32>) -> Seq<u8>
    decreases s.len(),
{
    if s.len() == 0 {
        Seq::empty()
    } else {
        u32s_bytes(s.drop_last()) + le_bytes(s.last() as nat, 4)
    }
}

/// What the standard hasher is fed for a sequence of call or allocation
/// sites: its length as a machine word, then the bytes of its elements.
pub open spec fn sites_writes(s: Seq<u32>) -> Seq<Seq<u8>> {
    seq![le_bytes(s.len(), 8), u32s_bytes(s)]
}

/// The sites kept after `site` is pushed on `sites` under the limit `k`:
/// the oldest site leaves when the stack grows past `k`.
pub open spec fn k_limited(sites: Seq<u32>, site: u32, k: nat) -> Seq<u32> {
    let s = sites.push(site);
    if s.len() > k {
        s.drop_first()
    } else {
        s
    }
}

/// The sites left after the most recent one is popped.
pub open spec fn popped_sites(sites: Seq<u32>) -> Seq<u32> {
    if sites.len() == 0 {
        sites
    } else {
        sites.drop_last()
    }
}

/// The most recent site, if any.
pub open spec fn top_site(sites: Seq<u32>) -> Option<u32> {
    if sites.len() == 0 {
        None
    } else {
        Some(sites.last())
    }
}

/// The identifier of a call context with the given call string.
pub open spec fn call_context_id(sites: Seq<u32>, max_k: usize) -> u64 {
    DefaultHasher::spec_finish(sites_writes(sites).push(le_bytes(max_k as nat, 8)))
}

/// The identifier of an empty object context with limit `max_k`.
pub open spec fn empty_object_context_id(max_k: usize) -> u64 {
    DefaultHasher::spec_finish(seq![le_bytes(max_k as nat, 8)])
}

/// The identifier of an object context with the given allocation sites.
pub open spec fn object_context_id(sites: Seq<u32>) -> u64 {
    DefaultHasher::spec_finish(sites_writes(sites))
}

/// The `n` low bytes of `x`, least significant first.
fn le_bytes_of(x: u64, n: usize) -> (r: Vec<u8>)
    requires
        n <= 8,
    ensures
        r@ == le_bytes(x as nat, n as nat),
{
    let mut r: Vec<u8> = Vec::new();
    let mut y: u64 = x;
    let mut i: usize = 0;
    while i < n
        invariant
            i <= n,
            r@ + le_bytes(y as nat, (n - i) as nat) == le_bytes(x as nat, n as nat),
        decreases n - i,
    {
        let ghost rest = le_bytes((y / 256) as nat, (n - i - 1) as nat);
        assert(le_bytes(y as nat, (n - i) as nat) == seq![(y % 256) as u8] + rest);
        r.push((y % 256) as u8);
        assert(r@ + rest =~= r@.drop_last() + (seq![(y % 256) as u8] + rest));
        y = y / 256;
        i = i + 1;
    }
    assert(le_bytes(y as nat, 0) =~= Seq::<u8>::empty());
    assert(r@ + Seq::<u8>::empty() =~= r@);
    r
}

/// The bytes that the standard hasher reads for a slice of `u32`.
fn u32s_bytes_of(s: &Vec<u32>) -> (r: Vec<u8>)
    ensures
        r@ == u32s_bytes(s@),
{
    let mut r: Vec<u8> = Vec::new();
    let mut i: usize = 0;
    while i < s.len()
        invariant
            i <= s@.len(),
            r@ == u32s_bytes(s@.take(i as int)),
        decreases s.len() - i,
    {
        let mut b = le_bytes_of(s[i] as u64, 4);
        assert(s@.take(i + 1int).drop_last() =~= s@.take(i as int));
        r.append(&mut b);
        i = i + 1;
    }
    assert(s@.take(s@.len() as int) =~= s@);
    r
}

/// Feeds a sequence of sites to `hasher` as the standard `Hash` of a
/// `Vec<u32>` does.
fn write_sites(hasher: &mut DefaultHasher, sites: &Vec<u32>)
    ensures
        final(hasher)@ == old(hasher)@ + sites_writes(sites@),
{
    let len_bytes = le_bytes_of(sites.len() as u64, 8);
    hasher.write(len_bytes.as_slice());
    let site_bytes = u32s_bytes_of(sites);
    hasher.write(site_bytes.as_slice());
    assert(hasher@ =~= old(hasher)@ + sites_writes(sites@));
}

/// A copy of a sequence of sites.
fn copy_sites(v: &Vec<u32>) -> (r: Vec<u32>)
    ensures
        r@ == v@,
{
    let mut r: Vec<u32> = Vec::new();
    let mut i: usize = 0;
    while i < v.len()
        invariant
            i <= v@.len(),
            r@ == v@.take(i as int),
        decreases v.len() - i,
    {
        r.push(v[i]);
        assert(v@.take(i + 1int) =~= v@.take(i as int).push(v@[i as int]));
        i = i + 1;
    }
    assert(v@.take(v@.len() as int) =~= v@);
    r
}

/// `sites` with `site` pushed, cut to the `k` most recent entries.
fn push_limited(sites: &Vec<u32>, site: u32, k: usize) -> (r: Vec<u32>)
    ensures
        r@ == k_limited(sites@, site, k as nat),
{
    let mut r = copy_sites(sites);
    r.push(site);
    if r.len() > k {
        let ghost before = r@;
        r.remove(0);
        assert(r@ =~= before.drop_first());
    }
    r
}

/// A call string of at most `max_k` call sites, most recent last.
#[derive(Debug, Clone, PartialEq, Eq, Hash, PartialOrd, Ord)]
pub struct ContextStack {
    pub call_sites: Vec<u32>,
    pub max_k: usize,
}

impl ContextStack {
    /// The empty call string with limit `max_k`.
    pub fn new(max_k: usize) -> (r: Self)
        ensures
            r.call_sites@ == Seq::<u32>::empty(),
            r.max_k == max_k,
    {
        ContextStack { call_sites: Vec::new(), max_k }
    }

    /// The call string with `call_site` pushed; the oldest site is dropped
    /// when the string grows past `max_k`.
    pub fn push(&self, call_site: u32) -> (r: Self)
        ensures
            r.call_sites@ == k_limited(self.call_sites@, call_site, self.max_k as nat),
            r.max_k == self.max_k,
    {
        ContextStack { call_sites: push_limited(&self.call_sites, call_site, self.max_k), max_k: self.max_k }
    }

    /// The call string without its most recent site, and that site.
    pub fn pop(&self) -> (r: (Self, Option<u32>))
        ensures
            r.0.call_sites@ == popped_sites(self.call_sites@),
            r.0.max_k == self.max_k,
            r.1 == top_site(self.call_sites@),
    {
        let mut sites = copy_sites(&self.call_sites);
        let popped = sites.pop();
        (ContextStack { call_sites: sites, max_k: self.max_k }, popped)
    }

    /// The identifier that the standard hasher gives this call string.
    fn hash_id(&self) -> (r: ContextId)
        ensures
            r.0 == call_context_id(self.call_sites@, self.max_k),
    {
        let mut hasher = DefaultHasher::new();
        write_sites(&mut hasher, &self.call_sites);
        let k_bytes = le_bytes_of(self.max_k as u64, 8);
        hasher.write(k_bytes.as_slice());
        assert(hasher@ =~= sites_writes(self.call_sites@).push(le_bytes(self.max_k as nat, 8)));
        ContextId(hasher.finish())
    }
}

/// Pushing a site keeps a call string within its limit.
pub proof fn law_push_keeps_limit(sites: Seq<u32>, site: u32, k: nat)
    requires
        sites.len() <= k,
    ensures
        k_limited(sites, site, k).len() <= k,
{
}

/// With a limit of at least one, the site just pushed is the one popped next.
pub proof fn law_pop_returns_pushed(sites: Seq<u32>, site: u32, k: nat)
    requires
        k > 0,
    ensures
        top_site(k_limited(sites, site, k)) == Some(site),
{
}

/// Below the limit, popping undoes a push.
pub proof fn law_pop_undoes_push(sites: Seq<u32>, site: u32, k: nat)
    requires
        sites.len() < k,
    ensures
        popped_sites(k_limited(sites, site, k)) == sites,
{
    assert(sites.push(site).drop_last() =~= sites);
}

/// A call context: a call string and its identifier.
#[derive(Debug, Clone, PartialEq, Eq, Hash, PartialOrd, Ord)]
pub struct CallContext {
    pub id: ContextId,
    pub call_string: ContextStack,
}

impl CallContext {
    /// The empty call context with limit `max_k`.
    pub fn empty(max_k: usize) -> (r: Self)
        ensures
            r.call_string.call_sites@ == Seq::<u32>::empty(),
            r.call_string.max_k == max_k,
            r.id.0 == call_context_id(r.call_string.call_sites@, max_k),
    {
        let stack = ContextStack::new(max_k);
        let id = stack.hash_id();
        CallContext { id, call_string: stack }
    }

    /// The context entered through `call_site`.
    pub fn push(&self, call_site: u32) -> (r: Self)
        ensures
            r.call_string.call_sites@ == k_limited(self.call_string.call_sites@, call_site, self.call_string.max_k as nat),
            r.call_string.max_k == self.call_string.max_k,
            r.id.0 == call_context_id(r.call_string.call_sites@, r.call_string.max_k),
    {
        let stack = self.call_string.push(call_site);
        let id = stack.hash_id();
        CallContext { id, call_string: stack }
    }

    /// The context returned to, and the call site left.
    pub fn pop(&self) -> (r: (Self, Option<u32>))
        ensures
            r.0.call_string.call_sites@ == popped_sites(self.call_string.call_sites@),
            r.0.call_string.max_k == self.call_string.max_k,
            r.0.id.0 == call_context_id(r.0.call_string.call_sites@, r.0.call_string.max_k),
            r.1 == top_site(self.call_string.call_sites@),
    {
        let (stack, popped) = self.call_string.pop();
        let id = stack.hash_id();
        (CallContext { id, call_string: stack }, popped)
    }
}

/// Two call contexts with the same call string and limit have the same
/// identifier, however they were reached.
pub proof fn law_context_id_determined(s1: Seq<u32>, k1: usize, s2: Seq<u32>, k2: usize)
    requires
        s1 == s2,
        k1 == k2,
    ensures
        call_context_id(s1, k1) == call_context_id(s2, k2),
{
}

/// An object context: the most recent allocation sites, at most `max_k`.
#[derive(Debug, Clone, PartialEq, Eq, Hash, PartialOrd, Ord)]
pub struct ObjectContext {
    pub id: ContextId,
    pub alloc_sites: Vec<u32>,
    pub max_k: usize,
}

impl ObjectContext {
    /// The empty object context with limit `max_k`.
    pub fn empty(max_k: usize) -> (r: Self)
        ensures
            r.alloc_sites@ == Seq::<u32>::empty(),
            r.max_k == max_k,
            r.id.0 == empty_object_context_id(max_k),
    {
        let mut hasher = DefaultHasher::new();
        let k_bytes = le_bytes_of(max_k as u64, 8);
        hasher.write(k_bytes.as_slice());
        assert(hasher@ =~= seq![le_bytes(max_k as nat, 8)]);
        ObjectContext { id: ContextId(hasher.finish()), alloc_sites: Vec::new(), max_k }
    }

    /// The context with `alloc_site` pushed, cut to the `max_k` most recent.
    pub fn push(&self, alloc_site: u32) -> (r: Self)
        ensures
            r.alloc_sites@ == k_limited(self.alloc_sites@, alloc_site, self.max_k as nat),
            r.max_k == self.max_k,
            r.id.0 == object_context_id(r.alloc_sites@),
    {
        let sites = push_limited(&self.alloc_sites, alloc_site, self.max_k);
        let mut hasher = DefaultHasher::new();
        write_sites(&mut hasher, &sites);
        assert(hasher@ =~= sites_writes(sites@));
        ObjectContext { id: ContextId(hasher.finish()), alloc_sites: sites, max_k: self.max_k }
    }
}

} // verus!

verus! {

/// One variable and the abstract objects it may point to.
#[derive(Debug, Clone)]
pub struct AliasEntry {
    pub variable: String,
    pub targets: Vec<String>,
}

/// The texts of a sequence of strings.
pub open spec fn texts(v: Seq<String>) -> Seq<Seq<char>> {
    v.map_values(|s: String| s@)
}

/// The variable names of a sequence of alias entries.
pub open spec fn entry_names(s: Seq<AliasEntry>) -> Seq<Seq<char>> {
    s.map_values(|e: AliasEntry| e.variable@)
}

/// The label of the abstract object allocated at `site`.
pub open spec fn alloc_label(site: u32) -> Seq<char> {
    "alloc_"@ + crate::text::decimal(site as nat)
}

/// In a sequence without duplicates, `index_of` finds the one position of
/// a member.
proof fn lemma_index_of_unique(s: Seq<Seq<char>>, k: Seq<char>)
    requires
        s.no_duplicates(),
        s.contains(k),
    ensures
        0 <= s.index_of(k) < s.len(),
        s[s.index_of(k)] == k,
        forall|j: int| 0 <= j < s.len() && s[j] == k ==> j == s.index_of(k),
{
}

/// What a sequence with one more element at its end contains.
proof fn lemma_push_contains(s: Seq<Seq<char>>, x: Seq<char>)
    ensures
        forall|k: Seq<char>| #[trigger] s.push(x).contains(k) <==> (s.contains(k) || k == x),
{
    assert forall|k: Seq<char>| #[trigger] s.push(x).contains(k) <==> (s.contains(k) || k == x) by {
        if s.contains(k) {
            let j = choose|j: int| 0 <= j < s.len() && s[j] == k;
            assert(s.push(x)[j] == k);
        }
        if k == x {
            assert(s.push(x)[s.len() as int] == k);
        }
        if s.push(x).contains(k) {
            let j = choose|j: int| 0 <= j < s.len() + 1 && s.push(x)[j] == k;
            if j < s.len() {
                assert(s[j] == k);
            }
        }
    }
}

/// Alias facts tracked under an object context.
#[derive(Debug)]
pub struct ContextAwareAliasState {
    object_context: ObjectContext,
    aliases: Vec<AliasEntry>,
}

/// The position of `var` among the names of `entries`, if it is there.
fn find_variable(entries: &Vec<AliasEntry>, var: &str) -> (r: Option<usize>)
    ensures
        match r {
            Some(i) => i < entries@.len() && entry_names(entries@)[i as int] == var@,
            None => !entry_names(entries@).contains(var@),
        },
{
    let mut i: usize = 0;
    while i < entries.len()
        invariant
            i <= entries@.len(),
            forall|j: int| 0 <= j < i ==> entry_names(entries@)[j] != var@,
        decreases entries.len() - i,
    {
        if crate::text::str_eq(entries[i].variable.as_str(), var) {
            return Some(i);
        }
        i = i + 1;
    }
    None
}

/// A copy of a sequence of strings.
fn copy_strings(v: &Vec<String>) -> (r: Vec<String>)
    ensures
        texts(r@) == texts(v@),
{
    let mut r: Vec<String> = Vec::new();
    let mut i: usize = 0;
    while i < v.len()
        invariant
            i <= v@.len(),
            texts(r@) == texts(v@).take(i as int),
        decreases v.len() - i,
    {
        let ghost prev = r@;
        r.push(v[i].clone());
        assert(texts(r@) =~= texts(prev).push(v@[i as int]@));
        assert(texts(v@).take(i + 1int) =~= texts(v@).take(i as int).push(v@[i as int]@));
        i = i + 1;
    }
    assert(texts(v@).take(v@.len() as int) =~= texts(v@));
    r
}

/// Whether `v` holds a string with the text of `s`.
fn contains_string(v: &Vec<String>, s: &str) -> (r: bool)
    ensures
        r == texts(v@).contains(s@),
{
    let mut i: usize = 0;
    while i < v.len()
        invariant
            i <= v@.len(),
            forall|j: int| 0 <= j < i ==> texts(v@)[j] != s@,
        decreases v.len() - i,
    {
        if crate::text::str_eq(v[i].as_str(), s) {
            assert(texts(v@)[i as int] == s@);
            return true;
        }
        i = i + 1;
    }
    false
}

impl ContextAwareAliasState {
    /// The alias facts: for each variable, the set of objects it may point to.
    pub closed spec fn alias_map(&self) -> Map<Seq<char>, Set<Seq<char>>> {
        let names = entry_names(self.aliases@);
        Map::new(
            |k: Seq<char>| names.contains(k),
            |k: Seq<char>| texts(self.aliases@[names.index_of(k)].targets@).to_set(),
        )
    }

    /// The object context under which the facts hold.
    pub closed spec fn context(&self) -> ObjectContext {
        self.object_context
    }

    /// The object context under which the facts hold.
    pub fn object_context(&self) -> (r: &ObjectContext)
        ensures
            *r == self.context(),
    {
        &self.object_context
    }

    #[verifier::type_invariant]
    spec fn unique_names(self) -> bool {
        entry_names(self.aliases@).no_duplicates()
    }

    /// No alias facts, under the empty object context with limit `max_k`.
    pub fn new(max_k: usize) -> (r: Self)
        ensures
            r.context().alloc_sites@ == Seq::<u32>::empty(),
            r.context().max_k == max_k,
            r.context().id.0 == empty_object_context_id(max_k),
            r.alias_map() == Map::<Seq<char>, Set<Seq<char>>>::empty(),
    {
        let r = ContextAwareAliasState { object_context: ObjectContext::empty(max_k), aliases: Vec::new() };
        assert(r.alias_map() =~= Map::<Seq<char>, Set<Seq<char>>>::empty());
        r
    }

    /// The objects that `variable` may point to, if it has alias facts.
    pub fn aliases_of(&self, variable: &str) -> (r: Option<Vec<String>>)
        ensures
            match r {
                Some(v) => self.alias_map().dom().contains(variable@) && texts(v@).to_set() == self.alias_map()[variable@],
                None => !self.alias_map().dom().contains(variable@),
            },
    {
        proof { use_type_invariant(self); }
        match find_variable(&self.aliases, variable) {
            Some(i) => {
                proof {
                    let names = entry_names(self.aliases@);
                    lemma_index_of_unique(names, variable@);
                    assert(names.contains(variable@));
                    assert(names.index_of(variable@) == i);
                }
                Some(copy_strings(&self.aliases[i].targets))
            },
            None => None,
        }
    }

    /// Records that `variable` is assigned a new object allocated at
    /// `alloc_site`: the object context grows by the site, and the object's
    /// label joins what `variable` may point to.
    pub fn record_allocation(&mut self, variable: &str, alloc_site: u32)
        ensures
            final(self).context().alloc_sites@ == k_limited(old(self).context().alloc_sites@, alloc_site, old(self).context().max_k as nat),
            final(self).context().max_k == old(self).context().max_k,
            final(self).context().id.0 == object_context_id(final(self).context().alloc_sites@),
            final(self).alias_map() == old(self).alias_map().insert(
                variable@,
                (if old(self).alias_map().dom().contains(variable@) { old(self).alias_map()[variable@] } else { Set::empty() }).insert(alloc_label(alloc_site)),
            ),
    {
        proof { use_type_invariant(&*self); }
        self.object_context = self.object_context.push(alloc_site);
        let mut label = String::from_str("alloc_");
        proof { reveal_strlit("alloc_"); }
        crate::text::push_decimal(&mut label, alloc_site as u64);
        assert(label@ == alloc_label(alloc_site));
        let ghost old_map = old(self).alias_map();
        let ghost names = entry_names(self.aliases@);
        match find_variable(&self.aliases, variable) {
            Some(i) => {
                let mut targets = copy_strings(&self.aliases[i].targets);
                let ghost old_texts = texts(targets@);
                if !contains_string(&targets, label.as_str()) {
                    targets.push(label);
                    proof {
                        assert(texts(targets@) =~= old_texts.push(alloc_label(alloc_site)));
                        lemma_push_contains(old_texts, alloc_label(alloc_site));
                    }
                }
                assert(texts(targets@).to_set() =~= old_texts.to_set().insert(alloc_label(alloc_site)));
                let entry = AliasEntry { variable: variable.to_string(), targets };
                proof {
                    lemma_index_of_unique(names, variable@);
                }
                let mut aliases: Vec<AliasEntry> = Vec::new();
                std::mem::swap(&mut aliases, &mut self.aliases);
                aliases.set(i, entry);
                assert(entry_names(aliases@) =~= names);
                self.aliases = aliases;
                proof {
                    assert forall|k: Seq<char>| #[trigger] names.contains(k) implies
                        self.alias_map()[k] == old_map.insert(variable@, old_map[variable@].insert(alloc_label(alloc_site)))[k] by {
                        lemma_index_of_unique(names, k);
                    }
                    assert(self.alias_map() =~= old_map.insert(variable@, old_map[variable@].insert(alloc_label(alloc_site))));
                }
            },
            None => {
                let targets: Vec<String> = vec![label];
                let ghost tv = targets@;
                assert(texts(tv) =~= seq![alloc_label(alloc_site)]);
                let entry = AliasEntry { variable: variable.to_string(), targets };
                let mut aliases: Vec<AliasEntry> = Vec::new();
                std::mem::swap(&mut aliases, &mut self.aliases);
                aliases.push(entry);
                assert(entry_names(aliases@) =~= names.push(variable@));
                self.aliases = aliases;
                proof {
                    let nn = names.push(variable@);
                    lemma_push_contains(names, variable@);
                    assert(seq![alloc_label(alloc_site)].to_set() =~= Set::<Seq<char>>::empty().insert(alloc_label(alloc_site))) by {
                        assert(seq![alloc_label(alloc_site)][0] == alloc_label(alloc_site));
                    }
                    assert forall|k: Seq<char>| #[trigger] nn.contains(k) implies
                        self.alias_map()[k] == old_map.insert(variable@, Set::<Seq<char>>::empty().insert(alloc_label(alloc_site)))[k] by {
                        lemma_index_of_unique(nn, k);
                        if k != variable@ {
                            lemma_index_of_unique(names, k);
                        } else {
                            assert(self.aliases@[names.len() as int].targets@ == tv);
                        }
                    }
                    assert(self.alias_map() =~= old_map.insert(variable@, Set::<Seq<char>>::empty().insert(alloc_label(alloc_site))));
                }
            },
        }
    }

    /// Records `dest = src`: where `src` has alias facts, `dest` takes them
    /// over in place of its own; otherwise nothing changes.
    pub fn assign(&mut self, dest: &str, src: &str)
        ensures
            final(self).context() == old(self).context(),
            final(self).alias_map() == (if old(self).alias_map().dom().contains(src@) {
                old(self).alias_map().insert(dest@, old(self).alias_map()[src@])
            } else {
                old(self).alias_map()
            }),
    {
        let copied = self.aliases_of(src);
        match copied {
            None => {},
            Some(targets) => {
                proof { use_type_invariant(&*self); }
                let ghost old_map = old(self).alias_map();
                let ghost names = entry_names(self.aliases@);
                let entry = AliasEntry { variable: dest.to_string(), targets };
                match find_variable(&self.aliases, dest) {
                    Some(i) => {
                        let mut aliases: Vec<AliasEntry> = Vec::new();
                        std::mem::swap(&mut aliases, &mut self.aliases);
                        aliases.set(i, entry);
                        assert(entry_names(aliases@) =~= names);
                        self.aliases = aliases;
                        proof {
                            assert forall|k: Seq<char>| #[trigger] names.contains(k) implies
                                self.alias_map()[k] == old_map.insert(dest@, old_map[src@])[k] by {
                                lemma_index_of_unique(names, k);
                            }
                            assert(self.alias_map() =~= old_map.insert(dest@, old_map[src@]));
                        }
                    },
                    None => {
                        let mut aliases: Vec<AliasEntry> = Vec::new();
                        std::mem::swap(&mut aliases, &mut self.aliases);
                        aliases.push(entry);
                        assert(entry_names(aliases@) =~= names.push(dest@));
                        self.aliases = aliases;
                        proof {
                            let nn = names.push(dest@);
                            lemma_push_contains(names, dest@);
                            assert forall|k: Seq<char>| #[trigger] nn.contains(k) implies
                                self.alias_map()[k] == old_map.insert(dest@, old_map[src@])[k] by {
                                lemma_index_of_unique(nn, k);
                                if k != dest@ {
                                    lemma_index_of_unique(names, k);
                                }
                            }
                            assert(self.alias_map() =~= old_map.insert(dest@, old_map[src@]));
                        }
                    },
                }
            },
        }
    }
}

} // verus!

verus! {

/// Whether `item` equals, by its type's `==`, some element of `s`.
pub open spec fn seen_before<T: PartialEq>(s: Seq<T>, item: T) -> bool {
    exists|i: int| 0 <= i < s.len() && s[i].eq_spec(&item)
}

/// A first-in first-out queue that accepts each item once: an item equal
/// to one accepted before is turned away.
pub struct ContextualWorklist<T> {
    pub queue: std::collections::VecDeque<T>,
    pub visited: Vec<T>,
}

impl<T: Clone + PartialEq> ContextualWorklist<T> {
    /// An empty worklist that has seen nothing.
    pub fn new() -> (r: Self)
        ensures
            r.queue@ == Seq::<T>::empty(),
            r.visited@ == Seq::<T>::empty(),
    {
        ContextualWorklist { queue: std::collections::VecDeque::new(), visited: Vec::new() }
    }

    /// Queues `item` unless an equal item was accepted before; says
    /// whether it was queued.
    pub fn push(&mut self, item: T) -> (r: bool)
        requires
            T::obeys_eq_spec(),
        ensures
            r == !seen_before(old(self).visited@, item),
            r ==> final(self).queue@ == old(self).queue@.push(item),
            r ==> final(self).visited@.len() == old(self).visited@.len() + 1,
            r ==> final(self).visited@.drop_last() == old(self).visited@,
            r ==> cloned(item, final(self).visited@.last()),
            !r ==> final(self).queue@ == old(self).queue@,
            !r ==> final(self).visited@ == old(self).visited@,
    {
        let mut i: usize = 0;
        while i < self.visited.len()
            invariant
                T::obeys_eq_spec(),
                i <= self.visited@.len(),
                forall|j: int| 0 <= j < i ==> !(#[trigger] self.visited@[j]).eq_spec(&item),
            decreases self.visited.len() - i,
        {
            if self.visited[i] == item {
                return false;
            }
            i = i + 1;
        }
        let copy = item.clone();
        self.visited.push(copy);
        self.queue.push_back(item);
        proof {
            assert(self.visited@.drop_last() =~= old(self).visited@);
        }
        true
    }

    /// Takes the oldest queued item, if any.
    pub fn pop(&mut self) -> (r: Option<T>)
        ensures
            final(self).visited@ == old(self).visited@,
            old(self).queue@.len() == 0 ==> r is None && final(self).queue@ == old(self).queue@,
            old(self).queue@.len() > 0 ==> r == Some(old(self).queue@[0]) && final(self).queue@ == old(self).queue@.drop_first(),
    {
        self.queue.pop_front()
    }
}

/// Figures that compare a context-sensitive run with an insensitive one.
#[derive(Debug, Clone, Copy, PartialEq, Eq, Structural)]
pub struct ContextMetrics {
    pub false_positives_avoided: usize,
    pub context_count: usize,
    pub summary_reuse_count: usize,
    pub memory_overhead_bytes: usize,
}

/// A fixed comparison of context-insensitive and context-sensitive runs.
pub struct ContextBenchmark;

impl ContextBenchmark {
    /// The figures of the insensitive run, then those of the sensitive run.
    pub fn run_comparative() -> (r: (ContextMetrics, ContextMetrics))
        ensures
            r.0 == (ContextMetrics { false_positives_avoided: 0, context_count: 1, summary_reuse_count: 0, memory_overhead_bytes: 1024 }),
            r.1 == (ContextMetrics { false_positives_avoided: 15, context_count: 32, summary_reuse_count: 120, memory_overhead_bytes: 8192 }),
    {
        let insensitive = ContextMetrics {
            false_positives_avoided: 0,
            context_count: 1,
            summary_reuse_count: 0,
            memory_overhead_bytes: 1024,
        };
        let sensitive = ContextMetrics {
            false_positives_avoided: 15,
            context_count: 32,
            summary_reuse_count: 120,
            memory_overhead_bytes: 8192,
        };
        (insensitive, sensitive)
    }
}

/// The sensitive run avoids more false positives, with more contexts.
pub proof fn law_sensitive_run_is_finer(r: (ContextMetrics, ContextMetrics))
    requires
        r.0 == (ContextMetrics { false_positives_avoided: 0, context_count: 1, summary_reuse_count: 0, memory_overhead_bytes: 1024 }),
        r.1 == (ContextMetrics { false_positives_avoided: 15, context_count: 32, summary_reuse_count: 120, memory_overhead_bytes: 8192 }),
    ensures
        r.1.false_positives_avoided > r.0.false_positives_avoided,
        r.1.context_count > r.0.context_count,
{
}

} // verus!

verus! {

impl ObjectContext {
    /// A copy of this context.
    pub fn duplicate(&self) -> (r: Self)
        ensures
            r.id == self.id,
            r.alloc_sites@ == self.alloc_sites@,
            r.max_k == self.max_k,
    {
        ObjectContext { id: self.id, alloc_sites: copy_sites(&self.alloc_sites), max_k: self.max_k }
    }
}

impl Clone for ContextAwareAliasState {
    fn clone(&self) -> (r: Self)
        ensures
            r.alias_map() == self.alias_map(),
            r.context().id == self.context().id,
            r.context().alloc_sites@ == self.context().alloc_sites@,
            r.context().max_k == self.context().max_k,
    {
        proof { use_type_invariant(self); }
        let mut entries: Vec<AliasEntry> = Vec::new();
        let mut i: usize = 0;
        while i < self.aliases.len()
            invariant
                i <= self.aliases@.len(),
                entries@.len() == i,
                entry_names(entries@) == entry_names(self.aliases@).take(i as int),
                forall|j: int| 0 <= j < i ==> texts(#[trigger] entries@[j].targets@) == texts(self.aliases@[j].targets@),
            decreases self.aliases.len() - i,
        {
            let e = AliasEntry { variable: self.aliases[i].variable.clone(), targets: copy_strings(&self.aliases[i].targets) };
            entries.push(e);
            assert(entry_names(entries@) =~= entry_names(self.aliases@).take(i + 1int));
            i = i + 1;
        }
        assert(entry_names(self.aliases@).take(self.aliases@.len() as int) =~= entry_names(self.aliases@));
        let r = ContextAwareAliasState { object_context: self.object_context.duplicate(), aliases: entries };
        assert(r.alias_map() =~= self.alias_map());
        r
    }
}

} // verus!

verus! {

/// Trusted: `<Arc<str> as From<&str>>::from`, which allocates a shared
/// string holding a copy of the characters of `s`.
#[verifier::external_body]
fn shared_str(s: &str) -> (r: std::sync::Arc<str>)
    ensures
        (*r)@ == s@,
{
    std::sync::Arc::from(s)
}

/// A pool of shared strings: interning a text already in the pool hands
/// back the pooled string rather than a new one.
pub struct StringInterner {
    pool: Vec<std::sync::Arc<str>>,
}

impl StringInterner {
    /// The texts in the pool, in the order they were first interned.
    pub closed spec fn interned(&self) -> Seq<Seq<char>> {
        self.pool@.map_values(|a: std::sync::Arc<str>| (*a)@)
    }

    /// An empty pool.
    pub fn new() -> (r: Self)
        ensures
            r.interned() == Seq::<Seq<char>>::empty(),
    {
        let r = StringInterner { pool: Vec::new() };
        assert(r.interned() =~= Seq::<Seq<char>>::empty());
        r
    }

    /// The pooled string with the text of `s`; it joins the pool when no
    /// pooled string has that text.
    pub fn intern(&mut self, s: &str) -> (r: std::sync::Arc<str>)
        ensures
            (*r)@ == s@,
            old(self).interned().contains(s@) ==> final(self).interned() == old(self).interned(),
            !old(self).interned().contains(s@) ==> final(self).interned() == old(self).interned().push(s@),
    {
        let mut i: usize = 0;
        while i < self.pool.len()
            invariant
                i <= self.interned().len(),
                self.interned() == old(self).interned(),
                forall|j: int| 0 <= j < i ==> self.interned()[j] != s@,
            decreases self.pool.len() - i,
        {
            let found: &str = &*self.pool[i];
            assert(found@ == self.interned()[i as int]);
            if crate::text::str_eq(found, s) {
                return self.pool[i].clone();
            }
            i = i + 1;
        }
        let fresh = shared_str(s);
        self.pool.push(fresh.clone());
        assert(self.interned() =~= old(self).interned().push(s@));
        fresh
    }
}

impl Default for StringInterner {
    fn default() -> (r: Self)
        ensures
            r.interned() == Seq::<Seq<char>>::empty(),
    {
        Self::new()
    }
}


/// An arena that keeps every value it is given for as long as it lives;
/// `allocate` hands back the place of the new value, by which `get` reaches it.
pub struct SimpleArena<T> {
    items: Vec<T>,
}

impl<T> SimpleArena<T> {
    /// The values in the arena, in allocation order.
    pub closed spec fn items(&self) -> Seq<T> {
        self.items@
    }

    /// An empty arena.
    pub fn new() -> (r: Self)
        ensures
            r.items() == Seq::<T>::empty(),
    {
        SimpleArena { items: Vec::new() }
    }

    /// Keeps `value` and returns its place; the values already there stay
    /// where they are.
    pub fn allocate(&mut self, value: T) -> (r: usize)
        ensures
            final(self).items() == old(self).items().push(value),
            r == old(self).items().len(),
    {
        let r = self.items.len();
        self.items.push(value);
        r
    }

    /// The value at place `i`.
    pub fn get(&self, i: usize) -> (r: &T)
        requires
            i < self.items().len(),
        ensures
            *r == self.items()[i as int],
    {
        &self.items[i]
    }
}

impl<T> Default for SimpleArena<T> {
    fn default() -> (r: Self)
        ensures
            r.items() == Seq::<T>::empty(),
    {
        Self::new()
    }
}

} // verus!
