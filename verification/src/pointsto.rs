//! Heap abstractions and points-to sets: sets of heap objects kept in one
//! canonical order, so that equal sets are equal values.
use vstd::prelude::*;
use crate::ir::{InstructionId, MethodId, TypeId};

verus! {

/// The call stack under which an object was allocated.
#[derive(Debug, Clone, PartialEq, Eq, Hash, PartialOrd, Ord)]
pub struct AllocationContext {
    pub call_stack: Vec<InstructionId>,
}

/// An allocation site, ordered by instruction, then method, then type, then context.
#[derive(Debug, Clone, Copy, PartialEq, Eq, Hash, PartialOrd, Ord, Structural)]
pub struct AllocationSite {
    pub instruction_id: InstructionId,
    pub method_id: MethodId,
    pub type_id: TypeId,
    pub context_id: Option<u32>,
}

/// An abstract heap object.
#[derive(Debug, Clone, PartialEq, Eq, Hash)]
pub enum HeapObject {
    Allocation { site_id: InstructionId, method_id: MethodId, type_id: TypeId, context: Option<AllocationContext> },
    Synthetic { name: String, type_id: Option<TypeId> },
    Unknown,
}

/// A heap object over plain values.
pub enum HeapView {
    Allocation { site_id: InstructionId, method_id: MethodId, type_id: TypeId, context: Option<Seq<InstructionId>> },
    Synthetic { name: Seq<char>, type_id: Option<TypeId> },
    Unknown,
}

impl View for HeapObject {
    type V = HeapView;

    open spec fn view(&self) -> HeapView {
        match self {
            HeapObject::Allocation { site_id, method_id, type_id, context } => HeapView::Allocation {
                site_id: *site_id,
                method_id: *method_id,
                type_id: *type_id,
                context: match context {
                    Some(c) => Some(c.call_stack@),
                    None => None,
                },
            },
            HeapObject::Synthetic { name, type_id } => HeapView::Synthetic { name: name@, type_id: *type_id },
            HeapObject::Unknown => HeapView::Unknown,
        }
    }
}

/// The code of a character, shifted so that no code is 0.
pub open spec fn char_code(c: char) -> u64 {
    ((c as u32) as u64 + 1) as u64
}

/// The codes of a name followed by a 0 terminator.
pub open spec fn name_key(s: Seq<char>) -> Seq<u64> {
    s.map_values(|c: char| char_code(c)) + seq![0u64]
}

/// The identifiers of a call stack.
pub open spec fn stack_key(s: Seq<InstructionId>) -> Seq<u64> {
    s.map_values(|i: InstructionId| i.0 as u64)
}

/// The sort key of a heap object: allocations first (by site, method, type,
/// then context), then synthetic objects (by name, then type), then the unknown
/// object. Comparing keys lexicographically gives the order of the objects.
pub open spec fn heap_key(h: HeapView) -> Seq<u64> {
    match h {
        HeapView::Allocation { site_id, method_id, type_id, context } =>
            seq![0u64, site_id.0 as u64, method_id.0 as u64, type_id.0 as u64] + match context {
                None => seq![0u64],
                Some(c) => seq![1u64] + stack_key(c),
            },
        HeapView::Synthetic { name, type_id } =>
            seq![1u64] + name_key(name) + match type_id {
                None => seq![0u64],
                Some(t) => seq![1u64, t.0 as u64],
            },
        HeapView::Unknown => seq![2u64],
    }
}

/// Strict lexicographic order on key sequences; a proper prefix comes first.
pub open spec fn lex_lt(a: Seq<u64>, b: Seq<u64>) -> bool
    decreases a.len(),
{
    if a.len() == 0 {
        b.len() > 0
    } else if b.len() == 0 {
        false
    } else if a[0] < b[0] {
        true
    } else if a[0] > b[0] {
        false
    } else {
        lex_lt(a.drop_first(), b.drop_first())
    }
}

pub proof fn lemma_lex_irreflexive(a: Seq<u64>)
    ensures
        !lex_lt(a, a),
    decreases a.len(),
{
    if a.len() > 0 {
        lemma_lex_irreflexive(a.drop_first());
    }
}

pub proof fn lemma_lex_transitive(a: Seq<u64>, b: Seq<u64>, c: Seq<u64>)
    requires
        lex_lt(a, b),
        lex_lt(b, c),
    ensures
        lex_lt(a, c),
    decreases a.len(),
{
    if a.len() > 0 && b.len() > 0 && c.len() > 0 && a[0] == b[0] && b[0] == c[0] {
        lemma_lex_transitive(a.drop_first(), b.drop_first(), c.drop_first());
    }
}

pub proof fn lemma_lex_total(a: Seq<u64>, b: Seq<u64>)
    ensures
        a == b || lex_lt(a, b) || lex_lt(b, a),
    decreases a.len(),
{
    if a.len() > 0 && b.len() > 0 && a[0] == b[0] {
        lemma_lex_total(a.drop_first(), b.drop_first());
        if a.drop_first() == b.drop_first() {
            assert(a =~= seq![a[0]] + a.drop_first());
            assert(b =~= seq![b[0]] + b.drop_first());
        }
    }
    if a.len() == 0 && b.len() == 0 {
        assert(a =~= b);
    }
}

pub proof fn lemma_lex_asymmetric(a: Seq<u64>, b: Seq<u64>)
    requires
        lex_lt(a, b),
    ensures
        !lex_lt(b, a),
{
    if lex_lt(b, a) {
        lemma_lex_transitive(a, b, a);
        lemma_lex_irreflexive(a);
    }
}

pub proof fn lemma_char_code_injective(c1: char, c2: char)
    requires
        char_code(c1) == char_code(c2),
    ensures
        c1 == c2,
{
    assert((c1 as u32) == (c2 as u32));
}

/// A name key determines both the name and what follows it.
proof fn lemma_name_key_split(s1: Seq<char>, t1: Seq<u64>, s2: Seq<char>, t2: Seq<u64>)
    requires
        name_key(s1) + t1 == name_key(s2) + t2,
    ensures
        s1 == s2,
        t1 == t2,
    decreases s1.len(),
{
    let k1 = name_key(s1) + t1;
    let k2 = name_key(s2) + t2;
    if s1.len() == 0 {
        if s2.len() > 0 {
            assert(k1[0] == 0);
            assert(k2[0] == char_code(s2[0]));
        }
        assert(s1 =~= s2);
        assert(t1 =~= k1.drop_first());
        assert(t2 =~= k2.drop_first());
    } else {
        if s2.len() == 0 {
            assert(k1[0] == char_code(s1[0]));
            assert(k2[0] == 0);
        }
        assert(k1[0] == char_code(s1[0]));
        assert(k2[0] == char_code(s2[0]));
        lemma_char_code_injective(s1[0], s2[0]);
        assert(name_key(s1.drop_first()) + t1 =~= k1.drop_first());
        assert(name_key(s2.drop_first()) + t2 =~= k2.drop_first());
        lemma_name_key_split(s1.drop_first(), t1, s2.drop_first(), t2);
        assert(s1 =~= seq![s1[0]] + s1.drop_first());
        assert(s2 =~= seq![s2[0]] + s2.drop_first());
    }
}

/// Different heap objects have different keys.
#[verifier::spinoff_prover]
pub proof fn lemma_heap_key_injective(a: HeapView, b: HeapView)
    requires
        heap_key(a) == heap_key(b),
    ensures
        a == b,
{
    let k = heap_key(a);
    assert(k[0] == heap_key(b)[0]);
    match (a, b) {
        (HeapView::Allocation { site_id: s1, method_id: m1, type_id: t1, context: c1 },
         HeapView::Allocation { site_id: s2, method_id: m2, type_id: t2, context: c2 }) => {
            assert(k[1] == s1.0 && heap_key(b)[1] == s2.0);
            assert(k[2] == m1.0 && heap_key(b)[2] == m2.0);
            assert(k[3] == t1.0 && heap_key(b)[3] == t2.0);
            assert(k[4] == heap_key(b)[4]);
            match (c1, c2) {
                (Some(x), Some(y)) => {
                    assert(stack_key(x) =~= k.skip(5));
                    assert(stack_key(y) =~= heap_key(b).skip(5));
                    assert(x.len() == y.len());
                    assert forall|i: int| 0 <= i < x.len() implies x[i] == y[i] by {
                        assert(stack_key(x)[i] == stack_key(y)[i]);
                    }
                    assert(x =~= y);
                },
                (None, Some(y)) => {},
                (Some(x), None) => {},
                (None, None) => {},
            }
        },
        (HeapView::Synthetic { name: n1, type_id: t1 }, HeapView::Synthetic { name: n2, type_id: t2 }) => {
            let r1 = match t1 { None => seq![0u64], Some(t) => seq![1u64, t.0 as u64] };
            let r2 = match t2 { None => seq![0u64], Some(t) => seq![1u64, t.0 as u64] };
            assert(name_key(n1) + r1 =~= k.drop_first());
            assert(name_key(n2) + r2 =~= heap_key(b).drop_first());
            lemma_name_key_split(n1, r1, n2, r2);
            assert(r1[0] == r2[0]);
            if r1.len() == 2 {
                assert(r1[1] == r2[1]);
            }
        },
        _ => {},
    }
}

/// The objects of `v`, with their views.
pub open spec fn heap_views(v: Seq<HeapObject>) -> Seq<HeapView> {
    v.map_values(|h: HeapObject| h@)
}

/// Whether `s` is strictly increasing by key.
pub open spec fn sorted_strict(s: Seq<HeapView>) -> bool {
    forall|i: int, j: int| 0 <= i < j < s.len() ==> lex_lt(heap_key(#[trigger] s[i]), heap_key(#[trigger] s[j]))
}

impl HeapObject {
    /// A copy of this object.
    pub fn duplicate(&self) -> (r: HeapObject)
        ensures
            r@ == self@,
    {
        match self {
            HeapObject::Allocation { site_id, method_id, type_id, context } => HeapObject::Allocation {
                site_id: *site_id,
                method_id: *method_id,
                type_id: *type_id,
                context: match context {
                    Some(c) => {
                        let mut v: Vec<InstructionId> = Vec::new();
                        let mut i: usize = 0;
                        while i < c.call_stack.len()
                            invariant
                                i <= c.call_stack@.len(),
                                v@ == c.call_stack@.take(i as int),
                            decreases c.call_stack.len() - i,
                        {
                            v.push(c.call_stack[i]);
                            assert(c.call_stack@.take(i + 1int) =~= c.call_stack@.take(i as int).push(c.call_stack@[i as int]));
                            i = i + 1;
                        }
                        assert(c.call_stack@.take(c.call_stack@.len() as int) =~= c.call_stack@);
                        Some(AllocationContext { call_stack: v })
                    },
                    None => None,
                },
            },
            HeapObject::Synthetic { name, type_id } => HeapObject::Synthetic { name: name.clone(), type_id: *type_id },
            HeapObject::Unknown => HeapObject::Unknown,
        }
    }

    /// The sort key of this object.
    pub fn key(&self) -> (k: Vec<u64>)
        ensures
            k@ == heap_key(self@),
    {
        match self {
            HeapObject::Allocation { site_id, method_id, type_id, context } => {
                let mut k: Vec<u64> = vec![0u64, site_id.0 as u64, method_id.0 as u64, type_id.0 as u64];
                let ghost base = k@;
                match context {
                    None => {
                        k.push(0u64);
                    },
                    Some(c) => {
                        k.push(1u64);
                        let mut i: usize = 0;
                        while i < c.call_stack.len()
                            invariant
                                i <= c.call_stack@.len(),
                                k@ == base + seq![1u64] + stack_key(c.call_stack@.take(i as int)),
                            decreases c.call_stack.len() - i,
                        {
                            k.push(c.call_stack[i].0 as u64);
                            assert(stack_key(c.call_stack@.take(i + 1int)) =~= stack_key(c.call_stack@.take(i as int)).push(c.call_stack@[i as int].0 as u64));
                            i = i + 1;
                        }
                        assert(c.call_stack@.take(c.call_stack@.len() as int) =~= c.call_stack@);
                    },
                }
                assert(k@ =~= heap_key(self@));
                k
            },
            HeapObject::Synthetic { name, type_id } => {
                let mut k: Vec<u64> = vec![1u64];
                let chars = crate::text::chars_of(name.as_str());
                let mut i: usize = 0;
                while i < chars.len()
                    invariant
                        i <= chars@.len(),
                        chars@ == name@,
                        k@ == seq![1u64] + chars@.take(i as int).map_values(|c: char| char_code(c)),
                    decreases chars.len() - i,
                {
                    k.push((chars[i] as u32) as u64 + 1);
                    assert(chars@.take(i + 1int).map_values(|c: char| char_code(c)) =~=
                        chars@.take(i as int).map_values(|c: char| char_code(c)).push(char_code(chars@[i as int])));
                    i = i + 1;
                }
                assert(chars@.take(chars@.len() as int) =~= chars@);
                k.push(0u64);
                match type_id {
                    None => k.push(0u64),
                    Some(t) => {
                        k.push(1u64);
                        k.push(t.0 as u64);
                    },
                }
                assert(k@ =~= heap_key(self@));
                k
            },
            HeapObject::Unknown => {
                let k = vec![2u64];
                assert(k@ =~= heap_key(self@));
                k
            },
        }
    }
}

/// Whether `a` comes strictly before `b` lexicographically.
pub fn lex_less(a: &Vec<u64>, b: &Vec<u64>) -> (r: bool)
    ensures
        r == lex_lt(a@, b@),
{
    let mut i: usize = 0;
    assert(a@.skip(0) =~= a@);
    assert(b@.skip(0) =~= b@);
    while i < a.len() && i < b.len() && a[i] == b[i]
        invariant
            i <= a@.len(),
            i <= b@.len(),
            lex_lt(a@, b@) == lex_lt(a@.skip(i as int), b@.skip(i as int)),
        decreases a.len() - i,
    {
        assert(a@.skip(i as int).drop_first() =~= a@.skip(i + 1int));
        assert(b@.skip(i as int).drop_first() =~= b@.skip(i + 1int));
        i = i + 1;
    }
    if i == a.len() {
        i < b.len()
    } else if i == b.len() {
        false
    } else {
        a[i] < b[i]
    }
}

/// Whether two key sequences are equal.
pub fn keys_equal(a: &Vec<u64>, b: &Vec<u64>) -> (r: bool)
    ensures
        r == (a@ == b@),
{
    if a.len() != b.len() {
        return false;
    }
    let mut i: usize = 0;
    while i < a.len()
        invariant
            a@.len() == b@.len(),
            i <= a@.len(),
            forall|j: int| 0 <= j < i ==> a@[j] == b@[j],
        decreases a.len() - i,
    {
        if a[i] != b[i] {
            return false;
        }
        i = i + 1;
    }
    assert(a@ =~= b@);
    true
}

/// Whether two heap objects are the same object.
pub fn same_object(a: &HeapObject, b: &HeapObject) -> (r: bool)
    ensures
        r == (a@ == b@),
{
    let ka = a.key();
    let kb = b.key();
    let r = keys_equal(&ka, &kb);
    proof {
        if r {
            lemma_heap_key_injective(a@, b@);
        }
    }
    r
}

} // verus!

verus! {

/// Two strictly sorted sequences with the same members are equal.
pub proof fn lemma_sorted_canonical(a: Seq<HeapView>, b: Seq<HeapView>)
    requires
        sorted_strict(a),
        sorted_strict(b),
        forall|h: HeapView| a.contains(h) <==> b.contains(h),
    ensures
        a == b,
    decreases a.len(),
{
    if a.len() == 0 {
        if b.len() > 0 {
            assert(b.contains(b[0]));
        }
        assert(a =~= b);
    } else {
        assert(a.contains(a[0]));
        assert(b.len() > 0);
        assert(b.contains(b[0]));
        if a[0] != b[0] {
            let j = choose|j: int| 0 <= j < b.len() && b[j] == a[0];
            let k = choose|k: int| 0 <= k < a.len() && a[k] == b[0];
            assert(j > 0 && k > 0);
            assert(lex_lt(heap_key(b[0]), heap_key(b[j])));
            assert(lex_lt(heap_key(a[0]), heap_key(a[k])));
            lemma_lex_asymmetric(heap_key(a[0]), heap_key(b[0]));
        }
        let ta = a.drop_first();
        let tb = b.drop_first();
        assert forall|h: HeapView| ta.contains(h) <==> tb.contains(h) by {
            if ta.contains(h) {
                let i = choose|i: int| 0 <= i < ta.len() && ta[i] == h;
                assert(a[i + 1] == h);
                assert(lex_lt(heap_key(a[0]), heap_key(a[i + 1])));
                lemma_lex_irreflexive(heap_key(h));
                assert(b.contains(h));
                let j = choose|j: int| 0 <= j < b.len() && b[j] == h;
                assert(j != 0);
                assert(tb[j - 1] == h);
            }
            if tb.contains(h) {
                let i = choose|i: int| 0 <= i < tb.len() && tb[i] == h;
                assert(b[i + 1] == h);
                assert(lex_lt(heap_key(b[0]), heap_key(b[i + 1])));
                lemma_lex_irreflexive(heap_key(h));
                assert(a.contains(h));
                let j = choose|j: int| 0 <= j < a.len() && a[j] == h;
                assert(j != 0);
                assert(ta[j - 1] == h);
            }
        }
        lemma_sorted_canonical(ta, tb);
        assert(a =~= seq![a[0]] + ta);
        assert(b =~= seq![b[0]] + tb);
    }
}

proof fn lemma_take_next_contains(s: Seq<HeapView>, i: int, h: HeapView)
    requires
        0 <= i < s.len(),
    ensures
        s.take(i + 1).contains(h) <==> (s.take(i).contains(h) || h == s[i]),
{
    let a = s.take(i + 1);
    let b = s.take(i);
    if a.contains(h) {
        let j = choose|j: int| 0 <= j < a.len() && a[j] == h;
        if j < i {
            assert(b[j] == h);
        }
    }
    if b.contains(h) {
        let j = choose|j: int| 0 <= j < b.len() && b[j] == h;
        assert(a[j] == h);
    }
    if h == s[i] {
        assert(a[i] == h);
    }
}

/// Inserts `obj` into the strictly sorted `v`, unless it is already there.
fn insert_sorted(v: &mut Vec<HeapObject>, obj: HeapObject)
    requires
        sorted_strict(heap_views(old(v)@)),
    ensures
        sorted_strict(heap_views(final(v)@)),
        forall|h: HeapView| heap_views(final(v)@).contains(h) <==> (heap_views(old(v)@).contains(h) || h == obj@),
{
    let k = obj.key();
    let ghost s = heap_views(v@);
    let mut i: usize = 0;
    while i < v.len() && lex_less(&v[i].key(), &k)
        invariant
            i <= v@.len(),
            s == heap_views(v@),
            k@ == heap_key(obj@),
            forall|j: int| 0 <= j < i ==> lex_lt(heap_key(#[trigger] s[j]), k@),
        decreases v.len() - i,
    {
        assert(s[i as int] == v@[i as int]@);
        i = i + 1;
    }
    if i < v.len() {
        assert(s[i as int] == v@[i as int]@);
        let ki = v[i].key();
        if keys_equal(&ki, &k) {
            proof {
                lemma_heap_key_injective(s[i as int], obj@);
                assert forall|h: HeapView| s.contains(h) <==> (s.contains(h) || h == obj@) by {
                    if h == obj@ {
                        assert(s[i as int] == h);
                    }
                }
            }
            return;
        }
        proof {
            lemma_lex_total(ki@, k@);
        }
    }
    v.insert(i, obj);
    proof {
        let t = heap_views(v@);
        assert(t =~= s.insert(i as int, obj@));
        assert forall|a: int, b: int| 0 <= a < b < t.len() implies lex_lt(heap_key(#[trigger] t[a]), heap_key(#[trigger] t[b])) by {
            if b < i {
                assert(t[a] == s[a] && t[b] == s[b]);
            } else if b == i {
                assert(t[a] == s[a]);
            } else if a == i {
                assert(t[b] == s[b - 1]);
                if b - 1 > i {
                    assert(lex_lt(heap_key(s[i as int]), heap_key(s[b - 1])));
                    lemma_lex_transitive(k@, heap_key(s[i as int]), heap_key(s[b - 1]));
                }
            } else if a < i {
                assert(t[a] == s[a] && t[b] == s[b - 1]);
                if b - 1 > i {
                    assert(lex_lt(heap_key(s[i as int]), heap_key(s[b - 1])));
                    lemma_lex_transitive(k@, heap_key(s[i as int]), heap_key(s[b - 1]));
                }
                lemma_lex_transitive(heap_key(s[a]), k@, heap_key(s[b - 1]));
            } else {
                assert(t[a] == s[a - 1] && t[b] == s[b - 1]);
            }
        }
        assert forall|h: HeapView| t.contains(h) <==> (s.contains(h) || h == obj@) by {
            if t.contains(h) {
                let j = choose|j: int| 0 <= j < t.len() && t[j] == h;
                if j < i {
                    assert(s[j] == h);
                } else if j > i {
                    assert(s[j - 1] == h);
                }
            }
            if s.contains(h) {
                let j = choose|j: int| 0 <= j < s.len() && s[j] == h;
                if j < i {
                    assert(t[j] == h);
                } else {
                    assert(t[j + 1] == h);
                }
            }
            if h == obj@ {
                assert(t[i as int] == h);
            }
        }
    }
}

/// A set of heap objects, held in strictly increasing key order.
#[derive(Debug, PartialEq, Eq, Hash)]
pub struct PointsToSet {
    objects: Vec<HeapObject>,
}

impl View for PointsToSet {
    type V = Seq<HeapView>;

    closed spec fn view(&self) -> Seq<HeapView> {
        heap_views(self.objects@)
    }
}

impl PointsToSet {
    #[verifier::type_invariant]
    spec fn is_sorted(self) -> bool {
        sorted_strict(heap_views(self.objects@))
    }

    /// The empty set.
    pub fn new() -> (r: Self)
        ensures
            r@ == Seq::<HeapView>::empty(),
    {
        let r = PointsToSet { objects: Vec::new() };
        assert(r@ =~= Seq::<HeapView>::empty());
        r
    }

    /// The set holding `obj` alone.
    pub fn singleton(obj: HeapObject) -> (r: Self)
        ensures
            r@ == seq![obj@],
    {
        let objects = vec![obj];
        assert(heap_views(objects@) =~= seq![obj@]);
        PointsToSet { objects }
    }

    /// The number of objects in the set.
    pub fn len(&self) -> (r: usize)
        ensures
            r == self@.len(),
    {
        self.objects.len()
    }

    /// Whether the set is empty.
    pub fn is_empty(&self) -> (r: bool)
        ensures
            r == (self@.len() == 0),
    {
        self.objects.len() == 0
    }

    /// The object at position `i` in key order.
    pub fn get(&self, i: usize) -> (r: &HeapObject)
        requires
            i < self@.len(),
        ensures
            r@ == self@[i as int],
    {
        &self.objects[i]
    }

    /// Whether `obj` is in the set.
    pub fn contains(&self, obj: &HeapObject) -> (r: bool)
        ensures
            r == self@.contains(obj@),
    {
        let mut i: usize = 0;
        while i < self.objects.len()
            invariant
                i <= self@.len(),
                forall|j: int| 0 <= j < i ==> self@[j] != obj@,
            decreases self.objects.len() - i,
        {
            assert(self@[i as int] == self.objects@[i as int]@);
            if same_object(&self.objects[i], obj) {
                return true;
            }
            i = i + 1;
        }
        false
    }

    /// The set with `obj` added.
    pub fn insert(&self, obj: HeapObject) -> (r: Self)
        ensures
            forall|h: HeapView| r@.contains(h) <==> (self@.contains(h) || h == obj@),
    {
        proof { use_type_invariant(self); }
        let mut v = copy_objects(&self.objects);
        insert_sorted(&mut v, obj);
        PointsToSet { objects: v }
    }

    /// The set with `obj` taken out.
    pub fn remove(&self, obj: &HeapObject) -> (r: Self)
        ensures
            forall|h: HeapView| r@.contains(h) <==> (self@.contains(h) && h != obj@),
    {
        proof { use_type_invariant(self); }
        let mut v: Vec<HeapObject> = Vec::new();
        let mut i: usize = 0;
        while i < self.objects.len()
            invariant
                i <= self@.len(),
                sorted_strict(self@),
                sorted_strict(heap_views(v@)),
                forall|h: HeapView| heap_views(v@).contains(h) <==> (self@.take(i as int).contains(h) && h != obj@),
            decreases self.objects.len() - i,
        {
            assert(self@[i as int] == self.objects@[i as int]@);
            let ghost before = heap_views(v@);
            if !same_object(&self.objects[i], obj) {
                insert_sorted(&mut v, self.objects[i].duplicate());
            }
            assert forall|h: HeapView| heap_views(v@).contains(h) <==> (self@.take(i + 1int).contains(h) && h != obj@) by {
                lemma_take_next_contains(self@, i as int, h);
            }
            i = i + 1;
        }
        assert(self@.take(self@.len() as int) =~= self@);
        PointsToSet { objects: v }
    }

    /// The objects in either set.
    pub fn union(&self, other: &Self) -> (r: Self)
        ensures
            forall|h: HeapView| r@.contains(h) <==> (self@.contains(h) || other@.contains(h)),
    {
        proof { use_type_invariant(self); }
        let mut v = copy_objects(&self.objects);
        let mut i: usize = 0;
        while i < other.objects.len()
            invariant
                i <= other@.len(),
                sorted_strict(heap_views(v@)),
                forall|h: HeapView| #![trigger heap_views(v@).contains(h)] heap_views(v@).contains(h) <==> (self@.contains(h) || other@.take(i as int).contains(h)),
            decreases other.objects.len() - i,
        {
            assert(other@[i as int] == other.objects@[i as int]@);
            let ghost before = heap_views(v@);
            let item = other.objects[i].duplicate();
            assert(item@ == other@[i as int]);
            insert_sorted(&mut v, item);
            assert forall|h: HeapView| heap_views(v@).contains(h) <==> (self@.contains(h) || other@.take(i + 1int).contains(h)) by {
                lemma_take_next_contains(other@, i as int, h);
                assert(before.contains(h) <==> (self@.contains(h) || other@.take(i as int).contains(h)));
                assert(heap_views(v@).contains(h) <==> (before.contains(h) || h == other@[i as int]));
            }
            i = i + 1;
        }
        assert(other@.take(other@.len() as int) =~= other@);
        PointsToSet { objects: v }
    }

    /// The objects in both sets.
    pub fn intersection(&self, other: &Self) -> (r: Self)
        ensures
            forall|h: HeapView| r@.contains(h) <==> (self@.contains(h) && other@.contains(h)),
    {
        self.filtered(other, true)
    }

    /// The objects of this set that are not in `other`.
    pub fn difference(&self, other: &Self) -> (r: Self)
        ensures
            forall|h: HeapView| r@.contains(h) <==> (self@.contains(h) && !other@.contains(h)),
    {
        self.filtered(other, false)
    }

    fn filtered(&self, other: &Self, keep_common: bool) -> (r: Self)
        ensures
            forall|h: HeapView| r@.contains(h) <==> (self@.contains(h) && (other@.contains(h) == keep_common)),
    {
        let mut v: Vec<HeapObject> = Vec::new();
        let mut i: usize = 0;
        while i < self.objects.len()
            invariant
                i <= self@.len(),
                sorted_strict(heap_views(v@)),
                forall|h: HeapView| #![trigger heap_views(v@).contains(h)] heap_views(v@).contains(h) <==> (self@.take(i as int).contains(h) && (other@.contains(h) == keep_common)),
            decreases self.objects.len() - i,
        {
            assert(self@[i as int] == self.objects@[i as int]@);
            let ghost before = heap_views(v@);
            let keep = other.contains(&self.objects[i]) == keep_common;
            if keep {
                let item = self.objects[i].duplicate();
                assert(item@ == self@[i as int]);
                insert_sorted(&mut v, item);
            }
            assert(keep == (other@.contains(self@[i as int]) == keep_common));
            assert(keep ==> forall|h: HeapView| heap_views(v@).contains(h) <==> (before.contains(h) || h == self@[i as int]));
            assert(!keep ==> heap_views(v@) == before);
            assert forall|h: HeapView| heap_views(v@).contains(h) <==> (self@.take(i + 1int).contains(h) && (other@.contains(h) == keep_common)) by {
                lemma_take_next_contains(self@, i as int, h);
                assert(before.contains(h) <==> (self@.take(i as int).contains(h) && (other@.contains(h) == keep_common)));
            }
            i = i + 1;
        }
        assert(self@.take(self@.len() as int) =~= self@);
        PointsToSet { objects: v }
    }

    /// Whether every object of this set is in `other`.
    pub fn is_subset(&self, other: &Self) -> (r: bool)
        ensures
            r == (forall|h: HeapView| self@.contains(h) ==> other@.contains(h)),
    {
        let mut i: usize = 0;
        while i < self.objects.len()
            invariant
                i <= self@.len(),
                forall|j: int| 0 <= j < i ==> other@.contains(#[trigger] self@[j]),
            decreases self.objects.len() - i,
        {
            assert(self@[i as int] == self.objects@[i as int]@);
            if !other.contains(&self.objects[i]) {
                assert(self@.contains(self@[i as int]));
                return false;
            }
            i = i + 1;
        }
        true
    }

    /// Whether two sets hold the same objects.
    pub fn same_set(&self, other: &Self) -> (r: bool)
        ensures
            r == (self@ == other@),
            r == (forall|h: HeapView| self@.contains(h) <==> other@.contains(h)),
    {
        proof {
            use_type_invariant(self);
            use_type_invariant(other);
            if forall|h: HeapView| self@.contains(h) <==> other@.contains(h) {
                lemma_sorted_canonical(self@, other@);
            }
        }
        let mut r = self.objects.len() == other.objects.len();
        let mut i: usize = 0;
        while r && i < self.objects.len()
            invariant
                r ==> self@.len() == other@.len(),
                i <= self@.len(),
                r ==> forall|j: int| 0 <= j < i ==> self@[j] == other@[j],
                !r ==> self@ != other@,
            decreases self.objects.len() - i,
        {
            assert(self@[i as int] == self.objects@[i as int]@);
            assert(other@[i as int] == other.objects@[i as int]@);
            if !same_object(&self.objects[i], &other.objects[i]) {
                r = false;
            }
            i = i + 1;
        }
        if r {
            assert(self@ =~= other@);
        }
        r
    }

    /// No object appears twice in the set.
    pub fn lemma_no_repeats(&self)
        ensures
            self@.no_duplicates(),
    {
        proof {
            use_type_invariant(self);
            assert forall|i: int, j: int| 0 <= i < self@.len() && 0 <= j < self@.len() && i != j implies self@[i] != self@[j] by {
                if i < j {
                    assert(lex_lt(heap_key(self@[i]), heap_key(self@[j])));
                } else {
                    assert(lex_lt(heap_key(self@[j]), heap_key(self@[i])));
                }
                lemma_lex_irreflexive(heap_key(self@[i]));
            }
        }
    }

    /// A copy of this set.
    pub fn duplicate(&self) -> (r: Self)
        ensures
            r@ == self@,
    {
        proof { use_type_invariant(self); }
        PointsToSet { objects: copy_objects(&self.objects) }
    }
}

impl Clone for PointsToSet {
    fn clone(&self) -> (r: Self)
        ensures
            r@ == self@,
    {
        self.duplicate()
    }
}

/// A copy of a sequence of heap objects.
fn copy_objects(v: &Vec<HeapObject>) -> (r: Vec<HeapObject>)
    ensures
        heap_views(r@) == heap_views(v@),
{
    let mut out: Vec<HeapObject> = Vec::new();
    let mut i: usize = 0;
    while i < v.len()
        invariant
            i <= v@.len(),
            heap_views(out@) == heap_views(v@).take(i as int),
        decreases v.len() - i,
    {
        let ghost prev = out@;
        out.push(v[i].duplicate());
        assert(heap_views(out@) =~= heap_views(prev).push(v@[i as int]@));
        assert(heap_views(v@).take(i + 1int) =~= heap_views(v@).take(i as int).push(v@[i as int]@));
        i = i + 1;
    }
    assert(heap_views(v@).take(v@.len() as int) =~= heap_views(v@));
    out
}

/// A location in the heap.
#[derive(Debug, Clone, PartialEq, Eq, Hash)]
pub enum HeapLocation {
    FieldAccess { base: HeapObject, field: String },
    IndexAccess { base: HeapObject, index: String },
    StaticField { class_name: String, field_name: String },
    UnknownHeap,
}

#[derive(Debug, Clone, Copy, PartialEq, Eq, PartialOrd, Ord, Hash, Structural)]
pub struct AliasClassId(pub u32);

#[derive(Debug, Clone, Copy, PartialEq, Eq, Hash, Structural)]
pub struct PointsToHooks {
    pub k_object_sens_depth: Option<u32>,
    pub escape_state: Option<u32>,
    pub cloned_heap_id: Option<u32>,
    pub heap_summary_id: Option<u32>,
}

} // verus!
