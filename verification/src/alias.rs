//! Flow-sensitive alias analysis: at each node of the interprocedural
//! graph, the heap objects each access path may point to.
use vstd::prelude::*;
use crate::accesspath::{AccessPath, PathRoot, PathView};
use crate::icfg::{preds_along, succs_along, IcfgEdge, IcfgEdgeKind, IcfgNode, InterproceduralFlowGraph};
use crate::ir::{Constant, InstructionId, InstructionKind, MethodId, Operand, Program, TypeId};
use crate::pointsto::{HeapObject, HeapView, PointsToSet};

verus! {
/// The first call site among predecessors reached along a call-to-return
/// edge.
pub open spec fn first_call_to_return(preds: Seq<(IcfgNode, IcfgEdgeKind)>) -> Option<InstructionId>
    decreases preds.len(),
{
    if preds.len() == 0 {
        None
    } else if preds[0].1 == IcfgEdgeKind::CallToReturn && preds[0].0 is Instruction {
        Some(preds[0].0->Instruction_0)
    } else {
        first_call_to_return(preds.drop_first())
    }
}

/// The first method whose body holds `inst`, with its type or type 0.
pub open spec fn enclosing_method(ms: Seq<crate::ir::Method>, inst: InstructionId) -> Option<(MethodId, TypeId)>
    decreases ms.len(),
{
    if ms.len() == 0 {
        None
    } else if ms[0].body@.contains(inst) {
        Some((ms[0].id, match ms[0].parent_type_id { Some(t) => t, None => TypeId(0) }))
    } else {
        enclosing_method(ms.drop_first(), inst)
    }
}


/// The objects of a points-to set.
pub open spec fn pts_set(s: PointsToSet) -> Set<HeapView> {
    s@.to_set()
}

/// The facts of an alias state, one per access path; a later entry for a
/// path stands in place of an earlier one.
pub open spec fn state_map(entries: Seq<(AccessPath, PointsToSet)>) -> Map<PathView, Set<HeapView>>
    decreases entries.len(),
{
    if entries.len() == 0 {
        Map::empty()
    } else {
        state_map(entries.drop_last()).insert(entries.last().0@, pts_set(entries.last().1))
    }
}

/// The paths of an alias state, in order.
pub open spec fn state_keys(entries: Seq<(AccessPath, PointsToSet)>) -> Seq<PathView> {
    entries.map_values(|e: (AccessPath, PointsToSet)| e.0@)
}

/// What an alias state says `ap` may point to: nothing when it says
/// nothing of `ap`.
pub open spec fn points_to(m: Map<PathView, Set<HeapView>>, ap: PathView) -> Set<HeapView> {
    if m.dom().contains(ap) { m[ap] } else { Set::empty() }
}

/// The points-to facts at one program point.
#[derive(Debug)]
pub struct AliasState {
    pub map: Vec<(AccessPath, PointsToSet)>,
}

impl AliasState {
    /// Each path has one entry.
    pub open spec fn wf(&self) -> bool {
        state_keys(self.map@).no_duplicates()
    }

    /// The facts of this state.
    pub open spec fn facts(&self) -> Map<PathView, Set<HeapView>> {
        state_map(self.map@)
    }

    /// The state with no fact.
    pub fn new() -> (r: Self)
        ensures
            r.wf(),
            r.facts() == Map::<PathView, Set<HeapView>>::empty(),
    {
        let r = AliasState { map: Vec::new() };
        assert(state_keys(r.map@) =~= Seq::<PathView>::empty());
        r
    }

    /// The position of the entry for `ap`, if any.
    fn find(&self, ap: &AccessPath) -> (r: Option<usize>)
        requires
            self.wf(),
        ensures
            match r {
                Some(i) => i < self.map@.len() && self.map@[i as int].0@ == ap@,
                None => !state_keys(self.map@).contains(ap@),
            },
    {
        let mut i: usize = 0;
        while i < self.map.len()
            invariant
                i <= self.map@.len(),
                forall|j: int| 0 <= j < i ==> (#[trigger] self.map@[j]).0@ != ap@,
            decreases self.map.len() - i,
        {
            if self.map[i].0.same_as(ap) {
                return Some(i);
            }
            i = i + 1;
        }
        proof {
            if state_keys(self.map@).contains(ap@) {
                let j = choose|j: int| 0 <= j < state_keys(self.map@).len() && state_keys(self.map@)[j] == ap@;
                assert(self.map@[j].0@ == ap@);
            }
        }
        None
    }

    /// The objects `ap` may point to; none when the state says nothing of it.
    pub fn lookup(&self, ap: &AccessPath) -> (r: PointsToSet)
        requires
            self.wf(),
        ensures
            pts_set(r) == points_to(self.facts(), ap@),
    {
        match self.find(ap) {
            Some(i) => {
                proof { lemma_state_map_at(self.map@, i as int); }
                self.map[i].1.duplicate()
            },
            None => {
                proof { lemma_state_map_absent(self.map@, ap@); }
                let r = PointsToSet::new();
                assert(pts_set(r) =~= Set::<HeapView>::empty());
                r
            },
        }
    }

    /// Sets what `ap` may point to, in place of what was said before.
    pub fn insert(&mut self, ap: AccessPath, pts: PointsToSet)
        requires
            old(self).wf(),
        ensures
            final(self).wf(),
            final(self).facts() == old(self).facts().insert(ap@, pts_set(pts)),
    {
        match self.find(&ap) {
            Some(i) => {
                let ghost before = self.map@;
                let ghost k = ap@;
                self.map.set(i, (ap, pts));
                proof {
                    assert(state_keys(self.map@) =~= state_keys(before));
                    lemma_state_map_update(before, i as int, (self.map@[i as int].0, self.map@[i as int].1));
                }
            },
            None => {
                let ghost before = self.map@;
                self.map.push((ap, pts));
                proof {
                    assert(state_keys(self.map@) =~= state_keys(before).push(self.map@.last().0@));
                    assert(self.map@.drop_last() =~= before);
                    lemma_push_no_dup(state_keys(before), self.map@.last().0@);
                }
            },
        }
    }
}

proof fn lemma_push_no_dup(s: Seq<PathView>, x: PathView)
    requires
        s.no_duplicates(),
        !s.contains(x),
    ensures
        s.push(x).no_duplicates(),
{
    assert forall|i: int, j: int| 0 <= i < s.push(x).len() && 0 <= j < s.push(x).len() && i != j implies s.push(x)[i] != s.push(x)[j] by {
        if i < s.len() && j < s.len() {
            assert(s.push(x)[i] == s[i] && s.push(x)[j] == s[j]);
        } else if i < s.len() {
            assert(s.push(x)[i] == s[i]);
            assert(s.contains(s[i]));
        } else if j < s.len() {
            assert(s.push(x)[j] == s[j]);
            assert(s.contains(s[j]));
        }
    }
}

/// With distinct paths, the entry at `i` gives the fact for its path.
proof fn lemma_state_map_at(entries: Seq<(AccessPath, PointsToSet)>, i: int)
    requires
        state_keys(entries).no_duplicates(),
        0 <= i < entries.len(),
    ensures
        state_map(entries).dom().contains(entries[i].0@),
        state_map(entries)[entries[i].0@] == pts_set(entries[i].1),
    decreases entries.len(),
{
    let last = entries.len() - 1;
    if i < last {
        let prefix = entries.drop_last();
        assert(state_keys(prefix) =~= state_keys(entries).drop_last());
        assert(state_keys(entries)[i] == entries[i].0@);
        assert(state_keys(entries)[last] == entries[last].0@);
        lemma_state_map_at(prefix, i);
        assert(prefix[i] == entries[i]);
    }
}

/// A path with no entry has no fact.
proof fn lemma_state_map_absent(entries: Seq<(AccessPath, PointsToSet)>, k: PathView)
    requires
        !state_keys(entries).contains(k),
    ensures
        !state_map(entries).dom().contains(k),
    decreases entries.len(),
{
    if entries.len() > 0 {
        let prefix = entries.drop_last();
        assert(state_keys(entries)[entries.len() - 1] == entries.last().0@);
        assert forall|j: int| 0 <= j < state_keys(prefix).len() implies state_keys(prefix)[j] != k by {
            assert(state_keys(prefix)[j] == state_keys(entries)[j]);
        }
        lemma_state_map_absent(prefix, k);
    }
}

/// Replacing the entry at `i` by one for the same path replaces its fact.
proof fn lemma_state_map_update(entries: Seq<(AccessPath, PointsToSet)>, i: int, e: (AccessPath, PointsToSet))
    requires
        state_keys(entries).no_duplicates(),
        0 <= i < entries.len(),
        e.0@ == entries[i].0@,
    ensures
        state_map(entries.update(i, e)) == state_map(entries).insert(e.0@, pts_set(e.1)),
    decreases entries.len(),
{
    let last = entries.len() - 1;
    let updated = entries.update(i, e);
    if i == last {
        assert(updated.drop_last() =~= entries.drop_last());
        assert(state_map(entries).insert(e.0@, pts_set(e.1)) =~= state_map(entries.drop_last()).insert(e.0@, pts_set(e.1)));
    } else {
        let prefix = entries.drop_last();
        assert(state_keys(prefix) =~= state_keys(entries).drop_last());
        assert(updated.drop_last() =~= prefix.update(i, e));
        lemma_state_map_update(prefix, i, e);
        assert(state_keys(entries)[i] == entries[i].0@);
        assert(state_keys(entries)[last] == entries[last].0@);
        assert(entries[last].0@ != e.0@);
        assert(state_map(updated) =~= state_map(entries).insert(e.0@, pts_set(e.1)));
    }
}

} // verus!

verus! {

impl AliasState {
    /// A copy of this state.
    pub fn duplicate(&self) -> (r: Self)
        requires
            self.wf(),
        ensures
            r.wf(),
            r.facts() == self.facts(),
            state_keys(r.map@) == state_keys(self.map@),
    {
        let mut out: Vec<(AccessPath, PointsToSet)> = Vec::new();
        let mut i: usize = 0;
        while i < self.map.len()
            invariant
                i <= self.map@.len(),
                state_keys(out@) == state_keys(self.map@.take(i as int)),
                state_map(out@) == state_map(self.map@.take(i as int)),
            decreases self.map.len() - i,
        {
            let ghost prev = out@;
            let ap = self.map[i].0.duplicate();
            let pts = self.map[i].1.duplicate();
            out.push((ap, pts));
            assert(out@.drop_last() =~= prev);
            assert(out@.last().0@ == self.map@[i as int].0@);
            assert(self.map@.take(i + 1int).drop_last() =~= self.map@.take(i as int));
            assert(state_keys(out@) =~= state_keys(prev).push(self.map@[i as int].0@));
            assert(state_keys(self.map@.take(i + 1int)) =~= state_keys(self.map@.take(i as int)).push(self.map@[i as int].0@));
            assert(pts_set(out@.last().1) =~= pts_set(self.map@[i as int].1));
            i = i + 1;
        }
        assert(self.map@.take(self.map@.len() as int) =~= self.map@);
        AliasState { map: out }
    }
}

/// Counters gathered while the analysis runs.
#[derive(Debug, Clone, Copy, PartialEq, Eq, Structural)]
pub struct AliasStats {
    pub iterations: usize,
    pub worklist_pushes: usize,
    pub worklist_pops: usize,
    pub strong_updates: usize,
    pub weak_updates: usize,
    pub alias_merges: usize,
    pub max_pts_size: usize,
}

impl Default for AliasStats {
    fn default() -> (r: Self)
        ensures
            r == (AliasStats { iterations: 0, worklist_pushes: 0, worklist_pops: 0, strong_updates: 0, weak_updates: 0, alias_merges: 0, max_pts_size: 0 }),
    {
        AliasStats { iterations: 0, worklist_pushes: 0, worklist_pops: 0, strong_updates: 0, weak_updates: 0, alias_merges: 0, max_pts_size: 0 }
    }
}

/// The facts of the join of two states: each path may point to what it may
/// point to in either.
pub open spec fn join_facts(a: Map<PathView, Set<HeapView>>, b: Map<PathView, Set<HeapView>>) -> Map<PathView, Set<HeapView>> {
    Map::new(
        |k: PathView| a.dom().contains(k) || b.dom().contains(k),
        |k: PathView| points_to(a, k).union(points_to(b, k)),
    )
}

/// Joining is commutative: `a` joined with `b` says of each path what `b`
/// joined with `a` says.
pub proof fn law_join_commutes(a: Map<PathView, Set<HeapView>>, b: Map<PathView, Set<HeapView>>)
    ensures
        join_facts(a, b) == join_facts(b, a),
{
    assert forall|k: PathView| #[trigger] join_facts(a, b).dom().contains(k) implies join_facts(a, b)[k] == join_facts(b, a)[k] by {
        assert(points_to(a, k).union(points_to(b, k)) =~= points_to(b, k).union(points_to(a, k)));
    }
    assert(join_facts(a, b) =~= join_facts(b, a));
}

/// Joining is a union per path: the joined facts speak of the paths either
/// side speaks of, and a path may point to what it may point to on either side.
pub proof fn law_join_is_union(a: Map<PathView, Set<HeapView>>, b: Map<PathView, Set<HeapView>>, ap: PathView)
    ensures
        join_facts(a, b).dom() == a.dom().union(b.dom()),
        points_to(join_facts(a, b), ap) == points_to(a, ap).union(points_to(b, ap)),
{
    assert(join_facts(a, b).dom() =~= a.dom().union(b.dom()));
    if !join_facts(a, b).dom().contains(ap) {
        assert(points_to(a, ap).union(points_to(b, ap)) =~= Set::<HeapView>::empty());
    }
}

/// Whether the entry of `state_b` for `ap` with objects `pts` adds to what
/// `a` says: `a` says nothing of `ap`, or not all of those objects.
pub open spec fn adds_to(a: Map<PathView, Set<HeapView>>, ap: PathView, pts: Set<HeapView>) -> bool {
    !a.dom().contains(ap) || !pts.subset_of(a[ap])
}

/// How many entries of `entries` add to what `a` says.
pub open spec fn merge_count(a: Map<PathView, Set<HeapView>>, entries: Seq<(AccessPath, PointsToSet)>) -> nat
    decreases entries.len(),
{
    if entries.len() == 0 {
        0
    } else {
        merge_count(a, entries.drop_last()) + if adds_to(a, entries.last().0@, pts_set(entries.last().1)) { 1nat } else { 0nat }
    }
}

/// `x + y`, held at `usize::MAX`.
pub open spec fn sat_add(x: int, y: int) -> int {
    if x + y > usize::MAX { usize::MAX as int } else { x + y }
}

/// Joins two states; the number of paths of `state_b` that added to the
/// result is added, saturating, to the merge count of `stats`.
pub fn join(state_a: &AliasState, state_b: &AliasState, stats: Option<&mut AliasStats>) -> (r: AliasState)
    requires
        state_a.wf(),
        state_b.wf(),
    ensures
        r.wf(),
        r.facts() == join_facts(state_a.facts(), state_b.facts()),
        match stats {
            Some(st) => {
                &&& final(st).alias_merges == sat_add((*st).alias_merges as int,
                    if merge_count(state_a.facts(), state_b.map@) > usize::MAX { usize::MAX as int } else { merge_count(state_a.facts(), state_b.map@) as int })
                &&& final(st).iterations == (*st).iterations
                &&& final(st).worklist_pushes == (*st).worklist_pushes
                &&& final(st).worklist_pops == (*st).worklist_pops
                &&& final(st).strong_updates == (*st).strong_updates
                &&& final(st).weak_updates == (*st).weak_updates
                &&& final(st).max_pts_size == (*st).max_pts_size
            },
            None => true,
        },
{
    let mut out = state_a.duplicate();
    let mut merged: usize = 0;
    let mut i: usize = 0;
    proof {
        let a = state_a.facts();
        assert(state_map(state_b.map@.take(0)) =~= Map::<PathView, Set<HeapView>>::empty());
        assert forall|k: PathView| a.dom().contains(k) implies #[trigger] points_to(a, k).union(Set::empty()) == a[k] by {
            assert(points_to(a, k).union(Set::empty()) =~= a[k]);
        }
        assert(out.facts() =~= join_facts(a, Map::<PathView, Set<HeapView>>::empty()));
    }
    while i < state_b.map.len()
        invariant
            out.wf(),
            state_b.wf(),
            i <= state_b.map@.len(),
            out.facts() == join_facts(state_a.facts(), state_map(state_b.map@.take(i as int))),
            merged == (if merge_count(state_a.facts(), state_b.map@.take(i as int)) > usize::MAX { usize::MAX as int }
                else { merge_count(state_a.facts(), state_b.map@.take(i as int)) as int }),
        decreases state_b.map.len() - i,
    {
        let ap = &state_b.map[i].0;
        let b_pts = &state_b.map[i].1;
        let ghost before = out.facts();
        let found = out.find(ap);
        let a_pts = out.lookup(ap);
        proof {
            let kb = state_keys(state_b.map@);
            assert(kb[i as int] == ap@);
            assert forall|j: int| 0 <= j < state_keys(state_b.map@.take(i as int)).len()
                implies state_keys(state_b.map@.take(i as int))[j] != ap@ by {
                assert(state_keys(state_b.map@.take(i as int))[j] == kb[j]);
            }
            lemma_state_map_absent(state_b.map@.take(i as int), ap@);
            assert(state_b.map@.take(i + 1int).drop_last() =~= state_b.map@.take(i as int));
        }
        let union_pts = a_pts.union(b_pts);
        assert(pts_set(union_pts) =~= pts_set(a_pts).union(pts_set(*b_pts)));
        a_pts.lemma_no_repeats();
        union_pts.lemma_no_repeats();
        proof {
            let a = state_a.facts();
            let t1 = state_b.map@.take(i + 1int);
            assert(t1.drop_last() =~= state_b.map@.take(i as int));
            assert(t1.last() == state_b.map@[i as int]);
            // What `out` says of `ap` is what `state_a` says.
            assert(!state_map(state_b.map@.take(i as int)).dom().contains(ap@));
            assert(out.facts().dom().contains(ap@) == a.dom().contains(ap@));
            assert(pts_set(a_pts) == points_to(a, ap@));
            a_pts@.unique_seq_to_set();
            union_pts@.unique_seq_to_set();
            if a.dom().contains(ap@) && pts_set(*b_pts).subset_of(a[ap@]) {
                assert(pts_set(union_pts) =~= pts_set(a_pts));
            }
            match found {
                Some(fi) => { lemma_state_map_at(out.map@, fi as int); },
                None => { lemma_state_map_absent(out.map@, ap@); },
            }
            if found.is_some() && !(union_pts@.len() > a_pts@.len()) {
                vstd::seq_lib::seq_to_set_is_finite(a_pts@);
                vstd::seq_lib::seq_to_set_is_finite(union_pts@);
                vstd::set_lib::lemma_len_subset(pts_set(a_pts), pts_set(union_pts));
                vstd::set_lib::lemma_subset_equality(pts_set(a_pts), pts_set(union_pts));
                assert(pts_set(*b_pts).subset_of(pts_set(union_pts)));
            }
            assert(adds_to(a, ap@, pts_set(*b_pts)) == (union_pts@.len() > a_pts@.len() || found.is_none()));
            assert(merge_count(a, t1) == merge_count(a, state_b.map@.take(i as int))
                + if adds_to(a, ap@, pts_set(*b_pts)) { 1nat } else { 0nat });
        }
        if union_pts.len() > a_pts.len() || found.is_none() {
            out.insert(ap.duplicate(), union_pts);
            if merged < usize::MAX {
                merged = merged + 1;
            }
        } else {
            a_pts.lemma_no_repeats();
            union_pts.lemma_no_repeats();
            proof {
                let i_f = found->0;
                lemma_state_map_at(out.map@, i_f as int);
                a_pts@.unique_seq_to_set();
                union_pts@.unique_seq_to_set();
                vstd::seq_lib::seq_to_set_is_finite(a_pts@);
                vstd::seq_lib::seq_to_set_is_finite(union_pts@);
                vstd::set_lib::lemma_len_subset(pts_set(a_pts), pts_set(union_pts));
                vstd::set_lib::lemma_subset_equality(pts_set(a_pts), pts_set(union_pts));
            }
        }
        proof {
            let a = state_a.facts();
            let m1 = state_map(state_b.map@.take(i + 1int));
            let target = join_facts(a, m1);
            assert forall|k: PathView| target.dom().contains(k) implies #[trigger] out.facts()[k] == target[k] by {
                if k != ap@ {
                    assert(points_to(before, k) == points_to(a, k).union(points_to(state_map(state_b.map@.take(i as int)), k)));
                } else {
                    assert(out.facts()[k] =~= target[k]);
                }
            }
        }
        assert(out.facts() =~= join_facts(state_a.facts(), state_map(state_b.map@.take(i + 1int))));
        i = i + 1;
    }
    assert(state_b.map@.take(state_b.map@.len() as int) =~= state_b.map@);
    match stats {
        Some(s) => {
            if merged > 0 {
                s.alias_merges = s.alias_merges.saturating_add(merged);
            }
        },
        None => {},
    }
    out
}

} // verus!

verus! {

/// The access path an operand stands for: its variable, its temporary, or
/// the debug text of its constant.
pub open spec fn operand_path(op: Operand) -> PathView {
    match op {
        Operand::Var(name) => PathView { root: crate::accesspath::RootView::Local(name@), segments: Seq::empty(), hooks: None },
        Operand::Temp(id) => PathView { root: crate::accesspath::RootView::Temp(id), segments: Seq::empty(), hooks: None },
        Operand::Const(c) => PathView {
            root: crate::accesspath::RootView::Constant(crate::ir::constant_debug_text(c@)),
            segments: Seq::empty(),
            hooks: None,
        },
    }
}

/// The access path an operand stands for.
pub fn operand_to_access_path(op: &Operand) -> (r: AccessPath)
    ensures
        r@ == operand_path(*op),
{
    match op {
        Operand::Var(name) => AccessPath::new(PathRoot::Local(name.clone())),
        Operand::Temp(id) => AccessPath::new(PathRoot::Temp(*id)),
        Operand::Const(c) => AccessPath::new(PathRoot::Constant(crate::ir::debug_text_of(c))),
    }
}

/// The facts at `node` among `states`: those of its first entry, if any.
pub open spec fn node_facts(states: Seq<(IcfgNode, AliasState)>, node: IcfgNode) -> Map<PathView, Set<HeapView>>
    decreases states.len(),
{
    if states.len() == 0 {
        Map::empty()
    } else if states[0].0 == node {
        states[0].1.facts()
    } else {
        node_facts(states.drop_first(), node)
    }
}

/// Whether `states` holds an entry for `node`.
pub open spec fn has_state(states: Seq<(IcfgNode, AliasState)>, node: IcfgNode) -> bool {
    exists|i: int| 0 <= i < states.len() && (#[trigger] states[i]).0 == node
}

/// Whether every method entry that starts an edge is queued or has a state.
pub open spec fn entries_covered(edges: Seq<crate::icfg::IcfgEdge>, queued: Seq<IcfgNode>, states: Seq<(IcfgNode, AliasState)>) -> bool {
    forall|k: int| 0 <= k < edges.len() && (#[trigger] edges[k]).from is Entry
        ==> queued.contains(edges[k].from) || has_state(states, edges[k].from)
}

/// Whether every state of `states` is well formed.
pub open spec fn states_wf(states: Seq<(IcfgNode, AliasState)>) -> bool {
    forall|i: int| 0 <= i < states.len() ==> (#[trigger] states[i]).1.wf()
}

/// The alias facts after each node, and the counters of the run.
#[derive(Debug)]
pub struct AliasResult {
    pub states: Vec<(IcfgNode, AliasState)>,
    pub stats: AliasStats,
}

impl AliasResult {
    /// The objects `ap` may point to after `node`.
    pub fn lookup(&self, node: &IcfgNode, ap: &AccessPath) -> (r: PointsToSet)
        requires
            states_wf(self.states@),
        ensures
            pts_set(r) == points_to(node_facts(self.states@, *node), ap@),
    {
        let mut i: usize = 0;
        assert(self.states@.skip(0) =~= self.states@);
        while i < self.states.len()
            invariant
                i <= self.states@.len(),
                states_wf(self.states@),
                node_facts(self.states@, *node) == node_facts(self.states@.skip(i as int), *node),
            decreases self.states.len() - i,
        {
            assert(self.states@.skip(i as int)[0] == self.states@[i as int]);
            assert(self.states@.skip(i as int).drop_first() =~= self.states@.skip(i + 1int));
            if self.states[i].0 == *node {
                return self.states[i].1.lookup(ap);
            }
            i = i + 1;
        }
        assert(self.states@.skip(i as int) =~= Seq::<(IcfgNode, AliasState)>::empty());
        let r = PointsToSet::new();
        assert(pts_set(r) =~= Set::<HeapView>::empty());
        r
    }

    /// Whether `ap1` and `ap2` may point to a common object after `node`.
    pub fn may_alias(&self, node: &IcfgNode, ap1: &AccessPath, ap2: &AccessPath) -> (r: bool)
        requires
            states_wf(self.states@),
        ensures
            r == exists|h: HeapView| #[trigger] points_to(node_facts(self.states@, *node), ap1@).contains(h)
                && points_to(node_facts(self.states@, *node), ap2@).contains(h),
    {
        let pts1 = self.lookup(node, ap1);
        let pts2 = self.lookup(node, ap2);
        let both = pts1.intersection(&pts2);
        let r = !both.is_empty();
        proof {
            if r {
                let h = both@[0];
                assert(both@.contains(h));
                assert(pts1@.contains(h) && pts2@.contains(h));
                assert(pts_set(pts1).contains(h) && pts_set(pts2).contains(h));
                assert(points_to(node_facts(self.states@, *node), ap1@).contains(h));
            } else {
                assert forall|h: HeapView| !(#[trigger] pts_set(pts1).contains(h) && pts_set(pts2).contains(h)) by {
                    if pts_set(pts1).contains(h) && pts_set(pts2).contains(h) {
                        assert(both@.contains(h));
                    }
                }
            }
        }
        r
    }

    /// Whether `ap1` and `ap2` point, after `node`, to one and the same
    /// single object.
    pub fn must_alias(&self, node: &IcfgNode, ap1: &AccessPath, ap2: &AccessPath) -> (r: bool)
        requires
            states_wf(self.states@),
        ensures
            r == (points_to(node_facts(self.states@, *node), ap1@).len() == 1
                && points_to(node_facts(self.states@, *node), ap1@) == points_to(node_facts(self.states@, *node), ap2@)),
    {
        let pts1 = self.lookup(node, ap1);
        let pts2 = self.lookup(node, ap2);
        pts1.lemma_no_repeats();
        pts2.lemma_no_repeats();
        proof {
            pts1@.unique_seq_to_set();
            pts2@.unique_seq_to_set();
        }
        if pts1.len() == 1 && pts2.len() == 1 {
            let same = pts1.same_set(&pts2);
            proof {
                if !same {
                    assert(pts1@ != pts2@);
                    assert(pts1@ =~= seq![pts1@[0]]);
                    assert(pts2@ =~= seq![pts2@[0]]);
                    assert(pts_set(pts1).contains(pts1@[0]));
                    if pts_set(pts1) == pts_set(pts2) {
                        assert(pts_set(pts2).contains(pts1@[0]));
                        assert(pts1@[0] == pts2@[0]);
                    }
                }
            }
            same
        } else {
            false
        }
    }
}

} // verus!

verus! {

/// The object context an alias analysis may run under.
#[derive(Debug, Clone, PartialEq, Eq, Hash)]
pub struct ObjectContext {
    pub context_id: Option<u32>,
    pub object_context: Option<String>,
    pub heap_clone_id: Option<u32>,
}

/// The access path of field `field` of a heap object: rooted at its
/// allocation site, at its name, or at the unknown root.
pub fn heap_object_field_ap(obj: &HeapObject, field: &str) -> (r: AccessPath)
    ensures
        r@.segments == seq![crate::accesspath::SegmentView::Field(field@)],
        r@.hooks is None,
        r@.root == match *obj {
            HeapObject::Allocation { site_id, .. } => crate::accesspath::RootView::Alloc(site_id),
            HeapObject::Synthetic { name, .. } => crate::accesspath::RootView::Local(name@),
            HeapObject::Unknown => crate::accesspath::RootView::Unknown,
        },
{
    let root = match obj {
        HeapObject::Allocation { site_id, .. } => PathRoot::Alloc(*site_id),
        HeapObject::Synthetic { name, .. } => PathRoot::Local(name.clone()),
        HeapObject::Unknown => PathRoot::Unknown,
    };
    let r = AccessPath::new(root).append_field(field.to_string());
    assert(r@.segments =~= seq![crate::accesspath::SegmentView::Field(field@)]);
    r
}

/// The access path of field `field` of the heap object `h`.
pub open spec fn field_path(h: HeapView, field: Seq<char>) -> PathView {
    PathView {
        root: match h {
            HeapView::Allocation { site_id, .. } => crate::accesspath::RootView::Alloc(site_id),
            HeapView::Synthetic { name, .. } => crate::accesspath::RootView::Local(name),
            HeapView::Unknown => crate::accesspath::RootView::Unknown,
        },
        segments: seq![crate::accesspath::SegmentView::Field(field)],
        hooks: None,
    }
}

/// What field `field` of any of `objs` may point to.
pub open spec fn load_set(m: Map<PathView, Set<HeapView>>, objs: Set<HeapView>, field: Seq<char>) -> Set<HeapView> {
    Set::new(|h: HeapView| exists|o: HeapView| objs.contains(o) && #[trigger] points_to(m, field_path(o, field)).contains(h))
}

/// Whether `key` is field `field` of one of `objs`.
pub open spec fn stored_key(objs: Set<HeapView>, field: Seq<char>, key: PathView) -> bool {
    exists|o: HeapView| objs.contains(o) && #[trigger] field_path(o, field) == key
}

/// The facts after storing `src` into field `field` of each of `objs`: each
/// such field keeps what it pointed to and gains `src`.
pub open spec fn store_map(m: Map<PathView, Set<HeapView>>, objs: Set<HeapView>, field: Seq<char>, src: Set<HeapView>) -> Map<PathView, Set<HeapView>> {
    Map::new(
        |key: PathView| m.dom().contains(key) || stored_key(objs, field, key),
        |key: PathView| if stored_key(objs, field, key) { points_to(m, key).union(src) } else { m[key] },
    )
}

/// The object an allocation at `site` makes, in the method and type given.
pub open spec fn alloc_object(site: InstructionId, mt: Option<(MethodId, TypeId)>) -> HeapView {
    let (method_id, type_id) = match mt {
        Some(x) => x,
        None => (MethodId(0), TypeId(0)),
    };
    HeapView::Allocation { site_id: site, method_id, type_id, context: None }
}

/// The facts after `node` when `m` holds before it.
pub open spec fn transfer_facts(p: Program, node: IcfgNode, m: Map<PathView, Set<HeapView>>) -> Map<PathView, Set<HeapView>> {
    match node {
        IcfgNode::Instruction(id) => match p.instruction_index(id) {
            Some(k) => match p.instructions@[k].kind {
                InstructionKind::Alloc { dest, .. } =>
                    m.insert(operand_path(dest), set![alloc_object(id, enclosing_method(p.methods@, id))]),
                InstructionKind::Assign { dest, src } =>
                    m.insert(operand_path(dest), points_to(m, operand_path(src))),
                InstructionKind::HeapLoad { dest, base, field } =>
                    m.insert(operand_path(dest), load_set(m, points_to(m, operand_path(base)), field@)),
                InstructionKind::HeapStore { base, field, src } =>
                    store_map(m, points_to(m, operand_path(base)), field@, points_to(m, operand_path(src))),
                _ => m,
            },
            None => m,
        },
        _ => m,
    }
}

/// The path of the local variable `name`.
pub open spec fn local_path(name: Seq<char>) -> PathView {
    PathView { root: crate::accesspath::RootView::Local(name), segments: Seq::empty(), hooks: None }
}

/// The facts a call hands to the first `n` parameters: each gets what its
/// actual argument points to, the arguments shifted by one when there are
/// more of them than parameters.
pub open spec fn call_facts(m: Map<PathView, Set<HeapView>>, args: Seq<Operand>, params: Seq<String>, n: int) -> Map<PathView, Set<HeapView>>
    decreases n,
{
    if n <= 0 {
        Map::empty()
    } else {
        let prev = call_facts(m, args, params, n - 1);
        let offset: int = if args.len() > params.len() { 1 } else { 0 };
        if n - 1 + offset < args.len() {
            prev.insert(local_path(params[n - 1]@), points_to(m, operand_path(args[n - 1 + offset])))
        } else {
            prev
        }
    }
}

/// What the returned values of the instructions of `body` may point to.
pub open spec fn return_set(p: Program, m: Map<PathView, Set<HeapView>>, body: Seq<InstructionId>) -> Set<HeapView>
    decreases body.len(),
{
    if body.len() == 0 {
        Set::empty()
    } else {
        let prev = return_set(p, m, body.drop_last());
        match p.instruction_index(body.last()) {
            Some(k) => match p.instructions@[k].kind {
                InstructionKind::Return { val: Some(op) } => prev.union(points_to(m, operand_path(op))),
                _ => prev,
            },
            None => prev,
        }
    }
}

/// The instruction of the program at `id`, if any.
pub open spec fn inst_of(p: Program, id: InstructionId) -> Option<crate::ir::Instruction> {
    match p.instruction_index(id) {
        Some(k) => Some(p.instructions@[k]),
        None => None,
    }
}

/// The method of the program with `id`, if any.
pub open spec fn method_of(p: Program, id: MethodId) -> Option<crate::ir::Method> {
    match p.method_index(id) {
        Some(k) => Some(p.methods@[k]),
        None => None,
    }
}

/// The facts carried along an edge of kind `kind` from `from` to `to`
/// when `m` holds after `from`: a call edge binds the callee's parameters;
/// a return edge binds the call's destination to what the callee returns;
/// a call-to-return edge keeps all but the call's destination; any other
/// edge keeps all. `ret_call` is the call site that the return site comes
/// back to.
pub open spec fn edge_facts(p: Program, ret_call: Option<InstructionId>, from: IcfgNode, to: IcfgNode, kind: IcfgEdgeKind, m: Map<PathView, Set<HeapView>>) -> Map<PathView, Set<HeapView>> {
    match kind {
        IcfgEdgeKind::Call => match (from, to) {
            (IcfgNode::Instruction(call_id), IcfgNode::Entry(callee_id)) => match (inst_of(p, call_id), method_of(p, callee_id)) {
                (Some(inst), Some(callee)) => match inst.kind {
                    InstructionKind::Call { args, .. } =>
                        call_facts(m, args@, callee.parameters@, callee.parameters@.len() as int),
                    _ => Map::empty(),
                },
                _ => Map::empty(),
            },
            _ => Map::empty(),
        },
        IcfgEdgeKind::Return => match (from, to) {
            (IcfgNode::Exit(callee_id), IcfgNode::Instruction(_)) => match ret_call {
                Some(call_id) => match (inst_of(p, call_id), method_of(p, callee_id)) {
                    (Some(inst), Some(callee)) => match inst.kind {
                        InstructionKind::Call { dest: Some(d), .. } =>
                            Map::empty().insert(operand_path(d), return_set(p, m, callee.body@)),
                        _ => Map::empty(),
                    },
                    _ => Map::empty(),
                },
                None => Map::empty(),
            },
            _ => Map::empty(),
        },
        IcfgEdgeKind::CallToReturn => match from {
            IcfgNode::Instruction(call_id) => match inst_of(p, call_id) {
                Some(inst) => match inst.kind {
                    InstructionKind::Call { dest: Some(d), .. } => m.remove(operand_path(d)),
                    _ => m,
                },
                None => Map::empty(),
            },
            _ => Map::empty(),
        },
        _ => m,
    }
}

/// A flow-sensitive alias analysis over a program's interprocedural graph.
pub struct AliasEngine<'a> {
    pub program: &'a Program,
    pub icfg: &'a InterproceduralFlowGraph,
    pub object_context: Option<ObjectContext>,
}

/// Whether `v` holds `n`.
fn holds_node(v: &Vec<IcfgNode>, n: IcfgNode) -> (r: bool)
    ensures
        r == v@.contains(n),
{
    let mut i: usize = 0;
    while i < v.len()
        invariant
            i <= v@.len(),
            forall|j: int| 0 <= j < i ==> v@[j] != n,
        decreases v.len() - i,
    {
        if v[i] == n {
            assert(v@[i as int] == n);
            return true;
        }
        i = i + 1;
    }
    false
}

/// Whether two states say the same, path by path.
fn same_state(a: &AliasState, b: &AliasState) -> (r: bool)
    requires
        a.wf(),
        b.wf(),
    ensures
        r == (a.facts() == b.facts()),
{
    if a.map.len() != b.map.len() {
        proof {
            lemma_state_map_dom(a.map@);
            lemma_state_map_dom(b.map@);
            state_keys(a.map@).unique_seq_to_set();
            state_keys(b.map@).unique_seq_to_set();
            if a.facts() == b.facts() {
                assert(state_keys(a.map@).to_set() == state_keys(b.map@).to_set());
                assert(state_keys(a.map@).len() == a.map@.len());
                assert(state_keys(b.map@).len() == b.map@.len());
            }
        }
        return false;
    }
    let mut i: usize = 0;
    while i < a.map.len()
        invariant
            a.wf(),
            b.wf(),
            i <= a.map@.len(),
            a.map@.len() == b.map@.len(),
            forall|j: int| 0 <= j < i ==> b.facts().dom().contains(#[trigger] a.map@[j].0@)
                && b.facts()[a.map@[j].0@] == pts_set(a.map@[j].1),
        decreases a.map.len() - i,
    {
        let other = b.lookup(&a.map[i].0);
        proof { lemma_state_map_at(a.map@, i as int); }
        match b.find(&a.map[i].0) {
            Some(k) => {
                proof { lemma_state_map_at(b.map@, k as int); }
            },
            None => {
                proof {
                    lemma_state_map_dom(b.map@);
                    assert(!b.facts().dom().contains(a.map@[i as int].0@));
                }
                return false;
            },
        }
        if !other.same_set(&a.map[i].1) {
            proof {
                let h = choose|h: HeapView| !(other@.contains(h) <==> a.map@[i as int].1@.contains(h));
                assert(pts_set(other).contains(h) != pts_set(a.map@[i as int].1).contains(h));
                assert(b.facts()[a.map@[i as int].0@] == pts_set(other));
            }
            return false;
        }
        i = i + 1;
    }
    proof {
        lemma_same_entries_same_facts(a.map@, b.map@);
    }
    true
}

/// Two states with distinct paths, the same number of entries, and the
/// facts of each entry of the first in the second, say the same.
proof fn lemma_same_entries_same_facts(a: Seq<(AccessPath, PointsToSet)>, b: Seq<(AccessPath, PointsToSet)>)
    requires
        state_keys(a).no_duplicates(),
        state_keys(b).no_duplicates(),
        a.len() == b.len(),
        forall|j: int| 0 <= j < a.len() ==> state_map(b).dom().contains(#[trigger] a[j].0@)
            && state_map(b)[a[j].0@] == pts_set(a[j].1),
    ensures
        state_map(a) == state_map(b),
{
    let ma = state_map(a);
    let mb = state_map(b);
    lemma_state_map_dom(a);
    lemma_state_map_dom(b);
    let ka = state_keys(a).to_set();
    let kb = state_keys(b).to_set();
    assert forall|k: PathView| ka.contains(k) implies kb.contains(k) by {
        let j = choose|j: int| 0 <= j < state_keys(a).len() && state_keys(a)[j] == k;
        assert(a[j].0@ == k);
    }
    state_keys(a).unique_seq_to_set();
    state_keys(b).unique_seq_to_set();
    vstd::seq_lib::seq_to_set_is_finite(state_keys(a));
    vstd::seq_lib::seq_to_set_is_finite(state_keys(b));
    vstd::set_lib::lemma_subset_equality(ka, kb);
    assert forall|k: PathView| ma.dom().contains(k) implies ma[k] == mb[k] by {
        let j = choose|j: int| 0 <= j < state_keys(a).len() && state_keys(a)[j] == k;
        assert(a[j].0@ == k);
        lemma_state_map_at(a, j);
    }
    assert(ma =~= mb);
}

/// The paths of an alias state are the paths it has facts for.
proof fn lemma_state_map_dom(entries: Seq<(AccessPath, PointsToSet)>)
    ensures
        state_map(entries).dom() == state_keys(entries).to_set(),
    decreases entries.len(),
{
    if entries.len() > 0 {
        lemma_state_map_dom(entries.drop_last());
        assert(state_keys(entries.drop_last()) =~= state_keys(entries).drop_last());
        assert forall|k: PathView| state_keys(entries).to_set().contains(k) <==> state_map(entries).dom().contains(k) by {
            if state_keys(entries).contains(k) {
                let j = choose|j: int| 0 <= j < state_keys(entries).len() && state_keys(entries)[j] == k;
                if j < entries.len() - 1 {
                    assert(state_keys(entries.drop_last())[j] == k);
                }
            }
            if state_keys(entries.drop_last()).contains(k) {
                let j = choose|j: int| 0 <= j < state_keys(entries.drop_last()).len() && state_keys(entries.drop_last())[j] == k;
                assert(state_keys(entries)[j] == k);
            }
            assert(state_keys(entries)[entries.len() - 1] == entries.last().0@);
        }
        assert(state_map(entries).dom() =~= state_keys(entries).to_set());
    } else {
        assert(state_map(entries).dom() =~= state_keys(entries).to_set());
    }
}

} // verus!

verus! {

impl<'a> AliasEngine<'a> {
    /// An engine over `program` and `icfg`, with no object context.
    pub fn new(program: &'a Program, icfg: &'a InterproceduralFlowGraph) -> (r: Self)
        ensures
            r.program == program,
            r.icfg == icfg,
            r.object_context is None,
    {
        AliasEngine { program, icfg, object_context: None }
    }

    /// The call site whose call-to-return edge leads to `ret`, if any: the
    /// first such predecessor.
    fn find_callsite_for_return_site(&self, ret: InstructionId) -> (r: Option<InstructionId>)
        ensures
            r == first_call_to_return(preds_along(self.icfg.edges@, IcfgNode::Instruction(ret))),
    {
        let preds = self.icfg.predecessors(IcfgNode::Instruction(ret));
        let mut i: usize = 0;
        assert(preds@.skip(0) =~= preds@);
        while i < preds.len()
            invariant
                i <= preds@.len(),
                preds@ == preds_along(self.icfg.edges@, IcfgNode::Instruction(ret)),
                first_call_to_return(preds@) == first_call_to_return(preds@.skip(i as int)),
            decreases preds.len() - i,
        {
            assert(preds@.skip(i as int)[0] == preds@[i as int]);
            assert(preds@.skip(i as int).drop_first() =~= preds@.skip(i + 1int));
            if preds[i].1 == IcfgEdgeKind::CallToReturn {
                match preds[i].0 {
                    IcfgNode::Instruction(call_id) => {
                        assert(preds@[i as int].0 == IcfgNode::Instruction(call_id));
                        assert(preds@[i as int].1 == IcfgEdgeKind::CallToReturn);
                        assert(first_call_to_return(preds@.skip(i as int)) == Some(call_id));
                        return Some(call_id);
                    },
                    _ => {},
                }
            }
            i = i + 1;
        }
        None
    }

    /// The first method whose body holds `inst`, with its type (or type 0).
    fn find_enclosing_method_and_type(&self, inst: InstructionId) -> (r: Option<(MethodId, TypeId)>)
        ensures
            r == enclosing_method(self.program.methods@, inst),
    {
        let p = self.program;
        let mut i: usize = 0;
        assert(p.methods@.skip(0) =~= p.methods@);
        while i < p.methods.len()
            invariant
                i <= p.methods@.len(),
                p == self.program,
                enclosing_method(p.methods@, inst) == enclosing_method(p.methods@.skip(i as int), inst),
            decreases p.methods.len() - i,
        {
            assert(p.methods@.skip(i as int)[0] == p.methods@[i as int]);
            assert(p.methods@.skip(i as int).drop_first() =~= p.methods@.skip(i + 1int));
            let m = &p.methods[i];
            let mut j: usize = 0;
            while j < m.body.len()
                invariant
                    j <= m.body@.len(),
                    i < p.methods@.len(),
                    p == self.program,
                    *m == p.methods@[i as int],
                    p.methods@.skip(i as int)[0] == p.methods@[i as int],
                    enclosing_method(p.methods@, inst) == enclosing_method(p.methods@.skip(i as int), inst),
                    forall|k: int| 0 <= k < j ==> m.body@[k] != inst,
                decreases m.body.len() - j,
            {
                if m.body[j] == inst {
                    assert(m.body@.contains(inst));
                    let t = match m.parent_type_id {
                        Some(t) => t,
                        None => TypeId(0),
                    };
                    return Some((m.id, t));
                }
                j = j + 1;
            }
            assert(!m.body@.contains(inst));
            i = i + 1;
        }
        None
    }

    /// The state carried along an edge: arguments bound to parameters on a
    /// call, the returned objects bound to the call's destination on a
    /// return, everything but the destination on a call-to-return edge,
    /// and the state itself otherwise.
    fn propagate_edge(&self, from: IcfgNode, to: IcfgNode, kind: IcfgEdgeKind, state: &AliasState) -> (r: AliasState)
        requires
            state.wf(),
            self.program.wf(),
        ensures
            r.wf(),
            r.facts() == edge_facts(*self.program,
                match to {
                    IcfgNode::Instruction(ret) => first_call_to_return(preds_along(self.icfg.edges@, IcfgNode::Instruction(ret))),
                    _ => None,
                },
                from, to, kind, state.facts()),
    {
        let p = self.program;
        let ghost m = state.facts();
        let mut out = AliasState::new();
        match kind {
            IcfgEdgeKind::Call => {
                match (from, to) {
                    (IcfgNode::Instruction(call_id), IcfgNode::Entry(callee_id)) => {
                        match p.instruction(call_id) {
                            Some(inst) => match &inst.kind {
                                InstructionKind::Call { args, .. } => match p.method(callee_id) {
                                    Some(callee) => {
                                        let offset: usize = if args.len() > callee.parameters.len() { 1 } else { 0 };
                                        let mut idx: usize = 0;
                                        assert(out.facts() =~= call_facts(m, args@, callee.parameters@, 0));
                                        while idx < callee.parameters.len()
                                            invariant
                                                out.wf(),
                                                state.wf(),
                                                m == state.facts(),
                                                offset == (if args@.len() > callee.parameters@.len() { 1usize } else { 0usize }),
                                                idx <= callee.parameters@.len(),
                                                out.facts() == call_facts(m, args@, callee.parameters@, idx as int),
                                            decreases callee.parameters.len() - idx,
                                        {
                                            if idx + offset < args.len() {
                                                let actual = operand_to_access_path(&args[idx + offset]);
                                                let pts = state.lookup(&actual);
                                                let param = AccessPath::new(PathRoot::Local(callee.parameters[idx].clone()));
                                                out.insert(param, pts);
                                            }
                                            idx = idx + 1;
                                        }
                                    },
                                    None => {},
                                },
                                _ => {},
                            },
                            None => {},
                        }
                    },
                    _ => {},
                }
            },
            IcfgEdgeKind::Return => {
                match (from, to) {
                    (IcfgNode::Exit(callee_id), IcfgNode::Instruction(ret_id)) => {
                        match self.find_callsite_for_return_site(ret_id) {
                            Some(call_id) => match p.instruction(call_id) {
                                Some(inst) => match &inst.kind {
                                    InstructionKind::Call { dest: Some(dest_op), .. } => match p.method(callee_id) {
                                        Some(callee) => {
                                            let mut ret_pts = PointsToSet::new();
                                            let mut b: usize = 0;
                                            assert(callee.body@.take(0) =~= Seq::<InstructionId>::empty());
                                            assert(pts_set(ret_pts) =~= return_set(*p, m, callee.body@.take(0)));
                                            while b < callee.body.len()
                                                invariant
                                                    p.wf(),
                                                    state.wf(),
                                                    m == state.facts(),
                                                    b <= callee.body@.len(),
                                                    pts_set(ret_pts) == return_set(*p, m, callee.body@.take(b as int)),
                                                decreases callee.body.len() - b,
                                            {
                                                assert(callee.body@.take(b + 1int).drop_last() =~= callee.body@.take(b as int));
                                                assert(callee.body@.take(b + 1int).last() == callee.body@[b as int]);
                                                match p.instruction(callee.body[b]) {
                                                    Some(body_inst) => match &body_inst.kind {
                                                        InstructionKind::Return { val: Some(ret_op) } => {
                                                            let ret_ap = operand_to_access_path(ret_op);
                                                            let found = state.lookup(&ret_ap);
                                                            let ghost prev = pts_set(ret_pts);
                                                            ret_pts = ret_pts.union(&found);
                                                            assert(pts_set(ret_pts) =~= prev.union(pts_set(found)));
                                                        },
                                                        _ => {},
                                                    },
                                                    None => {},
                                                }
                                                b = b + 1;
                                            }
                                            assert(callee.body@.take(callee.body@.len() as int) =~= callee.body@);
                                            let dest_ap = operand_to_access_path(dest_op);
                                            out.insert(dest_ap, ret_pts);
                                        },
                                        None => {},
                                    },
                                    _ => {},
                                },
                                None => {},
                            },
                            None => {},
                        }
                    },
                    _ => {},
                }
            },
            IcfgEdgeKind::CallToReturn => {
                match from {
                    IcfgNode::Instruction(call_id) => match p.instruction(call_id) {
                        Some(inst) => {
                            let dest_ap: Option<AccessPath> = match &inst.kind {
                                InstructionKind::Call { dest: Some(dest_op), .. } => Some(operand_to_access_path(dest_op)),
                                _ => None,
                            };
                            let ghost gone: Option<PathView> = match &dest_ap {
                                Some(d) => Some(d@),
                                None => None,
                            };
                            let mut e: usize = 0;
                            assert(state.map@.take(0) =~= Seq::<(AccessPath, PointsToSet)>::empty());
                            assert(out.facts() =~= state_map(state.map@.take(0)));
                            while e < state.map.len()
                                invariant
                                    out.wf(),
                                    state.wf(),
                                    e <= state.map@.len(),
                                    gone == match &dest_ap { Some(d) => Some(d@), None => None::<PathView> },
                                    out.facts() == match gone {
                                        Some(g) => state_map(state.map@.take(e as int)).remove(g),
                                        None => state_map(state.map@.take(e as int)),
                                    },
                                decreases state.map.len() - e,
                            {
                                let ghost before = state_map(state.map@.take(e as int));
                                assert(state.map@.take(e + 1int).drop_last() =~= state.map@.take(e as int));
                                assert(state.map@.take(e + 1int).last() == state.map@[e as int]);
                                let skip = match &dest_ap {
                                    Some(d) => state.map[e].0.same_as(d),
                                    None => false,
                                };
                                let ghost key = state.map@[e as int].0@;
                                let ghost val = pts_set(state.map@[e as int].1);
                                if !skip {
                                    let k2 = state.map[e].0.duplicate();
                                    let v2 = state.map[e].1.duplicate();
                                    assert(pts_set(v2) =~= val);
                                    out.insert(k2, v2);
                                    proof {
                                        match gone {
                                            Some(g) => {
                                                assert(out.facts() =~= before.insert(key, val).remove(g));
                                            },
                                            None => {},
                                        }
                                    }
                                } else {
                                    proof {
                                        let g = gone->0;
                                        assert(before.insert(key, val).remove(g) =~= before.remove(g));
                                    }
                                }
                                e = e + 1;
                            }
                            assert(state.map@.take(state.map@.len() as int) =~= state.map@);
                        },
                        None => {},
                    },
                    _ => {},
                }
            },
            _ => {
                out = state.duplicate();
            },
        }
        out
    }

    /// The state after `node`: an allocation, an assignment or a load
    /// replaces what its destination points to; a store adds the stored
    /// objects to the field of each object the base points to.
    fn apply_transfer(&self, node: IcfgNode, state: &AliasState) -> (r: (AliasState, AliasStats))
        requires
            state.wf(),
            self.program.wf(),
        ensures
            r.0.wf(),
            r.0.facts() == transfer_facts(*self.program, node, state.facts()),
            r.1.iterations == 0 && r.1.worklist_pushes == 0 && r.1.worklist_pops == 0,
            r.1.alias_merges == 0 && r.1.max_pts_size == 0,
    {
        let p = self.program;
        let mut out = state.duplicate();
        let mut stats = AliasStats::default();
        match node {
            IcfgNode::Instruction(inst_id) => match p.instruction(inst_id) {
                Some(inst) => match &inst.kind {
                    InstructionKind::Alloc { dest, .. } => {
                        let (method_id, type_id) = match self.find_enclosing_method_and_type(inst_id) {
                            Some(mt) => mt,
                            None => (MethodId(0), TypeId(0)),
                        };
                        let obj = HeapObject::Allocation { site_id: inst_id, method_id, type_id, context: None };
                        let pts = PointsToSet::singleton(obj);
                        proof {
                            let want = alloc_object(inst_id, enclosing_method(p.methods@, inst_id));
                            assert(pts@ == seq![obj@]);
                            assert(obj@ == want);
                            assert(pts@[0] == want);
                            assert forall|h: HeapView| pts_set(pts).contains(h) <==> #[trigger] set![want].contains(h) by {
                                if pts@.contains(h) {
                                    let i = choose|i: int| 0 <= i < pts@.len() && pts@[i] == h;
                                    assert(i == 0);
                                }
                                if h == want {
                                    assert(pts@[0] == h);
                                }
                            }
                            assert(pts_set(pts) =~= set![want]);
                        }
                        out.insert(operand_to_access_path(dest), pts);
                        stats.strong_updates = 1;
                    },
                    InstructionKind::Assign { dest, src } => {
                        let pts = state.lookup(&operand_to_access_path(src));
                        out.insert(operand_to_access_path(dest), pts);
                        stats.strong_updates = 1;
                    },
                    InstructionKind::HeapLoad { dest, base, field } => {
                        let base_pts = state.lookup(&operand_to_access_path(base));
                        let mut field_pts = PointsToSet::new();
                        let ghost m = state.facts();
                        let ghost f = field@;
                        let mut k: usize = 0;
                        assert(pts_set(field_pts) =~= load_set(m, base_pts@.take(0).to_set(), f));
                        while k < base_pts.len()
                            invariant
                                state.wf(),
                                m == state.facts(),
                                f == field@,
                                k <= base_pts@.len(),
                                pts_set(field_pts) == load_set(m, base_pts@.take(k as int).to_set(), f),
                            decreases base_pts@.len() - k,
                        {
                            let ghost before = base_pts@.take(k as int).to_set();
                            let obj = base_pts.get(k);
                            let obj_field = heap_object_field_ap(obj, field.as_str());
                            assert(obj_field@ == field_path(obj@, f));
                            let found = state.lookup(&obj_field);
                            let ghost prev = pts_set(field_pts);
                            field_pts = field_pts.union(&found);
                            proof {
                                assert(base_pts@.take(k + 1int) =~= base_pts@.take(k as int).push(obj@));
                                let after = base_pts@.take(k + 1int).to_set();
                                base_pts@.take(k as int).lemma_push_to_set_commute(obj@);
                                assert(after =~= before.insert(obj@));
                                assert forall|h: HeapView| pts_set(field_pts).contains(h) <==> #[trigger] load_set(m, after, f).contains(h) by {
                                    if pts_set(found).contains(h) {
                                        assert(points_to(m, field_path(obj@, f)).contains(h));
                                        assert(after.contains(obj@));
                                    }
                                    if prev.contains(h) {
                                        assert(load_set(m, before, f).contains(h));
                                        let o = choose|o: HeapView| before.contains(o) && #[trigger] points_to(m, field_path(o, f)).contains(h);
                                        assert(after.contains(o));
                                    }
                                    assert(pts_set(field_pts).contains(h) <==> (prev.contains(h) || pts_set(found).contains(h)));
                                    if load_set(m, after, f).contains(h) {
                                        let o = choose|o: HeapView| after.contains(o) && #[trigger] points_to(m, field_path(o, f)).contains(h);
                                        if o != obj@ {
                                            assert(before.contains(o));
                                            assert(prev.contains(h));
                                        }
                                    }
                                }
                                assert(pts_set(field_pts) =~= load_set(m, after, f));
                            }
                            k = k + 1;
                        }
                        assert(base_pts@.take(base_pts@.len() as int) =~= base_pts@);
                        out.insert(operand_to_access_path(dest), field_pts);
                        stats.strong_updates = 1;
                    },
                    InstructionKind::HeapStore { base, field, src } => {
                        let base_pts = state.lookup(&operand_to_access_path(base));
                        let src_pts = state.lookup(&operand_to_access_path(src));
                        let ghost m = state.facts();
                        let ghost f = field@;
                        let ghost sp = pts_set(src_pts);
                        let mut k: usize = 0;
                        assert(out.facts() =~= store_map(m, base_pts@.take(0).to_set(), f, sp));
                        while k < base_pts.len()
                            invariant
                                state.wf(),
                                out.wf(),
                                m == state.facts(),
                                f == field@,
                                sp == pts_set(src_pts),
                                out.facts() == store_map(m, base_pts@.take(k as int).to_set(), f, sp),
                                k <= base_pts@.len(),
                                stats.iterations == 0 && stats.worklist_pushes == 0 && stats.worklist_pops == 0,
                                stats.alias_merges == 0 && stats.max_pts_size == 0,
                                stats.weak_updates <= k,
                            decreases base_pts@.len() - k,
                        {
                            let ghost before = base_pts@.take(k as int).to_set();
                            let obj = base_pts.get(k);
                            let obj_field = heap_object_field_ap(obj, field.as_str());
                            let ghost key = obj_field@;
                            assert(key == field_path(obj@, f));
                            let current = state.lookup(&obj_field);
                            let merged = current.union(&src_pts);
                            assert(pts_set(merged) =~= points_to(m, key).union(sp));
                            let ghost old_facts = out.facts();
                            out.insert(obj_field, merged);
                            proof {
                                assert(base_pts@.take(k + 1int) =~= base_pts@.take(k as int).push(obj@));
                                let after = base_pts@.take(k + 1int).to_set();
                                base_pts@.take(k as int).lemma_push_to_set_commute(obj@);
                                assert(after =~= before.insert(obj@));
                                assert(stored_key(after, f, key));
                                assert forall|q: PathView| q != key implies stored_key(after, f, q) == #[trigger] stored_key(before, f, q) by {
                                    if stored_key(after, f, q) {
                                        let o = choose|o: HeapView| after.contains(o) && #[trigger] field_path(o, f) == q;
                                        assert(o != obj@);
                                        assert(before.contains(o));
                                    }
                                    if stored_key(before, f, q) {
                                        let o = choose|o: HeapView| before.contains(o) && #[trigger] field_path(o, f) == q;
                                        assert(after.contains(o));
                                    }
                                }
                                assert(out.facts() =~= store_map(m, after, f, sp));
                            }
                            stats.weak_updates = stats.weak_updates + 1;
                            k = k + 1;
                        }
                        assert(base_pts@.take(base_pts@.len() as int) =~= base_pts@);
                    },
                    _ => {},
                },
                None => {},
            },
            _ => {},
        }
        (out, stats)
    }
}

} // verus!

verus! {

/// The position of the first entry for `node`, if any.
fn find_node_state(states: &Vec<(IcfgNode, AliasState)>, node: IcfgNode) -> (r: Option<usize>)
    ensures
        match r {
            Some(i) => i < states@.len() && states@[i as int].0 == node
                && forall|j: int| 0 <= j < i ==> (#[trigger] states@[j]).0 != node,
            None => forall|j: int| 0 <= j < states@.len() ==> (#[trigger] states@[j]).0 != node,
        },
{
    let mut i: usize = 0;
    while i < states.len()
        invariant
            i <= states@.len(),
            forall|j: int| 0 <= j < i ==> (#[trigger] states@[j]).0 != node,
        decreases states.len() - i,
    {
        if states[i].0 == node {
            return Some(i);
        }
        i = i + 1;
    }
    None
}

/// The call site that the return site `to` comes back to, when `to` is an
/// instruction.
pub open spec fn return_call(edges: Seq<IcfgEdge>, to: IcfgNode) -> Option<InstructionId> {
    match to {
        IcfgNode::Instruction(ret) => first_call_to_return(preds_along(edges, IcfgNode::Instruction(ret))),
        _ => None,
    }
}

/// The join of what the first `k` of `preds` carry to `node`: each
/// predecessor that has a state carries its facts along its edge.
pub open spec fn joined_along(
    p: Program,
    edges: Seq<IcfgEdge>,
    states: Seq<(IcfgNode, AliasState)>,
    node: IcfgNode,
    preds: Seq<(IcfgNode, IcfgEdgeKind)>,
    k: int,
) -> Map<PathView, Set<HeapView>>
    decreases k,
{
    if k <= 0 || k > preds.len() {
        Map::empty()
    } else {
        let acc = joined_along(p, edges, states, node, preds, k - 1);
        let pr = preds[k - 1];
        if has_state(states, pr.0) {
            join_facts(acc, edge_facts(p, return_call(edges, node), pr.0, node, pr.1, node_facts(states, pr.0)))
        } else {
            acc
        }
    }
}

/// The facts before `node`: the join of what its predecessors carry.
pub open spec fn entry_facts(p: Program, edges: Seq<IcfgEdge>, states: Seq<(IcfgNode, AliasState)>, node: IcfgNode) -> Map<PathView, Set<HeapView>> {
    let ps = preds_along(edges, node);
    joined_along(p, edges, states, node, ps, ps.len() as int)
}

/// Whether `facts` are what `node` computes from the facts its
/// predecessors carry in `states`.
pub open spec fn settled(p: Program, edges: Seq<IcfgEdge>, states: Seq<(IcfgNode, AliasState)>, node: IcfgNode, facts: Map<PathView, Set<HeapView>>) -> bool {
    facts == transfer_facts(p, node, entry_facts(p, edges, states, node))
}

/// Whether every state of `states` is the transfer of the join of what its
/// predecessors carry: the states are a fixpoint of the analysis.
pub open spec fn alias_fixpoint(p: Program, edges: Seq<IcfgEdge>, states: Seq<(IcfgNode, AliasState)>) -> bool {
    forall|i: int| 0 <= i < states.len() ==> settled(p, edges, states, (#[trigger] states[i]).0, states[i].1.facts())
}

/// Whether no node has two states.
pub open spec fn nodes_unique(states: Seq<(IcfgNode, AliasState)>) -> bool {
    forall|i: int, j: int| 0 <= i < j < states.len() ==> (#[trigger] states[i]).0 != (#[trigger] states[j]).0
}

proof fn lemma_node_facts_first(states: Seq<(IcfgNode, AliasState)>, i: int)
    requires
        0 <= i < states.len(),
        forall|j: int| 0 <= j < i ==> (#[trigger] states[j]).0 != states[i].0,
    ensures
        node_facts(states, states[i].0) == states[i].1.facts(),
    decreases i,
{
    if i > 0 {
        let t = states.drop_first();
        assert(t[i - 1] == states[i]);
        assert forall|j: int| 0 <= j < i - 1 implies (#[trigger] t[j]).0 != t[i - 1].0 by {
            assert(t[j] == states[j + 1]);
        }
        lemma_node_facts_first(t, i - 1);
    }
}

proof fn lemma_node_facts_absent(states: Seq<(IcfgNode, AliasState)>, x: IcfgNode)
    requires
        !has_state(states, x),
    ensures
        node_facts(states, x) == Map::<PathView, Set<HeapView>>::empty(),
    decreases states.len(),
{
    if states.len() > 0 {
        assert(states[0].0 != x);
        let t = states.drop_first();
        assert forall|i: int| 0 <= i < t.len() implies (#[trigger] t[i]).0 != x by {
            assert(t[i] == states[i + 1]);
        }
        lemma_node_facts_absent(t, x);
    }
}

proof fn lemma_joined_same(
    p: Program,
    edges: Seq<IcfgEdge>,
    s1: Seq<(IcfgNode, AliasState)>,
    s2: Seq<(IcfgNode, AliasState)>,
    node: IcfgNode,
    preds: Seq<(IcfgNode, IcfgEdgeKind)>,
    k: int,
    c: IcfgNode,
)
    requires
        k <= preds.len(),
        forall|j: int| 0 <= j < k ==> (#[trigger] preds[j]).0 != c,
        forall|x: IcfgNode| x != c ==> has_state(s1, x) == has_state(s2, x) && node_facts(s1, x) == node_facts(s2, x),
    ensures
        joined_along(p, edges, s1, node, preds, k) == joined_along(p, edges, s2, node, preds, k),
    decreases k,
{
    if k > 0 {
        lemma_joined_same(p, edges, s1, s2, node, preds, k - 1, c);
        assert(preds[k - 1].0 != c);
    }
}

/// Whether each edge from a node with a state leads to a node that is
/// queued or has a state.
pub open spec fn succs_covered(edges: Seq<IcfgEdge>, queued: Seq<IcfgNode>, states: Seq<(IcfgNode, AliasState)>) -> bool {
    forall|k: int| 0 <= k < edges.len() && has_state(states, (#[trigger] edges[k]).from)
        ==> queued.contains(edges[k].to) || has_state(states, edges[k].to)
}

/// Whether `x` is a method entry that starts an edge.
pub open spec fn starts_entry(edges: Seq<IcfgEdge>, x: IcfgNode) -> bool {
    x is Entry && exists|k: int| 0 <= k < edges.len() && (#[trigger] edges[k]).from == x
}

/// Whether `x` is a method entry that starts an edge, or an edge leads to
/// `x` from a node with a state.
pub open spec fn reached(edges: Seq<IcfgEdge>, states: Seq<(IcfgNode, AliasState)>, x: IcfgNode) -> bool {
    starts_entry(edges, x) || exists|k: int| 0 <= k < edges.len() && (#[trigger] edges[k]).to == x && has_state(states, edges[k].from)
}

proof fn lemma_reached_mono(edges: Seq<IcfgEdge>, s0: Seq<(IcfgNode, AliasState)>, s1: Seq<(IcfgNode, AliasState)>, x: IcfgNode)
    requires
        forall|n: IcfgNode| #[trigger] has_state(s0, n) ==> has_state(s1, n),
        reached(edges, s0, x),
    ensures
        reached(edges, s1, x),
{
    if !starts_entry(edges, x) {
        let k = choose|k: int| 0 <= k < edges.len() && (#[trigger] edges[k]).to == x && has_state(s0, edges[k].from);
        assert(has_state(s1, edges[k].from));
    }
}

proof fn lemma_succ_is_edge(edges: Seq<IcfgEdge>, n: IcfgNode, t: int)
    requires
        0 <= t < succs_along(edges, n).len(),
    ensures
        exists|k: int| 0 <= k < edges.len() && (#[trigger] edges[k]).from == n && edges[k].to == succs_along(edges, n)[t].0,
    decreases edges.len(),
{
    let d = edges.drop_last();
    let sd = succs_along(d, n);
    if t < sd.len() {
        assert(succs_along(edges, n)[t] == sd[t]);
        lemma_succ_is_edge(d, n, t);
        let k = choose|k: int| 0 <= k < d.len() && (#[trigger] d[k]).from == n && d[k].to == sd[t].0;
        assert(edges[k] == d[k]);
    } else {
        assert(edges[edges.len() - 1] == edges.last());
    }
}

proof fn lemma_edge_in_succs(edges: Seq<IcfgEdge>, k: int)
    requires
        0 <= k < edges.len(),
    ensures
        exists|t: int| 0 <= t < succs_along(edges, edges[k].from).len()
            && (#[trigger] succs_along(edges, edges[k].from)[t]).0 == edges[k].to,
    decreases edges.len(),
{
    let n = edges[k].from;
    let d = edges.drop_last();
    let sd = succs_along(d, n);
    if k < edges.len() - 1 {
        assert(d[k] == edges[k]);
        lemma_edge_in_succs(d, k);
        let t = choose|t: int| 0 <= t < sd.len() && (#[trigger] sd[t]).0 == edges[k].to;
        assert(succs_along(edges, n)[t] == sd[t]);
    } else {
        assert(succs_along(edges, n)[sd.len() as int] == (edges.last().to, edges.last().kind));
    }
}

proof fn lemma_pred_is_succ(edges: Seq<IcfgEdge>, m: IcfgNode, j: int)
    requires
        0 <= j < preds_along(edges, m).len(),
    ensures
        exists|t: int| 0 <= t < succs_along(edges, preds_along(edges, m)[j].0).len()
            && (#[trigger] succs_along(edges, preds_along(edges, m)[j].0)[t]).0 == m,
    decreases edges.len(),
{
    let n = preds_along(edges, m)[j].0;
    let d = edges.drop_last();
    let pd = preds_along(d, m);
    let sd = succs_along(d, n);
    let last = edges.last();
    if j < pd.len() {
        assert(preds_along(edges, m)[j] == pd[j]);
        lemma_pred_is_succ(d, m, j);
        let t = choose|t: int| 0 <= t < sd.len() && (#[trigger] sd[t]).0 == m;
        assert(succs_along(edges, n)[t] == sd[t]);
    } else {
        assert(last.to == m);
        assert(preds_along(edges, m)[j] == (last.from, last.kind));
        assert(succs_along(edges, n)[sd.len() as int] == (last.to, last.kind));
    }
}

/// What a run of the alias analysis over `p` and `edges` gives: one
/// well-formed state per node, only at method entries that start an edge
/// or at nodes an edge leads to from a node with a state; a run of at least
/// one round where some edge starts at a method entry, and at least one
/// state after a round. Unless the round counter reached its largest value,
/// every entry that starts an edge has a state, every edge from a node with
/// a state leads to a node with a state, and the states are a fixpoint.
pub open spec fn alias_outcome(p: Program, edges: Seq<IcfgEdge>, r: AliasResult) -> bool {
    &&& states_wf(r.states@)
    &&& r.stats.iterations < usize::MAX ==> forall|k: int| 0 <= k < edges.len() && (#[trigger] edges[k]).from is Entry ==> has_state(r.states@, edges[k].from)
    &&& nodes_unique(r.states@)
    &&& r.stats.worklist_pops == r.stats.iterations
    &&& r.stats.iterations < usize::MAX ==> alias_fixpoint(p, edges, r.states@)
    &&& r.stats.iterations < usize::MAX ==> succs_covered(edges, Seq::empty(), r.states@)
    &&& (exists|k: int| 0 <= k < edges.len() && (#[trigger] edges[k]).from is Entry) ==> r.stats.iterations > 0
    &&& r.stats.iterations > 0 ==> r.states@.len() > 0
    &&& forall|i: int| 0 <= i < r.states@.len() ==> reached(edges, r.states@, (#[trigger] r.states@[i]).0)
}

impl<'a> AliasEngine<'a> {
    /// Runs the analysis to a fixpoint: nodes are taken from a first-in
    /// first-out worklist seeded with the method entries; the state before a
    /// node joins what its predecessors' states carry along their edges; the
    /// state after it is the transfer of that; and when the state after a
    /// node changes, its successors are queued again. The run also stops
    /// when its iteration counter would overflow.
    pub fn run(&self) -> (r: AliasResult)
        requires
            self.program.wf(),
        ensures
            alias_outcome(*self.program, self.icfg.edges@, r),
    {
        let ghost pg = *self.program;
        let ghost edges = self.icfg.edges@;
        let mut exit_states: Vec<(IcfgNode, AliasState)> = Vec::new();
        let mut stats = AliasStats::default();
        let mut worklist: std::collections::VecDeque<IcfgNode> = std::collections::VecDeque::new();
        let mut in_worklist: Vec<IcfgNode> = Vec::new();
        let mut e: usize = 0;
        while e < self.icfg.edges.len()
            invariant
                e <= self.icfg.edges@.len(),
                forall|k: int| 0 <= k < e && (#[trigger] self.icfg.edges@[k]).from is Entry
                    ==> worklist@.contains(self.icfg.edges@[k].from),
                forall|x: IcfgNode| #[trigger] in_worklist@.contains(x) ==> worklist@.contains(x),
                stats.worklist_pops == 0 && stats.iterations == 0,
                forall|x: IcfgNode| #[trigger] worklist@.contains(x) ==> starts_entry(self.icfg.edges@, x),
            decreases self.icfg.edges.len() - e,
        {
            let from = self.icfg.edges[e].from;
            let ghost before = worklist@;
            match from {
                IcfgNode::Entry(_) => {
                    worklist.push_back(from);
                    assert forall|k: int| 0 <= k <= e && (#[trigger] self.icfg.edges@[k]).from is Entry
                        implies worklist@.contains(self.icfg.edges@[k].from) by {
                        if k < e {
                            let x = self.icfg.edges@[k].from;
                            let i = choose|i: int| 0 <= i < before.len() && before[i] == x;
                            assert(worklist@[i] == x);
                        } else {
                            assert(worklist@[before.len() as int] == from);
                        }
                    }
                    proof {
                        assert forall|x: IcfgNode| #[trigger] in_worklist@.contains(x) implies worklist@.contains(x) by {
                            assert(before.contains(x));
                            let i = choose|i: int| 0 <= i < before.len() && before[i] == x;
                            assert(worklist@[i] == x);
                        }
                        assert(worklist@[before.len() as int] == from);
                        assert forall|x: IcfgNode| #[trigger] worklist@.contains(x) implies starts_entry(self.icfg.edges@, x) by {
                            if x != from {
                                let i = choose|i: int| 0 <= i < worklist@.len() && worklist@[i] == x;
                                assert(before[i] == x);
                                assert(before.contains(x));
                            } else {
                                assert(self.icfg.edges@[e as int].from == x);
                            }
                        }
                    }
                    if !holds_node(&in_worklist, from) {
                        let ghost iw = in_worklist@;
                        in_worklist.push(from);
                        proof {
                            assert forall|x: IcfgNode| #[trigger] in_worklist@.contains(x) implies worklist@.contains(x) by {
                                if x != from {
                                    let i = choose|i: int| 0 <= i < in_worklist@.len() && in_worklist@[i] == x;
                                    assert(iw[i] == x);
                                    assert(iw.contains(x));
                                } else {
                                    assert(worklist@[before.len() as int] == from);
                                }
                            }
                        }
                    }
                    stats.worklist_pushes = stats.worklist_pushes.saturating_add(1);
                },
                _ => {},
            }
            e = e + 1;
        }
        assert(entries_covered(self.icfg.edges@, worklist@, exit_states@));
        assert(nodes_unique(exit_states@));
        let ghost wl0 = worklist@;
        loop
            invariant
                succs_covered(edges, worklist@, exit_states@),
                forall|x: IcfgNode| #[trigger] worklist@.contains(x) ==> reached(edges, exit_states@, x),
                forall|i: int| 0 <= i < exit_states@.len() ==> reached(edges, exit_states@, (#[trigger] exit_states@[i]).0),
                stats.iterations == 0 ==> worklist@ == wl0,
                stats.iterations > 0 ==> exit_states@.len() > 0,
                entries_covered(self.icfg.edges@, wl0, Seq::empty()),
                self.program.wf(),
                pg == *self.program,
                edges == self.icfg.edges@,
                states_wf(exit_states@),
                entries_covered(self.icfg.edges@, worklist@, exit_states@),
                nodes_unique(exit_states@),
                stats.worklist_pops == stats.iterations,
                forall|x: IcfgNode| #[trigger] in_worklist@.contains(x) ==> worklist@.contains(x),
                forall|i: int| 0 <= i < exit_states@.len() ==> worklist@.contains((#[trigger] exit_states@[i]).0)
                    || settled(pg, edges, exit_states@, exit_states@[i].0, exit_states@[i].1.facts()),
            ensures
                states_wf(exit_states@),
                nodes_unique(exit_states@),
                stats.worklist_pops == stats.iterations,
                stats.iterations < usize::MAX ==> entries_covered(self.icfg.edges@, Seq::empty(), exit_states@),
                stats.iterations < usize::MAX ==> alias_fixpoint(pg, edges, exit_states@),
                stats.iterations < usize::MAX ==> succs_covered(edges, Seq::empty(), exit_states@),
                stats.iterations == 0 ==> wl0.len() == 0,
                stats.iterations > 0 ==> exit_states@.len() > 0,
                forall|i: int| 0 <= i < exit_states@.len() ==> reached(edges, exit_states@, (#[trigger] exit_states@[i]).0),
            decreases usize::MAX - stats.iterations,
        {
            if stats.iterations == usize::MAX {
                break;
            }
            let ghost queued = worklist@;
            let curr = match worklist.pop_front() {
                Some(n) => n,
                None => {
                    assert(queued =~= Seq::<IcfgNode>::empty());
                    break;
                },
            };
            let ghost iw0 = in_worklist@;
            let ghost states0 = exit_states@;
            proof {
                assert(queued[0] == curr);
                assert(queued.contains(curr));
                assert(reached(edges, states0, curr));
                assert forall|x: IcfgNode| #[trigger] worklist@.contains(x) implies reached(edges, states0, x) by {
                    let j = choose|j: int| 0 <= j < worklist@.len() && worklist@[j] == x;
                    assert(queued[j + 1] == x);
                    assert(queued.contains(x));
                }
            }
            proof {
                assert forall|k: int| 0 <= k < edges.len() && has_state(states0, (#[trigger] edges[k]).from)
                    implies edges[k].to == curr || worklist@.contains(edges[k].to) || has_state(states0, edges[k].to) by {
                    let x = edges[k].to;
                    if queued.contains(x) && x != curr {
                        let j = choose|j: int| 0 <= j < queued.len() && queued[j] == x;
                        assert(j != 0);
                        assert(worklist@[j - 1] == x);
                    }
                }
            }
            proof {
                assert forall|i: int| 0 <= i < exit_states@.len() implies (#[trigger] exit_states@[i]).0 == curr
                    || worklist@.contains(exit_states@[i].0)
                    || settled(pg, edges, exit_states@, exit_states@[i].0, exit_states@[i].1.facts()) by {
                    let x = exit_states@[i].0;
                    if queued.contains(x) && x != curr {
                        let j = choose|j: int| 0 <= j < queued.len() && queued[j] == x;
                        assert(j != 0);
                        assert(worklist@[j - 1] == x);
                    }
                }
                assert forall|x: IcfgNode| #[trigger] iw0.contains(x) && x != curr implies worklist@.contains(x) by {
                    let j = choose|j: int| 0 <= j < queued.len() && queued[j] == x;
                    assert(j != 0);
                    assert(worklist@[j - 1] == x);
                }
            }
            proof {
                assert forall|k: int| 0 <= k < self.icfg.edges@.len() && (#[trigger] self.icfg.edges@[k]).from is Entry
                    implies self.icfg.edges@[k].from == curr || worklist@.contains(self.icfg.edges@[k].from)
                        || has_state(exit_states@, self.icfg.edges@[k].from) by {
                    let x = self.icfg.edges@[k].from;
                    if queued.contains(x) && x != curr {
                        let i = choose|i: int| 0 <= i < queued.len() && queued[i] == x;
                        assert(i != 0);
                        assert(worklist@[i - 1] == x);
                    }
                }
            }
            stats.worklist_pops = stats.worklist_pops.saturating_add(1);
            stats.iterations = stats.iterations + 1;
            let mut kept: Vec<IcfgNode> = Vec::new();
            let mut w: usize = 0;
            while w < in_worklist.len()
                invariant
                    w <= in_worklist@.len(),
                    in_worklist@ == iw0,
                    forall|x: IcfgNode| #[trigger] kept@.contains(x) ==> iw0.contains(x) && x != curr,
                decreases in_worklist.len() - w,
            {
                if in_worklist[w] != curr {
                    let ghost kp = kept@;
                    kept.push(in_worklist[w]);
                    proof {
                        assert forall|x: IcfgNode| #[trigger] kept@.contains(x) implies iw0.contains(x) && x != curr by {
                            let j = choose|j: int| 0 <= j < kept@.len() && kept@[j] == x;
                            if j < kp.len() {
                                assert(kp[j] == x);
                                assert(kp.contains(x));
                            } else {
                                assert(iw0[w as int] == x);
                            }
                        }
                    }
                }
                w = w + 1;
            }
            in_worklist = kept;

            // The state before the node: the join of what each predecessor carries.
            let mut entry_state = AliasState::new();
            let preds = self.icfg.predecessors(curr);
            let mut k: usize = 0;
            let ghost its = stats.iterations;
            while k < preds.len()
                invariant
                    self.program.wf(),
                    pg == *self.program,
                    edges == self.icfg.edges@,
                    states_wf(exit_states@),
                    entry_state.wf(),
                    k <= preds@.len(),
                    preds@ == preds_along(edges, curr),
                    stats.iterations == its,
                    stats.worklist_pops == its,
                    entry_state.facts() == joined_along(pg, edges, exit_states@, curr, preds@, k as int),
                decreases preds.len() - k,
            {
                let (pred, kind) = preds[k];
                match find_node_state(&exit_states, pred) {
                    Some(si) => {
                        proof {
                            lemma_node_facts_first(exit_states@, si as int);
                            assert(has_state(exit_states@, pred));
                        }
                        let propagated = self.propagate_edge(pred, curr, kind, &exit_states[si].1);
                        let mut merges = AliasStats::default();
                        entry_state = join(&entry_state, &propagated, Some(&mut merges));
                        stats.alias_merges = stats.alias_merges.saturating_add(merges.alias_merges);
                    },
                    None => {},
                }
                k = k + 1;
            }

            // The state after the node.
            let (exit_state, node_stats) = self.apply_transfer(curr, &entry_state);
            stats.strong_updates = stats.strong_updates.saturating_add(node_stats.strong_updates);
            stats.weak_updates = stats.weak_updates.saturating_add(node_stats.weak_updates);
            let mut v: usize = 0;
            while v < exit_state.map.len()
                invariant
                    v <= exit_state.map@.len(),
                    stats.iterations == its,
                    stats.worklist_pops == its,
                decreases exit_state.map.len() - v,
            {
                let size = exit_state.map[v].1.len();
                if size > stats.max_pts_size {
                    stats.max_pts_size = size;
                }
                v = v + 1;
            }

            // Queue the successors when the state after the node changed.
            let prev = find_node_state(&exit_states, curr);
            let changed = match prev {
                Some(pi) => !same_state(&exit_states[pi].1, &exit_state),
                None => true,
            };
            let ghost old_states = exit_states@;
            let ghost wl_mid = worklist@;
            let ghost exit_facts = exit_state.facts();
            assert(exit_facts == transfer_facts(pg, curr, entry_facts(pg, edges, old_states, curr)));
            if changed {
                match prev {
                    Some(pi) => {
                        exit_states.set(pi, (curr, exit_state));
                        proof {
                            assert(exit_states@[pi as int].0 == curr);
                            assert forall|n: IcfgNode| #[trigger] has_state(old_states, n) implies has_state(exit_states@, n) by {
                                let i = choose|i: int| 0 <= i < old_states.len() && old_states[i].0 == n;
                                assert(exit_states@[i].0 == n);
                            }
                        }
                    },
                    None => {
                        exit_states.push((curr, exit_state));
                        proof {
                            assert(exit_states@[old_states.len() as int].0 == curr);
                            assert forall|n: IcfgNode| #[trigger] has_state(old_states, n) implies has_state(exit_states@, n) by {
                                let i = choose|i: int| 0 <= i < old_states.len() && old_states[i].0 == n;
                                assert(exit_states@[i].0 == n);
                            }
                        }
                    },
                }
                let ghost new_states = exit_states@;
                proof {
                    // The states keep one entry per node, and agree on every node but `curr`.
                    assert forall|i: int, j: int| 0 <= i < j < new_states.len() implies
                        (#[trigger] new_states[i]).0 != (#[trigger] new_states[j]).0 by {
                        if i < old_states.len() && j < old_states.len() {
                            if new_states[i] != old_states[i] {
                                assert(old_states[j].0 != curr);
                            } else if new_states[j] != old_states[j] {
                                assert(old_states[i].0 != curr);
                            }
                        }
                    }
                    assert forall|x: IcfgNode| x != curr implies has_state(old_states, x) == has_state(new_states, x)
                        && node_facts(old_states, x) == node_facts(new_states, x) by {
                        if has_state(new_states, x) {
                            let i = choose|i: int| 0 <= i < new_states.len() && new_states[i].0 == x;
                            assert(i < old_states.len() && new_states[i] == old_states[i]);
                            assert(old_states[i].0 == x);
                            lemma_node_facts_first(old_states, i);
                            lemma_node_facts_first(new_states, i);
                        }
                        if has_state(old_states, x) {
                            let i = choose|i: int| 0 <= i < old_states.len() && old_states[i].0 == x;
                            assert(new_states[i] == old_states[i]);
                        }
                        if !has_state(old_states, x) && !has_state(new_states, x) {
                            lemma_node_facts_absent(old_states, x);
                            lemma_node_facts_absent(new_states, x);
                        }
                    }
                }
                assert(has_state(exit_states@, curr));
                assert(entries_covered(self.icfg.edges@, worklist@, exit_states@));
                proof {
                    assert forall|n: IcfgNode| #[trigger] has_state(old_states, n) implies has_state(new_states, n) by {
                        if n != curr {
                            assert(has_state(old_states, n) == has_state(new_states, n));
                        }
                    }
                    assert forall|i: int| 0 <= i < new_states.len() implies reached(edges, new_states, (#[trigger] new_states[i]).0) by {
                        let x = new_states[i].0;
                        if x != curr {
                            assert(has_state(new_states, x));
                            assert(has_state(old_states, x) == has_state(new_states, x));
                            let j = choose|j: int| 0 <= j < old_states.len() && (#[trigger] old_states[j]).0 == x;
                            assert(reached(edges, old_states, old_states[j].0));
                        }
                        lemma_reached_mono(edges, old_states, new_states, x);
                    }
                    assert forall|x: IcfgNode| #[trigger] worklist@.contains(x) implies reached(edges, new_states, x) by {
                        lemma_reached_mono(edges, old_states, new_states, x);
                    }
                }
                let succs = self.icfg.successors(curr);
                let mut s: usize = 0;
                while s < succs.len()
                    invariant
                        s <= succs@.len(),
                        stats.iterations == its,
                    stats.worklist_pops == its,
                        entries_covered(self.icfg.edges@, worklist@, exit_states@),
                        succs@ == succs_along(edges, curr),
                        forall|t: int| 0 <= t < s ==> worklist@.contains((#[trigger] succs@[t]).0),
                        forall|x: IcfgNode| #[trigger] wl_mid.contains(x) ==> worklist@.contains(x),
                        forall|x: IcfgNode| #[trigger] worklist@.contains(x) ==> reached(edges, exit_states@, x),
                        has_state(exit_states@, curr),
                        forall|x: IcfgNode| #[trigger] in_worklist@.contains(x) ==> worklist@.contains(x),
                    decreases succs.len() - s,
                {
                    let succ = succs[s].0;
                    let ghost wl = worklist@;
                    if !holds_node(&in_worklist, succ) {
                        worklist.push_back(succ);
                        proof {
                            assert forall|x: IcfgNode| #[trigger] wl.contains(x) implies worklist@.contains(x) by {
                                let i = choose|i: int| 0 <= i < wl.len() && wl[i] == x;
                                assert(worklist@[i] == x);
                            }
                            assert(worklist@[wl.len() as int] == succ);
                            lemma_succ_is_edge(edges, curr, s as int);
                            assert(reached(edges, exit_states@, succ));
                            assert forall|x: IcfgNode| #[trigger] worklist@.contains(x) implies reached(edges, exit_states@, x) by {
                                if x != succ {
                                    let i = choose|i: int| 0 <= i < worklist@.len() && worklist@[i] == x;
                                    assert(wl[i] == x);
                                    assert(wl.contains(x));
                                }
                            }
                            assert forall|k: int| 0 <= k < self.icfg.edges@.len() && (#[trigger] self.icfg.edges@[k]).from is Entry
                                && wl.contains(self.icfg.edges@[k].from) implies worklist@.contains(self.icfg.edges@[k].from) by {
                            }
                        }
                        let ghost iw = in_worklist@;
                        in_worklist.push(succ);
                        proof {
                            assert forall|x: IcfgNode| #[trigger] in_worklist@.contains(x) implies worklist@.contains(x) by {
                                if x != succ {
                                    let i = choose|i: int| 0 <= i < in_worklist@.len() && in_worklist@[i] == x;
                                    assert(iw[i] == x);
                                    assert(iw.contains(x));
                                }
                            }
                        }
                        stats.worklist_pushes = stats.worklist_pushes.saturating_add(1);
                    } else {
                        assert(worklist@.contains(succ));
                    }
                    s = s + 1;
                }
                proof {
                    assert forall|i: int| 0 <= i < new_states.len() implies worklist@.contains((#[trigger] new_states[i]).0)
                        || settled(pg, edges, new_states, new_states[i].0, new_states[i].1.facts()) by {
                        let n = new_states[i].0;
                        let ps = preds_along(edges, n);
                        if exists|j: int| 0 <= j < ps.len() && (#[trigger] ps[j]).0 == curr {
                            let j = choose|j: int| 0 <= j < ps.len() && (#[trigger] ps[j]).0 == curr;
                            lemma_pred_is_succ(edges, n, j);
                            let t = choose|t: int| 0 <= t < succs_along(edges, curr).len()
                                && (#[trigger] succs_along(edges, curr)[t]).0 == n;
                            assert(succs@[t].0 == n);
                        } else {
                            lemma_joined_same(pg, edges, old_states, new_states, n, ps, ps.len() as int, curr);
                            if n == curr {
                                assert(new_states[i].1.facts() == exit_facts);
                            } else {
                                assert(i < old_states.len() && new_states[i] == old_states[i]);
                                if wl_mid.contains(n) {
                                } else {
                                    assert(settled(pg, edges, old_states, n, old_states[i].1.facts()));
                                }
                            }
                        }
                    }
                }
                proof {
                    assert forall|k: int| 0 <= k < edges.len() && has_state(exit_states@, (#[trigger] edges[k]).from)
                        implies worklist@.contains(edges[k].to) || has_state(exit_states@, edges[k].to) by {
                        let x = edges[k].from;
                        let y = edges[k].to;
                        if x == curr {
                            lemma_edge_in_succs(edges, k);
                            let t = choose|t: int| 0 <= t < succs_along(edges, edges[k].from).len()
                                && (#[trigger] succs_along(edges, edges[k].from)[t]).0 == edges[k].to;
                            assert(worklist@.contains(succs@[t].0));
                        } else {
                            assert(has_state(states0, x));
                            if y == curr {
                            } else if wl_mid.contains(y) {
                            } else {
                                assert(has_state(states0, y));
                                assert(has_state(new_states, y));
                            }
                        }
                    }
                }
            } else {
                assert(has_state(exit_states@, curr)) by {
                    let pi = prev->0;
                    assert(exit_states@[pi as int].0 == curr);
                }
                proof {
                    let pi = prev->0;
                    assert(settled(pg, edges, old_states, curr, exit_states@[pi as int].1.facts()));
                    assert forall|i: int| 0 <= i < old_states.len() implies worklist@.contains((#[trigger] old_states[i]).0)
                        || settled(pg, edges, old_states, old_states[i].0, old_states[i].1.facts()) by {
                        if old_states[i].0 == curr {
                            assert(i == pi);
                        }
                    }
                }
            }
        }
        AliasResult { states: exit_states, stats }
    }
}

} // verus!

verus! {

/// Along a call-to-return edge of a call with a destination, the state
/// carried says nothing of the destination and keeps what it says of every
/// other path: the destination's old targets do not survive the call, so at
/// the return site it points only to what the callee returns.
pub proof fn law_call_to_return_drops_destination(
    p: Program,
    ret_call: Option<InstructionId>,
    call_id: InstructionId,
    to: IcfgNode,
    m: Map<PathView, Set<HeapView>>,
    inst: crate::ir::Instruction,
    d: Operand,
    ap: PathView,
)
    requires
        inst_of(p, call_id) == Some(inst),
        inst.kind matches InstructionKind::Call { dest: Some(dd), .. } && dd == d,
    ensures
        !edge_facts(p, ret_call, IcfgNode::Instruction(call_id), to, IcfgEdgeKind::CallToReturn, m).dom().contains(operand_path(d)),
        ap != operand_path(d) ==> points_to(edge_facts(p, ret_call, IcfgNode::Instruction(call_id), to, IcfgEdgeKind::CallToReturn, m), ap)
            == points_to(m, ap),
        ap != operand_path(d) ==> (edge_facts(p, ret_call, IcfgNode::Instruction(call_id), to, IcfgEdgeKind::CallToReturn, m).dom().contains(ap)
            <==> m.dom().contains(ap)),
{
}

} // verus!
