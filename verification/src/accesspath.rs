//! Access paths: a root (variable, temporary, static field, allocation site or
//! constant) followed by field, array-element and wildcard segments.
use vstd::prelude::*;
use crate::ir::InstructionId;
use crate::text::{decimal, push_decimal, str_eq, trim, trimmed};

verus! {

broadcast use vstd::string::group_string_axioms;

#[derive(Debug, Clone, PartialEq, Eq, Hash)]
pub enum PathRoot {
    Local(String),
    Temp(u32),
    Static { class_name: String, field_name: String },
    Alloc(InstructionId),
    Constant(String),
    Unknown,
}

#[derive(Debug, Clone, PartialEq, Eq, Hash)]
pub enum PathSegment {
    Field(String),
    ArrayElement,
    Wildcard,
}

#[derive(Debug, Clone, Copy, PartialEq, Eq, Hash, Structural)]
pub struct ExtensionHooks {
    pub alias_set_id: Option<u32>,
    pub context_id: Option<u32>,
    pub heap_alloc_id: Option<InstructionId>,
}

/// A root over character sequences.
pub enum RootView {
    Local(Seq<char>),
    Temp(u32),
    Static { class_name: Seq<char>, field_name: Seq<char> },
    Alloc(InstructionId),
    Constant(Seq<char>),
    Unknown,
}

/// A segment over character sequences.
pub enum SegmentView {
    Field(Seq<char>),
    ArrayElement,
    Wildcard,
}

impl View for PathRoot {
    type V = RootView;

    open spec fn view(&self) -> RootView {
        match self {
            PathRoot::Local(n) => RootView::Local(n@),
            PathRoot::Temp(t) => RootView::Temp(*t),
            PathRoot::Static { class_name, field_name } => RootView::Static { class_name: class_name@, field_name: field_name@ },
            PathRoot::Alloc(i) => RootView::Alloc(*i),
            PathRoot::Constant(v) => RootView::Constant(v@),
            PathRoot::Unknown => RootView::Unknown,
        }
    }
}

impl View for PathSegment {
    type V = SegmentView;

    open spec fn view(&self) -> SegmentView {
        match self {
            PathSegment::Field(n) => SegmentView::Field(n@),
            PathSegment::ArrayElement => SegmentView::ArrayElement,
            PathSegment::Wildcard => SegmentView::Wildcard,
        }
    }
}

/// A path rooted somewhere, with its segments in order.
#[derive(Debug, Clone, PartialEq, Eq, Hash)]
pub struct AccessPath {
    pub root: PathRoot,
    pub segments: Vec<PathSegment>,
    pub hooks: Option<ExtensionHooks>,
}

/// An access path over character sequences.
pub struct PathView {
    pub root: RootView,
    pub segments: Seq<SegmentView>,
    pub hooks: Option<ExtensionHooks>,
}

/// The views of a sequence of segments.
pub open spec fn segment_views(s: Seq<PathSegment>) -> Seq<SegmentView> {
    s.map_values(|x: PathSegment| x@)
}

impl View for AccessPath {
    type V = PathView;

    open spec fn view(&self) -> PathView {
        PathView { root: self.root@, segments: segment_views(self.segments@), hooks: self.hooks }
    }
}

/// The root with its names trimmed of surrounding white space.
pub open spec fn normalize_root(r: RootView) -> RootView {
    match r {
        RootView::Local(n) => RootView::Local(trim(n)),
        RootView::Static { class_name, field_name } => RootView::Static { class_name: trim(class_name), field_name: trim(field_name) },
        RootView::Constant(v) => RootView::Constant(trim(v)),
        other => other,
    }
}

/// The segment with its field name trimmed of surrounding white space.
pub open spec fn normalize_segment(s: SegmentView) -> SegmentView {
    match s {
        SegmentView::Field(n) => SegmentView::Field(trim(n)),
        other => other,
    }
}

/// The text of a root: `x`, `t3`, `Class.field`, `alloc@7`, `const(v)` or `?`.
pub open spec fn root_text(r: RootView) -> Seq<char> {
    match r {
        RootView::Local(n) => n,
        RootView::Temp(t) => seq!['t'] + decimal(t as nat),
        RootView::Static { class_name, field_name } => class_name + seq!['.'] + field_name,
        RootView::Alloc(i) => "alloc@"@ + decimal(i.0 as nat),
        RootView::Constant(v) => "const("@ + v + seq![')'],
        RootView::Unknown => seq!['?'],
    }
}

/// The text of a segment: `.f`, `[*]` or `.*`.
pub open spec fn segment_text(s: SegmentView) -> Seq<char> {
    match s {
        SegmentView::Field(n) => seq!['.'] + n,
        SegmentView::ArrayElement => "[*]"@,
        SegmentView::Wildcard => ".*"@,
    }
}

/// The text of the segments, in order.
pub open spec fn segments_text(s: Seq<SegmentView>) -> Seq<char>
    decreases s.len(),
{
    if s.len() == 0 { Seq::empty() } else { segments_text(s.drop_last()) + segment_text(s.last()) }
}

/// The text of a path: its root followed by its segments.
pub open spec fn path_text(p: PathView) -> Seq<char> {
    root_text(p.root) + segments_text(p.segments)
}

/// The text that the derived `Debug` of a root writes, such as `Local("x")`.
pub open spec fn root_debug_text(r: RootView) -> Seq<char> {
    match r {
        RootView::Local(n) => "Local("@ + crate::text::quoted(n) + ")"@,
        RootView::Temp(t) => "Temp("@ + crate::text::decimal(t as nat) + ")"@,
        RootView::Static { class_name, field_name } =>
            "Static { class_name: "@ + crate::text::quoted(class_name) + ", field_name: "@
                + crate::text::quoted(field_name) + " }"@,
        RootView::Alloc(i) => "Alloc(InstructionId("@ + crate::text::decimal(i.0 as nat) + "))"@,
        RootView::Constant(v) => "Constant("@ + crate::text::quoted(v) + ")"@,
        RootView::Unknown => "Unknown"@,
    }
}

/// The text that the derived `Debug` of a root writes.
pub(crate) fn root_debug_text_of(r: &PathRoot) -> (t: String)
    ensures
        t@ == root_debug_text(r@),
{
    match r {
        PathRoot::Local(n) => {
            let mut s = String::from_str("Local(");
            let q = crate::text::debug_quoted(n.as_str());
            s.append(q.as_str());
            s.append(")");
            s
        },
        PathRoot::Temp(t) => {
            let mut s = String::from_str("Temp(");
            crate::text::push_decimal(&mut s, *t as u64);
            s.append(")");
            s
        },
        PathRoot::Static { class_name, field_name } => {
            let mut s = String::from_str("Static { class_name: ");
            let q1 = crate::text::debug_quoted(class_name.as_str());
            s.append(q1.as_str());
            s.append(", field_name: ");
            let q2 = crate::text::debug_quoted(field_name.as_str());
            s.append(q2.as_str());
            s.append(" }");
            s
        },
        PathRoot::Alloc(i) => {
            let mut s = String::from_str("Alloc(InstructionId(");
            crate::text::push_decimal(&mut s, i.0 as u64);
            s.append("))");
            s
        },
        PathRoot::Constant(v) => {
            let mut s = String::from_str("Constant(");
            let q = crate::text::debug_quoted(v.as_str());
            s.append(q.as_str());
            s.append(")");
            s
        },
        PathRoot::Unknown => String::from_str("Unknown"),
    }
}

impl PathRoot {
    /// A copy of this root.
    pub fn duplicate(&self) -> (r: PathRoot)
        ensures
            r == *self,
    {
        match self {
            PathRoot::Local(n) => PathRoot::Local(n.clone()),
            PathRoot::Temp(t) => PathRoot::Temp(*t),
            PathRoot::Static { class_name, field_name } => PathRoot::Static { class_name: class_name.clone(), field_name: field_name.clone() },
            PathRoot::Alloc(i) => PathRoot::Alloc(*i),
            PathRoot::Constant(v) => PathRoot::Constant(v.clone()),
            PathRoot::Unknown => PathRoot::Unknown,
        }
    }

    /// Whether two roots are the same.
    pub fn same_as(&self, other: &PathRoot) -> (r: bool)
        ensures
            r == (self@ == other@),
    {
        match (self, other) {
            (PathRoot::Local(a), PathRoot::Local(b)) => str_eq(a.as_str(), b.as_str()),
            (PathRoot::Temp(a), PathRoot::Temp(b)) => *a == *b,
            (PathRoot::Static { class_name: c1, field_name: f1 }, PathRoot::Static { class_name: c2, field_name: f2 }) =>
                str_eq(c1.as_str(), c2.as_str()) && str_eq(f1.as_str(), f2.as_str()),
            (PathRoot::Alloc(a), PathRoot::Alloc(b)) => a.0 == b.0,
            (PathRoot::Constant(a), PathRoot::Constant(b)) => str_eq(a.as_str(), b.as_str()),
            (PathRoot::Unknown, PathRoot::Unknown) => true,
            _ => false,
        }
    }

    /// Appends the text of this root to `out`.
    pub fn write_text(&self, out: &mut String)
        ensures
            final(out)@ == old(out)@ + root_text(self@),
    {
        match self {
            PathRoot::Local(n) => out.append(n.as_str()),
            PathRoot::Temp(t) => {
                crate::text::push_char(out, 't');
                push_decimal(out, *t as u64);
                assert(old(out)@ + seq!['t'] + decimal(*t as nat) =~= old(out)@ + (seq!['t'] + decimal(*t as nat)));
            },
            PathRoot::Static { class_name, field_name } => {
                out.append(class_name.as_str());
                crate::text::push_char(out, '.');
                out.append(field_name.as_str());
                assert(old(out)@ + class_name@ + seq!['.'] + field_name@ =~= old(out)@ + (class_name@ + seq!['.'] + field_name@));
            },
            PathRoot::Alloc(id) => {
                out.append("alloc@");
                push_decimal(out, id.0 as u64);
                assert(old(out)@ + "alloc@"@ + decimal(id.0 as nat) =~= old(out)@ + ("alloc@"@ + decimal(id.0 as nat)));
            },
            PathRoot::Constant(v) => {
                out.append("const(");
                out.append(v.as_str());
                crate::text::push_char(out, ')');
                assert(old(out)@ + "const("@ + v@ + seq![')'] =~= old(out)@ + ("const("@ + v@ + seq![')']));
            },
            PathRoot::Unknown => crate::text::push_char(out, '?'),
        }
    }
}

impl PathSegment {
    /// A copy of this segment.
    pub fn duplicate(&self) -> (r: PathSegment)
        ensures
            r == *self,
    {
        match self {
            PathSegment::Field(n) => PathSegment::Field(n.clone()),
            PathSegment::ArrayElement => PathSegment::ArrayElement,
            PathSegment::Wildcard => PathSegment::Wildcard,
        }
    }

    /// Whether two segments are the same.
    pub fn same_as(&self, other: &PathSegment) -> (r: bool)
        ensures
            r == (self@ == other@),
    {
        match (self, other) {
            (PathSegment::Field(a), PathSegment::Field(b)) => str_eq(a.as_str(), b.as_str()),
            (PathSegment::ArrayElement, PathSegment::ArrayElement) => true,
            (PathSegment::Wildcard, PathSegment::Wildcard) => true,
            _ => false,
        }
    }

    /// Appends the text of this segment to `out`.
    pub fn write_text(&self, out: &mut String)
        ensures
            final(out)@ == old(out)@ + segment_text(self@),
    {
        match self {
            PathSegment::Field(n) => {
                crate::text::push_char(out, '.');
                out.append(n.as_str());
                assert(old(out)@ + seq!['.'] + n@ =~= old(out)@ + (seq!['.'] + n@));
            },
            PathSegment::ArrayElement => out.append("[*]"),
            PathSegment::Wildcard => out.append(".*"),
        }
    }
}

/// A copy of a sequence of segments.
pub fn copy_segments(s: &Vec<PathSegment>) -> (r: Vec<PathSegment>)
    ensures
        r@ == s@,
{
    let mut out: Vec<PathSegment> = Vec::new();
    let mut i: usize = 0;
    while i < s.len()
        invariant
            i <= s@.len(),
            out@ == s@.take(i as int),
        decreases s.len() - i,
    {
        out.push(s[i].duplicate());
        assert(s@.take(i + 1int) =~= s@.take(i as int).push(s@[i as int]));
        i = i + 1;
    }
    assert(s@.take(s@.len() as int) =~= s@);
    out
}

impl AccessPath {
    /// The path made of the root alone.
    pub fn new(root: PathRoot) -> (r: Self)
        ensures
            r@ == (PathView { root: root@, segments: Seq::empty(), hooks: None }),
    {
        let r = AccessPath { root, segments: Vec::new(), hooks: None };
        assert(r@.segments =~= Seq::<SegmentView>::empty());
        r
    }

    /// A copy of this path.
    pub fn duplicate(&self) -> (r: Self)
        ensures
            r@ == self@,
    {
        AccessPath { root: self.root.duplicate(), segments: copy_segments(&self.segments), hooks: self.hooks }
    }

    /// Whether two paths are the same.
    pub fn same_as(&self, other: &AccessPath) -> (r: bool)
        ensures
            r == (self@ == other@),
    {
        if !self.root.same_as(&other.root) || self.segments.len() != other.segments.len() {
            assert(self@.segments.len() == self.segments@.len());
            return false;
        }
        let mut same_hooks = false;
        match (self.hooks, other.hooks) {
            (None, None) => { same_hooks = true; },
            (Some(a), Some(b)) => {
                let ids = match (a.heap_alloc_id, b.heap_alloc_id) {
                    (None, None) => true,
                    (Some(x), Some(y)) => x.0 == y.0,
                    _ => false,
                };
                same_hooks = a.alias_set_id == b.alias_set_id && a.context_id == b.context_id && ids;
            },
            _ => {},
        }
        if !same_hooks {
            return false;
        }
        let mut i: usize = 0;
        while i < self.segments.len()
            invariant
                self.segments@.len() == other.segments@.len(),
                i <= self.segments@.len(),
                forall|j: int| 0 <= j < i ==> self.segments@[j]@ == other.segments@[j]@,
            decreases self.segments.len() - i,
        {
            if !self.segments[i].same_as(&other.segments[i]) {
                assert(self@.segments[i as int] != other@.segments[i as int]);
                return false;
            }
            i = i + 1;
        }
        assert(self@.segments =~= other@.segments);
        true
    }

    /// The path extended with a field segment.
    pub fn append_field(&self, field: String) -> (r: Self)
        ensures
            r@ == (PathView { segments: self@.segments.push(SegmentView::Field(field@)), ..self@ }),
    {
        let mut segs = copy_segments(&self.segments);
        segs.push(PathSegment::Field(field));
        let r = AccessPath { root: self.root.duplicate(), segments: segs, hooks: self.hooks };
        assert(r@.segments =~= self@.segments.push(SegmentView::Field(field@)));
        r
    }

    /// The path extended with an array-element segment.
    pub fn append_array(&self) -> (r: Self)
        ensures
            r@ == (PathView { segments: self@.segments.push(SegmentView::ArrayElement), ..self@ }),
    {
        let mut segs = copy_segments(&self.segments);
        segs.push(PathSegment::ArrayElement);
        let r = AccessPath { root: self.root.duplicate(), segments: segs, hooks: self.hooks };
        assert(r@.segments =~= self@.segments.push(SegmentView::ArrayElement));
        r
    }

    /// A path rooted at a static field, with no segments and the same hooks.
    pub fn append_static(&self, class_name: String, field_name: String) -> (r: Self)
        ensures
            r@ == (PathView {
                root: RootView::Static { class_name: class_name@, field_name: field_name@ },
                segments: Seq::empty(),
                hooks: self@.hooks,
            }),
    {
        let r = AccessPath { root: PathRoot::Static { class_name, field_name }, segments: Vec::new(), hooks: self.hooks };
        assert(r@.segments =~= Seq::<SegmentView>::empty());
        r
    }

    /// The path unchanged when it has at most `max_depth` segments; otherwise its
    /// first `max_depth` segments followed by a wildcard.
    pub fn truncate(&self, max_depth: usize) -> (r: Self)
        ensures
            self@.segments.len() <= max_depth ==> r@ == self@,
            self@.segments.len() > max_depth ==> r@ == (PathView {
                segments: self@.segments.take(max_depth as int).push(SegmentView::Wildcard),
                ..self@
            }),
    {
        if self.segments.len() <= max_depth {
            return self.duplicate();
        }
        let mut segs: Vec<PathSegment> = Vec::new();
        let mut i: usize = 0;
        while i < max_depth
            invariant
                i <= max_depth < self.segments@.len(),
                segs@ == self.segments@.take(i as int),
            decreases max_depth - i,
        {
            segs.push(self.segments[i].duplicate());
            assert(self.segments@.take(i + 1int) =~= self.segments@.take(i as int).push(self.segments@[i as int]));
            i = i + 1;
        }
        segs.push(PathSegment::Wildcard);
        let r = AccessPath { root: self.root.duplicate(), segments: segs, hooks: self.hooks };
        assert(r@.segments =~= self@.segments.take(max_depth as int).push(SegmentView::Wildcard));
        r
    }

    /// The path with every name trimmed of surrounding white space.
    pub fn normalize(&self) -> (r: Self)
        ensures
            r@ == (PathView {
                root: normalize_root(self@.root),
                segments: self@.segments.map_values(|s: SegmentView| normalize_segment(s)),
                hooks: self@.hooks,
            }),
    {
        let root = match &self.root {
            PathRoot::Local(n) => PathRoot::Local(trimmed(n.as_str())),
            PathRoot::Static { class_name, field_name } =>
                PathRoot::Static { class_name: trimmed(class_name.as_str()), field_name: trimmed(field_name.as_str()) },
            PathRoot::Constant(v) => PathRoot::Constant(trimmed(v.as_str())),
            other => other.duplicate(),
        };
        let mut segs: Vec<PathSegment> = Vec::new();
        let mut i: usize = 0;
        while i < self.segments.len()
            invariant
                i <= self.segments@.len(),
                segment_views(segs@) == self@.segments.take(i as int).map_values(|s: SegmentView| normalize_segment(s)),
            decreases self.segments.len() - i,
        {
            let seg = match &self.segments[i] {
                PathSegment::Field(n) => PathSegment::Field(trimmed(n.as_str())),
                other => other.duplicate(),
            };
            assert(seg@ == normalize_segment(self@.segments[i as int]));
            let ghost prev = segs@;
            segs.push(seg);
            assert(segment_views(segs@) =~= segment_views(prev).push(seg@));
            assert(self@.segments.take(i + 1int) =~= self@.segments.take(i as int).push(self@.segments[i as int]));
            assert(self@.segments.take(i + 1int).map_values(|s: SegmentView| normalize_segment(s)) =~=
                self@.segments.take(i as int).map_values(|s: SegmentView| normalize_segment(s)).push(normalize_segment(self@.segments[i as int])));
            assert(segment_views(segs@) =~= self@.segments.take(i + 1int).map_values(|s: SegmentView| normalize_segment(s)));
            i = i + 1;
        }
        assert(self@.segments.take(self@.segments.len() as int) =~= self@.segments);
        AccessPath { root, segments: segs, hooks: self.hooks }
    }

    /// The canonical form of the path: its normalization.
    pub fn canonicalize(&self) -> (r: Self)
        ensures
            r@ == (PathView {
                root: normalize_root(self@.root),
                segments: self@.segments.map_values(|s: SegmentView| normalize_segment(s)),
                hooks: self@.hooks,
            }),
    {
        self.normalize()
    }

    /// The text of the path, as `Display` would show it.
    pub fn to_display_string(&self) -> (r: String)
        ensures
            r@ == path_text(self@),
    {
        let mut out = String::new();
        self.root.write_text(&mut out);
        let mut i: usize = 0;
        while i < self.segments.len()
            invariant
                i <= self.segments@.len(),
                out@ == root_text(self@.root) + segments_text(self@.segments.take(i as int)),
            decreases self.segments.len() - i,
        {
            assert(self@.segments.take(i + 1int).drop_last() =~= self@.segments.take(i as int));
            self.segments[i].write_text(&mut out);
            assert(out@ =~= root_text(self@.root) + segments_text(self@.segments.take(i + 1int)));
            i = i + 1;
        }
        assert(self@.segments.take(self@.segments.len() as int) =~= self@.segments);
        out
    }
}

/// Normalizing twice gives what normalizing once gives.
pub proof fn law_normalize_idempotent(p: PathView)
    ensures
        normalize_root(normalize_root(p.root)) == normalize_root(p.root),
        p.segments.map_values(|s: SegmentView| normalize_segment(s)).map_values(|s: SegmentView| normalize_segment(s))
            == p.segments.map_values(|s: SegmentView| normalize_segment(s)),
{
    assert forall|s: SegmentView| #[trigger] normalize_segment(normalize_segment(s)) == normalize_segment(s) by {
        if let SegmentView::Field(n) = s {
            crate::text::lemma_trim_idempotent(n);
        }
    }
    match p.root {
        RootView::Local(n) => crate::text::lemma_trim_idempotent(n),
        RootView::Static { class_name, field_name } => {
            crate::text::lemma_trim_idempotent(class_name);
            crate::text::lemma_trim_idempotent(field_name);
        },
        RootView::Constant(v) => crate::text::lemma_trim_idempotent(v),
        _ => {},
    }
    let once = p.segments.map_values(|s: SegmentView| normalize_segment(s));
    assert(once.map_values(|s: SegmentView| normalize_segment(s)) =~= once);
}

} // verus!
