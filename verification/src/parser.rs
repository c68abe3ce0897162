//! Concrete syntax trees: the tree type the analyses walk, and the Python
//! parser that builds one from source text.
use vstd::prelude::*;
use crate::common::Span;
use tree_sitter::Parser;
use tree_sitter_python::language;
use self::SyntaxEvent::{Close, Open};
use crate::chars::{char_views, occurs_at, split_char, split_pieces};
use crate::text::{chars_of, is_ws, string_from_chars, trim, trim_end, trim_start};

verus! {

broadcast use vstd::string::group_string_axioms;

/// A node of a concrete syntax tree.
pub trait CstNode {
    fn kind(&self) -> &str;
    fn span(&self) -> Span;
    fn raw(&self) -> &str;
    fn children(&self) -> Vec<&Self>;
}

/// A syntax tree node: its kind, its span, its source text and its named
/// children.
pub struct SimpleCstNode {
    pub kind: String,
    pub span: Span,
    pub raw: String,
    pub children: Vec<SimpleCstNode>,
}

/// A syntax tree over character sequences.
pub struct CstView {
    pub kind: Seq<char>,
    pub span: Span,
    pub raw: Seq<char>,
    pub children: Seq<CstView>,
}

/// The view of a syntax tree.
pub open spec fn cst_view(n: SimpleCstNode) -> CstView
    decreases n,
{
    CstView { kind: n.kind@, span: n.span, raw: n.raw@, children: cst_views(n.children@) }
}

/// The views of a sequence of syntax trees.
pub open spec fn cst_views(s: Seq<SimpleCstNode>) -> Seq<CstView>
    decreases s,
{
    if s.len() == 0 {
        Seq::empty()
    } else {
        cst_views(s.drop_last()).push(cst_view(s.last()))
    }
}

impl View for SimpleCstNode {
    type V = CstView;

    open spec fn view(&self) -> CstView {
        cst_view(*self)
    }
}

impl CstNode for SimpleCstNode {
    fn kind(&self) -> (r: &str)
        ensures
            r@ == self.kind@,
    {
        self.kind.as_str()
    }

    fn span(&self) -> (r: Span)
        ensures
            r == self.span,
    {
        self.span
    }

    fn raw(&self) -> (r: &str)
        ensures
            r@ == self.raw@,
    {
        self.raw.as_str()
    }

    fn children(&self) -> (r: Vec<&SimpleCstNode>)
        ensures
            r@.len() == self.children@.len(),
            forall|i: int| 0 <= i < r@.len() ==> *r@[i] == self.children@[i],
    {
        let mut r: Vec<&SimpleCstNode> = Vec::new();
        let mut i: usize = 0;
        while i < self.children.len()
            invariant
                i <= self.children@.len(),
                r@.len() == i,
                forall|k: int| 0 <= k < i ==> *r@[k] == self.children@[k],
            decreases self.children.len() - i,
        {
            r.push(&self.children[i]);
            i = i + 1;
        }
        r
    }
}

/// One step of a walk over a parsed tree: entering a node, with what the
/// parser knows of it, or leaving the node last entered.
#[derive(Debug, Clone)]
pub enum SyntaxEvent {
    /// Entering a node: its kind, whether it is named, its start row and
    /// column, its end row and column, and its text.
    Open(&'static str, bool, usize, usize, usize, usize, String),
    Close,
}

/// A walk step over character sequences.
pub enum SyntaxEventView {
    Open { kind: Seq<char>, named: bool, start_row: usize, start_col: usize, end_row: usize, end_col: usize, text: Seq<char> },
    Close,
}

impl View for SyntaxEvent {
    type V = SyntaxEventView;

    open spec fn view(&self) -> SyntaxEventView {
        match self {
            SyntaxEvent::Open(kind, named, start_row, start_col, end_row, end_col, text) => SyntaxEventView::Open {
                kind: kind@,
                named: *named,
                start_row: *start_row,
                start_col: *start_col,
                end_row: *end_row,
                end_col: *end_col,
                text: text@,
            },
            SyntaxEvent::Close => SyntaxEventView::Close,
        }
    }
}

/// The views of a walk.
pub open spec fn event_views(v: Seq<SyntaxEvent>) -> Seq<SyntaxEventView> {
    v.map_values(|e: SyntaxEvent| e@)
}

/// What tree-sitter's Python grammar makes of a text: the depth-first walk
/// of its tree, or the error that stopped it.
pub uninterp spec fn python_parse(code: Seq<char>) -> Result<Seq<SyntaxEventView>, Seq<char>>;

/// Trusted: parses `code` with tree-sitter's Python grammar
/// (`Parser::set_language`, `Parser::parse`) and walks the tree with a
/// `TreeCursor`, depth first, every child in order: each node is entered
/// with its kind, whether it is named, its start and end positions and its
/// text, and left after its children. The walk depends on the text alone.
/// An error comes from setting the language, or is `Failed to parse Python
/// code` when the parser gives no tree.
#[verifier::external_body]
fn python_syntax_events(code: &str) -> (r: Result<Vec<SyntaxEvent>, String>)
    ensures
        match r {
            Ok(v) => python_parse(code@) == Ok::<Seq<SyntaxEventView>, Seq<char>>(event_views(v@)),
            Err(e) => python_parse(code@) == Err::<Seq<SyntaxEventView>, Seq<char>>(e@),
        },
{
    let mut p = Parser::new();
    p.set_language(language()).map_err(|e| e.to_string())?;
    let t = p.parse(code, None).ok_or_else(parse_failure)?;
    let (mut c, mut v) = (t.walk(), vec![]);
    loop {
        let n = c.node();
        v.push(Open(n.kind(), n.is_named(), n.start_position().row, n.start_position().column, n.end_position().row, n.end_position().column, n.utf8_text(code.as_bytes()).unwrap_or_default().into()));
        if !c.goto_first_child() {
            loop {
                v.push(Close);
                if c.goto_next_sibling() { break; }
                if !c.goto_parent() { return Ok(v); }
            }
        }
    }
}

/// The error of a parse that gave no tree.
fn parse_failure() -> (r: String)
    ensures
        r@ == "Failed to parse Python code"@,
{
    String::from_str("Failed to parse Python code")
}

/// The analysis kind of a tree-sitter Python node kind.
pub open spec fn python_kind(k: Seq<char>) -> Seq<char> {
    if k == "call"@ { "CallExpression"@ }
    else if k == "assignment"@ || k == "augmented_assignment"@ || k == "named_expression"@ { "AssignmentExpression"@ }
    else if k == "identifier"@ { "Identifier"@ }
    else if k == "string"@ || k == "integer"@ || k == "float"@ || k == "true"@ || k == "false"@ || k == "none"@ { "Literal"@ }
    else if k == "if_statement"@ { "IfStatement"@ }
    else if k == "while_statement"@ { "WhileStatement"@ }
    else if k == "for_statement"@ { "ForStatement"@ }
    else if k == "try_statement"@ { "TryStatement"@ }
    else if k == "except_clause"@ { "CatchClause"@ }
    else if k == "with_statement"@ { "WithStatement"@ }
    else if k == "with_item"@ { "WithItem"@ }
    else if k == "block"@ { "Block"@ }
    else if k == "return_statement"@ { "ReturnStatement"@ }
    else if k == "function_definition"@ { "FunctionDefinition"@ }
    else if k == "class_definition"@ { "ClassDefinition"@ }
    else if k == "import_statement"@ || k == "import_from_statement"@ { "ImportStatement"@ }
    else { k }
}

/// Whether `k` reads as the literal `lit`.
fn kind_is(k: &str, lit: &str) -> (r: bool)
    ensures
        r == (k@ == lit@),
{
    crate::text::str_eq(k, lit)
}

/// The analysis kind of a tree-sitter Python node kind.
fn map_python_kind(k: &str) -> (r: String)
    ensures
        r@ == python_kind(k@),
{
    let s = if kind_is(k, "call") { "CallExpression" }
        else if kind_is(k, "assignment") || kind_is(k, "augmented_assignment") || kind_is(k, "named_expression") { "AssignmentExpression" }
        else if kind_is(k, "identifier") { "Identifier" }
        else if kind_is(k, "string") || kind_is(k, "integer") || kind_is(k, "float") || kind_is(k, "true") || kind_is(k, "false") || kind_is(k, "none") { "Literal" }
        else if kind_is(k, "if_statement") { "IfStatement" }
        else if kind_is(k, "while_statement") { "WhileStatement" }
        else if kind_is(k, "for_statement") { "ForStatement" }
        else if kind_is(k, "try_statement") { "TryStatement" }
        else if kind_is(k, "except_clause") { "CatchClause" }
        else if kind_is(k, "with_statement") { "WithStatement" }
        else if kind_is(k, "with_item") { "WithItem" }
        else if kind_is(k, "block") { "Block" }
        else if kind_is(k, "return_statement") { "ReturnStatement" }
        else if kind_is(k, "function_definition") { "FunctionDefinition" }
        else if kind_is(k, "class_definition") { "ClassDefinition" }
        else if kind_is(k, "import_statement") || kind_is(k, "import_from_statement") { "ImportStatement" }
        else { k };
    String::from_str(s)
}

/// Where the subtree being walked ends, scanning from `pos` at nesting
/// `depth`: the position after the `Close` that brings the nesting back to
/// zero, or `None` when the walk ends first or closes more than it opened.
pub open spec fn subtree_end(evs: Seq<SyntaxEventView>, pos: int, depth: nat) -> Option<int>
    decreases evs.len() - pos,
{
    if pos < 0 || pos >= evs.len() {
        None
    } else {
        match evs[pos] {
            SyntaxEventView::Open { .. } => subtree_end(evs, pos + 1, depth + 1),
            SyntaxEventView::Close => if depth <= 1 {
                if depth == 1 { Some(pos + 1) } else { None }
            } else {
                subtree_end(evs, pos + 1, (depth - 1) as nat)
            },
        }
    }
}

/// The tree whose `Open` event is at `pos`, with its named children only
/// and its kind mapped to the analysis kind, and the position after its
/// `Close`.
pub open spec fn parse_node(evs: Seq<SyntaxEventView>, pos: int) -> Option<(CstView, int)>
    decreases evs.len() - pos, 0int,
{
    if pos < 0 || pos >= evs.len() {
        None
    } else {
        match evs[pos] {
            SyntaxEventView::Open { kind, start_row, start_col, end_row, end_col, text, .. } => {
                if start_row >= usize::MAX || end_row >= usize::MAX {
                    None
                } else {
                    match parse_children(evs, pos + 1) {
                        Some((cs, next)) => Some((
                            CstView {
                                kind: python_kind(kind),
                                span: Span {
                                    start_line: (start_row + 1) as usize,
                                    start_col,
                                    end_line: (end_row + 1) as usize,
                                    end_col,
                                },
                                raw: text,
                                children: cs,
                            },
                            next,
                        )),
                        None => None,
                    }
                }
            },
            SyntaxEventView::Close => None,
        }
    }
}

/// The named children from `i` up to the `Close` of their parent, and the
/// position after that `Close`.
pub open spec fn parse_children(evs: Seq<SyntaxEventView>, i: int) -> Option<(Seq<CstView>, int)>
    decreases evs.len() - i, 1int,
{
    if i < 0 || i >= evs.len() {
        None
    } else {
        match evs[i] {
            SyntaxEventView::Close => Some((Seq::empty(), i + 1)),
            SyntaxEventView::Open { named, .. } => {
                let next = if named {
                    match parse_node(evs, i) {
                        Some((c, n)) => Some(n),
                        None => None,
                    }
                } else {
                    subtree_end(evs, i, 0)
                };
                match next {
                    Some(n) => if n > i && n <= evs.len() {
                        match parse_children(evs, n) {
                            Some((cs, e)) => if named {
                                Some((seq![parse_node(evs, i).unwrap().0] + cs, e))
                            } else {
                                Some((cs, e))
                            },
                            None => None,
                        }
                    } else {
                        None
                    },
                    None => None,
                }
            },
        }
    }
}

/// The tree a walk describes: the tree of its first node, or an error when
/// the walk is empty or does not describe a tree.
pub open spec fn walk_tree(evs: Seq<SyntaxEventView>) -> Result<CstView, Seq<char>> {
    if evs.len() == 0 {
        Err("Failed to parse Python code"@)
    } else {
        match parse_node(evs, 0) {
            Some((root, _)) => Ok(root),
            None => Err("Failed to parse Python code"@),
        }
    }
}

/// What `parse_python` makes of a text: the tree of the walk of its
/// cleaned text, or the error.
pub open spec fn python_tree(code: Seq<char>) -> Result<CstView, Seq<char>> {
    match python_parse(preprocessed(code)) {
        Err(e) => Err(e),
        Ok(evs) => walk_tree(evs),
    }
}

/// Skips the subtree whose `Open` event is at `pos`: the position after
/// its `Close`, or `None` when the walk ends first.
fn skip_subtree(events: &Vec<SyntaxEvent>, pos: usize) -> (r: Option<usize>)
    requires
        pos < events@.len(),
    ensures
        (match r { Some(p) => Some(p as int), None => None }) == subtree_end(event_views(events@), pos as int, 0),
        r matches Some(p) ==> pos < p <= events@.len(),
{
    let ghost evs = event_views(events@);
    let mut depth: usize = 0;
    let mut i = pos;
    while i < events.len()
        invariant
            pos <= i <= events@.len(),
            evs == event_views(events@),
            depth <= i - pos,
            i > pos ==> depth >= 1,
            subtree_end(evs, pos as int, 0) == subtree_end(evs, i as int, depth as nat),
        decreases events.len() - i,
    {
        assert(evs[i as int] == events@[i as int]@);
        match &events[i] {
            SyntaxEvent::Open(..) => { depth = depth + 1; },
            SyntaxEvent::Close => {
                if depth <= 1 {
                    if depth == 1 {
                        return Some(i + 1);
                    }
                    return None;
                }
                depth = depth - 1;
            },
        }
        i = i + 1;
    }
    None
}

/// Builds the node whose `Open` event is at `pos`, keeping only its named
/// children, and returns it with the position after its `Close`.
fn build_node(events: &Vec<SyntaxEvent>, pos: usize) -> (r: Option<(SimpleCstNode, usize)>)
    requires
        pos < events@.len(),
    ensures
        match r {
            Some((n, p)) => parse_node(event_views(events@), pos as int) == Some((n@, p as int)),
            None => parse_node(event_views(events@), pos as int) is None,
        },
        r matches Some((n, p)) ==> pos < p <= events@.len(),
    decreases events@.len() - pos,
{
    let ghost evs = event_views(events@);
    let n_events = events.len();
    assert(evs[pos as int] == events@[pos as int]@);
    let (kind, start_row, start_col, end_row, end_col, text) = match &events[pos] {
        SyntaxEvent::Open(kind, _, start_row, start_col, end_row, end_col, text) => (*kind, *start_row, *start_col, *end_row, *end_col, text),
        SyntaxEvent::Close => { return None; },
    };
    if start_row >= usize::MAX || end_row >= usize::MAX {
        return None;
    }
    let span = Span { start_line: start_row + 1, start_col, end_line: end_row + 1, end_col };
    let mut children: Vec<SimpleCstNode> = Vec::new();
    let mut i = pos + 1;
    assert(cst_views(children@) =~= Seq::<CstView>::empty());
    assert(children@ =~= Seq::<SimpleCstNode>::empty());
    assert(parse_node(evs, pos as int) == match parse_children(evs, pos + 1) {
        Some((cs, e)) => Some((CstView { kind: python_kind(kind@), span, raw: text@, children: cs }, e)),
        None => None,
    });
    while i < events.len()
        invariant
            pos < i <= events@.len(),
            evs == event_views(events@),
            parse_node(evs, pos as int) == match parse_children(evs, pos + 1) {
                Some((cs, e)) => Some((CstView { kind: python_kind(kind@), span, raw: text@, children: cs }, e)),
                None => None,
            },
            parse_children(evs, pos + 1) == match parse_children(evs, i as int) {
                Some((cs, e)) => Some((cst_views(children@) + cs, e)),
                None => None,
            },
        decreases events@.len() - i,
    {
        assert(evs[i as int] == events@[i as int]@);
        match &events[i] {
            SyntaxEvent::Close => {
                let ghost cv = cst_views(children@);
                assert(parse_children(evs, i as int) == Some((Seq::<CstView>::empty(), i + 1)));
                assert(cv + Seq::<CstView>::empty() =~= cv);
                let node = SimpleCstNode { kind: map_python_kind(kind), span, raw: text.clone(), children };
                assert(node@ == CstView { kind: node.kind@, span: node.span, raw: node.raw@, children: cv });
                assert(node.raw@ == text@);
                assert(node.kind@ == python_kind(kind@));
                assert(parse_children(evs, pos + 1) == Some((cv, i + 1)));
                assert(parse_node(evs, pos as int) == Some((node@, i + 1)));
                return Some((node, i + 1));
            },
            SyntaxEvent::Open(_, named, ..) => {
                if *named {
                    match build_node(events, i) {
                        Some((child, next)) => {
                            let ghost before = cst_views(children@);
                            proof {
                                match parse_children(evs, next as int) {
                                    Some((cs, e)) => {
                                        assert(before + (seq![child@] + cs) =~= (before.push(child@)) + cs);
                                    },
                                    None => {},
                                }
                            }
                            let ghost old_children = children@;
                            children.push(child);
                            assert(children@.drop_last() =~= old_children);
                            assert(children@.last() == child);
                            assert(cst_views(children@) == before.push(child@));
                            i = next;
                        },
                        None => { return None; },
                    }
                } else {
                    match skip_subtree(events, i) {
                        Some(next) => { i = next; },
                        None => { return None; },
                    }
                }
            },
        }
    }
    None
}

/// The tree a walk describes: the tree of its first node, with named
/// children only and analysis kinds, or an error when the walk is empty or
/// does not describe a tree.
pub fn tree_from_events(events: &Vec<SyntaxEvent>) -> (r: Result<SimpleCstNode, String>)
    ensures
        match r {
            Ok(n) => walk_tree(event_views(events@)) == Ok::<CstView, Seq<char>>(n@),
            Err(e) => walk_tree(event_views(events@)) == Err::<CstView, Seq<char>>(e@),
        },
{
    if events.len() == 0 {
        return Err(String::from_str("Failed to parse Python code"));
    }
    match build_node(events, 0) {
        Some((root, _)) => Ok(root),
        None => Err(String::from_str("Failed to parse Python code")),
    }
}

/// Parses Python text: the text is first cleaned as `preprocess_python`
/// does, then parsed with tree-sitter's grammar, and the tree converted to
/// analysis kinds with its named nodes only.
pub fn parse_python(code: &str) -> (r: Result<SimpleCstNode, String>)
    ensures
        match r {
            Ok(n) => python_tree(code@) == Ok::<CstView, Seq<char>>(n@),
            Err(e) => python_tree(code@) == Err::<CstView, Seq<char>>(e@),
        },
{
    let preprocessed = preprocess_python(code);
    let events = python_syntax_events(preprocessed.as_str())?;
    tree_from_events(&events)
}

/// The number of bytes UTF-8 takes for `c`.
pub open spec fn utf8_len(c: char) -> nat {
    let n = c as u32;
    if n < 0x80 { 1 } else if n < 0x800 { 2 } else if n < 0x10000 { 3 } else { 4 }
}

/// The number of bytes UTF-8 takes for `c`.
fn utf8_len_of(c: char) -> (r: u128)
    ensures
        r == utf8_len(c),
{
    let n = c as u32;
    if n < 0x80 { 1 } else if n < 0x800 { 2 } else if n < 0x10000 { 3 } else { 4 }
}

/// The bytes of the leading white space of `s`.
pub open spec fn indent_of(s: Seq<char>) -> nat
    decreases s.len(),
{
    if s.len() > 0 && is_ws(s[0]) { utf8_len(s[0]) + indent_of(s.drop_first()) } else { 0 }
}

/// How many more brackets `s` opens than it closes.
pub open spec fn bracket_balance(s: Seq<char>) -> int
    decreases s.len(),
{
    if s.len() == 0 {
        0
    } else {
        bracket_balance(s.drop_last()) + if s.last() == '(' || s.last() == '[' || s.last() == '{' {
            1int
        } else if s.last() == ')' || s.last() == ']' || s.last() == '}' {
            -1int
        } else {
            0int
        }
    }
}

/// The bytes of leading white space of `line`.
fn indent_bytes(line: &[char]) -> (r: u128)
    ensures
        r == indent_of(line@),
{
    let mut n: u128 = 0;
    let mut i: usize = 0;
    assert(line@.skip(0) =~= line@);
    while i < line.len() && crate::text::is_whitespace(line[i])
        invariant
            i <= line@.len(),
            n <= 4 * i,
            n + indent_of(line@.skip(i as int)) == indent_of(line@),
        decreases line.len() - i,
    {
        assert(line@.skip(i as int).drop_first() =~= line@.skip(i + 1int));
        n = n + utf8_len_of(line[i]);
        i = i + 1;
    }
    n
}

/// How many more brackets `s` opens than it closes.
fn bracket_count(s: &[char]) -> (r: i128)
    ensures
        r == bracket_balance(s@),
{
    let mut r: i128 = 0;
    let mut c: usize = 0;
    assert(s@.take(0) =~= Seq::<char>::empty());
    while c < s.len()
        invariant
            c <= s@.len(),
            -(c as int) <= r <= c,
            r == bracket_balance(s@.take(c as int)),
        decreases s.len() - c,
    {
        assert(s@.take(c + 1int).drop_last() =~= s@.take(c as int));
        let ch = s[c];
        if ch == '(' || ch == '[' || ch == '{' {
            r = r + 1;
        } else if ch == ')' || ch == ']' || ch == '}' {
            r = r - 1;
        }
        c = c + 1;
    }
    assert(s@.take(s@.len() as int) =~= s@);
    r
}

/// `line` without its leading white space.
fn trim_start_chars(line: &[char]) -> (r: Vec<char>)
    ensures
        r@ == trim_start(line@),
{
    let mut i: usize = 0;
    assert(line@.skip(0) =~= line@);
    while i < line.len() && crate::text::is_whitespace(line[i])
        invariant
            i <= line@.len(),
            trim_start(line@) == trim_start(line@.skip(i as int)),
        decreases line.len() - i,
    {
        assert(line@.skip(i as int).drop_first() =~= line@.skip(i + 1int));
        i = i + 1;
    }
    assert(trim_start(line@.skip(i as int)) == line@.skip(i as int));
    let r = crate::chars::slice_of(line, i, line.len());
    assert(r@ =~= line@.skip(i as int));
    r
}

/// Appends the characters of `v` to `out`.
fn push_all(out: &mut Vec<char>, v: &[char])
    ensures
        final(out)@ == old(out)@ + v@,
{
    let mut i: usize = 0;
    while i < v.len()
        invariant
            i <= v@.len(),
            out@ == old(out)@ + v@.take(i as int),
        decreases v.len() - i,
    {
        out.push(v[i]);
        assert(v@.take(i + 1int) =~= v@.take(i as int).push(v@[i as int]));
        i = i + 1;
    }
    assert(v@.take(v@.len() as int) =~= v@);
}

/// Where the cleaning of a line stands: still before the first `class` or
/// `def`, inside a class header, the brackets left open there, and whether
/// the header already got its `pass`.
pub struct CleanState {
    pub top_level: bool,
    pub class_header: bool,
    pub open_brackets: int,
    pub inserted_pass: bool,
}

/// The line that replaces the first offending line of a class header.
pub open spec fn pass_line() -> Seq<char> {
    seq![' ', ' ', ' ', ' ', 'p', 'a', 's', 's']
}

/// What prefixes the other offending lines of a class header.
pub open spec fn stripped_prefix() -> Seq<char> {
    seq!['#', ' ', 's', 't', 'r', 'i', 'p', 'p', 'e', 'd', ':', ' ']
}

/// Cleans one line: the new state and the line to keep. A blank line is
/// kept. Before the first `class` or `def` a line loses its indentation. In
/// a class header (after a `class` line, up to a `def` line), a line that
/// closes more brackets than it opens while none is open, or is indented
/// twelve bytes or more and is neither a comment nor a docstring, becomes
/// `    pass` the first time and a `# stripped:` comment after that; any
/// other header line counts its brackets.
pub open spec fn clean_line(st: CleanState, line: Seq<char>) -> (CleanState, Seq<char>) {
    let stripped = trim(line);
    if stripped.len() == 0 {
        (st, line)
    } else {
        let is_class = occurs_at(stripped, seq!['c', 'l', 'a', 's', 's', ' '], 0);
        let is_def = occurs_at(stripped, seq!['d', 'e', 'f', ' '], 0);
        let top = st.top_level && !(is_class || is_def);
        let kept = if top { trim_start(line) } else { line };
        let header = if is_class { true } else if is_def { false } else { st.class_header };
        let passed = if is_class { false } else { st.inserted_pass };
        if header && !is_class {
            let balance = bracket_balance(stripped);
            let is_comment = stripped[0] == '#';
            let is_docstring = occurs_at(stripped, seq!['"', '"', '"'], 0) || occurs_at(stripped, seq!['\'', '\'', '\''], 0);
            if (balance < 0 && st.open_brackets == 0) || (indent_of(line) >= 12 && !is_comment && !is_docstring) {
                if !passed {
                    (CleanState { top_level: top, class_header: header, open_brackets: st.open_brackets, inserted_pass: true }, pass_line())
                } else {
                    (CleanState { top_level: top, class_header: header, open_brackets: st.open_brackets, inserted_pass: passed }, stripped_prefix() + stripped)
                }
            } else {
                let sum = st.open_brackets + balance;
                (CleanState { top_level: top, class_header: header, open_brackets: if sum > 0 { sum } else { 0 }, inserted_pass: passed }, kept)
            }
        } else {
            (CleanState { top_level: top, class_header: header, open_brackets: st.open_brackets, inserted_pass: passed }, kept)
        }
    }
}

/// The state before the first line.
pub open spec fn clean_start() -> CleanState {
    CleanState { top_level: true, class_header: false, open_brackets: 0, inserted_pass: false }
}

/// Cleans the lines in order: the state after them and the lines kept.
pub open spec fn clean_lines(lines: Seq<Seq<char>>) -> (CleanState, Seq<Seq<char>>)
    decreases lines.len(),
{
    if lines.len() == 0 {
        (clean_start(), Seq::empty())
    } else {
        let (st, out) = clean_lines(lines.drop_last());
        let (st2, l) = clean_line(st, lines.last());
        (st2, out.push(l))
    }
}

/// The lines joined with line breaks between them.
pub open spec fn join_lines(lines: Seq<Seq<char>>) -> Seq<char>
    decreases lines.len(),
{
    if lines.len() == 0 {
        Seq::empty()
    } else if lines.len() == 1 {
        lines[0]
    } else {
        join_lines(lines.drop_last()) + seq!['\n'] + lines.last()
    }
}

/// The indentation, in bytes, of the first line that is not blank, if any.
pub open spec fn first_indent(lines: Seq<Seq<char>>) -> Option<nat>
    decreases lines.len(),
{
    if lines.len() == 0 {
        None
    } else {
        match first_indent(lines.drop_last()) {
            Some(n) => Some(n),
            None => if trim(lines.last()).len() > 0 { Some(indent_of(lines.last())) } else { None },
        }
    }
}

/// Python text cleaned for parsing: text whose first line that is not blank
/// is indented by fewer than eight bytes stays as it is; otherwise each line
/// is cleaned as `clean_line` says.
pub open spec fn preprocessed(code: Seq<char>) -> Seq<char> {
    let lines = split_pieces(code, '\n');
    let indent = match first_indent(lines) {
        Some(n) => n,
        None => 0,
    };
    if indent < 8 { code } else { join_lines(clean_lines(lines).1) }
}

/// Cleans Python text that was cut out of a larger file with its
/// indentation, as `preprocessed` says.
pub fn preprocess_python(code: &str) -> (r: String)
    ensures
        r@ == preprocessed(code@),
{
    let chars = chars_of(code);
    let lines = split_char(chars.as_slice(), '\n');
    let ghost lv = char_views(lines@);
    let mut first: Option<u128> = None;
    let mut k: usize = 0;
    assert(lv.take(0) =~= Seq::<Seq<char>>::empty());
    while k < lines.len() && first.is_none()
        invariant
            k <= lines@.len(),
            lv == char_views(lines@),
            first matches Some(n) ==> first_indent(lv) == Some(n as nat),
            first is None ==> first_indent(lv.take(k as int)) is None,
        decreases lines.len() - k,
    {
        assert(lv.take(k + 1int).drop_last() =~= lv.take(k as int));
        assert(lv[k as int] == lines@[k as int]@);
        let t = crate::text::trim_chars(lines[k].as_slice());
        if t.len() > 0 {
            let n = indent_bytes(lines[k].as_slice());
            proof { lemma_first_indent_prefix(lv, k as int); }
            first = Some(n);
        }
        k = k + 1;
    }
    if first.is_none() {
        assert(lv.take(lines@.len() as int) =~= lv);
    }
    let indent: u128 = match first {
        Some(n) => n,
        None => 0,
    };
    if indent < 8 {
        return string_from_chars(chars.as_slice());
    }
    let mut out: Vec<char> = Vec::new();
    let mut in_top_level = true;
    let mut in_class_header = false;
    let mut open_parens: i128 = 0;
    let mut inserted_pass = false;
    let mut li: usize = 0;
    assert(lv.take(0) =~= Seq::<Seq<char>>::empty());
    proof { lemma_split_lengths(chars@, '\n'); }
    let n_chars = chars.len();
    while li < lines.len()
        invariant
            n_chars == chars@.len(),
            li <= lines@.len(),
            lv == char_views(lines@),
            lines@.len() <= chars@.len() + 1,
            0 <= open_parens <= line_lengths(lv.take(li as int)),
            line_lengths(lv) <= chars@.len(),
            clean_lines(lv.take(li as int)).0 == (CleanState {
                top_level: in_top_level,
                class_header: in_class_header,
                open_brackets: open_parens as int,
                inserted_pass,
            }),
            out@ == join_lines(clean_lines(lv.take(li as int)).1),
            clean_lines(lv.take(li as int)).1.len() == li,
            forall|k: int| 0 <= k < lines@.len() ==> (#[trigger] lines@[k])@.len() <= chars@.len(),
        decreases lines.len() - li,
    {
        let ghost before = lv.take(li as int);
        let ghost t = lv.take(li + 1int);
        assert(t.drop_last() =~= before);
        assert(t.last() == lines@[li as int]@);
        let ghost cl = clean_lines(before).1;
        let line = lines[li].as_slice();
        let ghost o0 = out@;
        if li > 0 {
            out.push('\n');
        }
        let stripped = crate::text::trim_chars(line);
        let line_to_add: Vec<char>;
        if stripped.len() == 0 {
            line_to_add = crate::chars::slice_of(line, 0, line.len());
            assert(line_to_add@ =~= line@);
        } else {
            let is_class = crate::chars::starts_with(stripped.as_slice(), &['c', 'l', 'a', 's', 's', ' ']);
            let is_def = crate::chars::starts_with(stripped.as_slice(), &['d', 'e', 'f', ' ']);
            if in_top_level && (is_class || is_def) {
                in_top_level = false;
            }
            let mut kept: Vec<char> = if in_top_level {
                trim_start_chars(line)
            } else {
                let v = crate::chars::slice_of(line, 0, line.len());
                assert(v@ =~= line@);
                v
            };
            if is_class {
                in_class_header = true;
                inserted_pass = false;
            } else if is_def {
                in_class_header = false;
            }
            if in_class_header && !is_class {
                let line_parens = bracket_count(stripped.as_slice());
                let indent = indent_bytes(line);
                let is_comment = stripped[0] == '#';
                let is_docstring = crate::chars::starts_with(stripped.as_slice(), &['"', '"', '"'])
                    || crate::chars::starts_with(stripped.as_slice(), &['\'', '\'', '\'']);
                if (line_parens < 0 && open_parens == 0) || (indent >= 12 && !is_comment && !is_docstring) {
                    if !inserted_pass {
                        kept = vec![' ', ' ', ' ', ' ', 'p', 'a', 's', 's'];
                        inserted_pass = true;
                    } else {
                        let mut replaced: Vec<char> = vec!['#', ' ', 's', 't', 'r', 'i', 'p', 'p', 'e', 'd', ':', ' '];
                        push_all(&mut replaced, stripped.as_slice());
                        kept = replaced;
                    }
                } else {
                    proof {
                        lemma_bracket_balance_bound(stripped@);
                        lemma_trim_len(line@);
                        lemma_line_lengths_prefix(lv, li as int);
                        assert(stripped@.len() <= line@.len());
                        assert(line_parens <= line@.len());
                        assert(open_parens <= chars@.len());
                    }
                    let sum = open_parens + line_parens;
                    open_parens = if sum > 0 { sum } else { 0 };
                }
            }
            line_to_add = kept;
        }
        assert(line_to_add@ == clean_line(clean_lines(before).0, line@).1);
        push_all(&mut out, line_to_add.as_slice());
        proof {
            if li > 0 {
                assert(join_lines(cl.push(line_to_add@)) == join_lines(cl) + seq!['\n'] + line_to_add@) by {
                    assert(cl.push(line_to_add@).drop_last() =~= cl);
                }
                assert(out@ =~= o0 + seq!['\n'] + line_to_add@);
            } else {
                assert(cl.push(line_to_add@).len() == 1);
                assert(out@ =~= line_to_add@);
            }
        }
        li = li + 1;
    }
    assert(lv.take(lines@.len() as int) =~= lv);
    string_from_chars(out.as_slice())
}

/// The first indentation of a prefix whose last line is the first that is
/// not blank is that line's, and stays so for every longer prefix.
proof fn lemma_first_indent_prefix(lv: Seq<Seq<char>>, k: int)
    requires
        0 <= k < lv.len(),
        first_indent(lv.take(k)) is None,
        trim(lv[k]).len() > 0,
    ensures
        first_indent(lv) == Some(indent_of(lv[k])),
{
    assert(lv.take(k + 1).drop_last() =~= lv.take(k));
    lemma_first_indent_grows(lv, k + 1, lv.len() as int);
    assert(lv.take(lv.len() as int) =~= lv);
}

/// Once a prefix has a first indentation, longer prefixes keep it.
proof fn lemma_first_indent_grows(lv: Seq<Seq<char>>, a: int, b: int)
    requires
        0 <= a <= b <= lv.len(),
        first_indent(lv.take(a)) is Some,
    ensures
        first_indent(lv.take(b)) == first_indent(lv.take(a)),
    decreases b - a,
{
    if b > a {
        lemma_first_indent_grows(lv, a, b - 1);
        assert(lv.take(b).drop_last() =~= lv.take(b - 1));
    }
}

/// A line's bracket balance is at most its length either way.
proof fn lemma_bracket_balance_bound(s: Seq<char>)
    ensures
        -(s.len() as int) <= bracket_balance(s) <= s.len(),
    decreases s.len(),
{
    if s.len() > 0 {
        lemma_bracket_balance_bound(s.drop_last());
    }
}


/// The total length of the lines.
pub open spec fn line_lengths(lines: Seq<Seq<char>>) -> nat
    decreases lines.len(),
{
    if lines.len() == 0 { 0 } else { line_lengths(lines.drop_last()) + lines.last().len() }
}

/// The pieces of a text are no longer than the text.
proof fn lemma_split_lengths(s: Seq<char>, sep: char)
    ensures
        line_lengths(split_pieces(s, sep)) <= s.len(),
        split_pieces(s, sep).len() >= 1,
    decreases s.len(),
{
    if s.len() > 0 {
        lemma_split_lengths(s.drop_last(), sep);
        let p = split_pieces(s.drop_last(), sep);
        if s.last() == sep {
            assert(p.push(Seq::<char>::empty()).drop_last() =~= p);
            assert(line_lengths(p.push(Seq::<char>::empty())) == line_lengths(p));
        } else {
            let q = p.update(p.len() - 1, p.last().push(s.last()));
            assert(q.drop_last() =~= p.drop_last());
            assert(line_lengths(q) == line_lengths(q.drop_last()) + q.last().len());
            assert(line_lengths(p) == line_lengths(p.drop_last()) + p.last().len());
            assert(line_lengths(q) == line_lengths(p) + 1);
        }
    } else {
        let p = split_pieces(s, sep);
        assert(p.drop_last() =~= Seq::<Seq<char>>::empty());
        assert(line_lengths(Seq::<Seq<char>>::empty()) == 0);
        assert(p.last().len() == 0);
        assert(line_lengths(p) == 0);
    }
}

/// One more line adds its length.
proof fn lemma_line_lengths_prefix(lv: Seq<Seq<char>>, i: int)
    requires
        0 <= i < lv.len(),
    ensures
        line_lengths(lv.take(i + 1)) == line_lengths(lv.take(i)) + lv[i].len(),
        line_lengths(lv.take(i + 1)) <= line_lengths(lv),
{
    assert(lv.take(i + 1).drop_last() =~= lv.take(i));
    lemma_line_lengths_grow(lv, i + 1);
}

/// A prefix is no longer than the whole.
proof fn lemma_line_lengths_grow(lv: Seq<Seq<char>>, i: int)
    requires
        0 <= i <= lv.len(),
    ensures
        line_lengths(lv.take(i)) <= line_lengths(lv),
    decreases lv.len() - i,
{
    if i < lv.len() {
        lemma_line_lengths_grow(lv, i + 1);
        assert(lv.take(i + 1).drop_last() =~= lv.take(i));
    } else {
        assert(lv.take(i) =~= lv);
    }
}

/// Trimming never lengthens.
proof fn lemma_trim_len(s: Seq<char>)
    ensures
        trim(s).len() <= s.len(),
{
    lemma_trim_start_len(s);
    lemma_trim_end_len(trim_start(s));
}

proof fn lemma_trim_start_len(s: Seq<char>)
    ensures
        trim_start(s).len() <= s.len(),
    decreases s.len(),
{
    if s.len() > 0 && is_ws(s[0]) {
        lemma_trim_start_len(s.drop_first());
    }
}

proof fn lemma_trim_end_len(s: Seq<char>)
    ensures
        trim_end(s).len() <= s.len(),
    decreases s.len(),
{
    if s.len() > 0 && is_ws(s.last()) {
        lemma_trim_end_len(s.drop_last());
    }
}

} // verus!
