//! The Java front end: splitting source text into logical statements.
use vstd::prelude::*;
use crate::common::Span;
use crate::text::{is_whitespace, is_ws, trim, trim_chars, trim_start, string_from_chars};
use crate::ir::{InstructionKind, MethodId, Program, TypeId};
use crate::semantic::SemanticInfo;

verus! {

/// One logical statement of Java source, whitespace-trimmed, with the span
/// from its first significant character to the character that ended it.
#[derive(Debug, Clone)]
pub struct LogicalLine {
    pub text: String,
    pub span: Span,
}

/// The state of the statement scanner before position `pos`.
pub struct ScanState {
    pub pos: int,
    pub line: usize,
    pub col: usize,
    pub accum: Seq<char>,
    pub start_line: usize,
    pub start_col: usize,
    pub in_string: bool,
    pub in_char: bool,
    pub in_line_comment: bool,
    pub in_block_comment: bool,
    pub paren: nat,
    pub bracket: nat,
    pub lines: Seq<(Seq<char>, Span)>,
}

/// The scanner before the first character.
pub open spec fn scan_start() -> ScanState {
    ScanState {
        pos: 0,
        line: 1,
        col: 1,
        accum: Seq::empty(),
        start_line: 1,
        start_col: 1,
        in_string: false,
        in_char: false,
        in_line_comment: false,
        in_block_comment: false,
        paren: 0,
        bracket: 0,
        lines: Seq::empty(),
    }
}

/// The character after position `i`, if any.
pub open spec fn next_char(chars: Seq<char>, i: int) -> Option<char> {
    if i + 1 < chars.len() { Some(chars[i + 1]) } else { None }
}

/// `s` with its statement closed: the trimmed text, when not empty, joins
/// the lines with the span from its start to the current position.
pub open spec fn close_statement(s: ScanState) -> Seq<(Seq<char>, Span)> {
    if trim(s.accum).len() > 0 {
        s.lines.push((trim(s.accum), Span { start_line: s.start_line, start_col: s.start_col, end_line: s.line, end_col: s.col }))
    } else {
        s.lines
    }
}

/// What reading the character at `s.pos` does, before the position moves
/// on. Comments are skipped; string and character literals are kept with
/// their escapes; `;`, `{` and `}` close a statement; a line break inside
/// brackets, or after some text, becomes a space.
pub open spec fn scan_char(chars: Seq<char>, s: ScanState) -> ScanState {
    let i = s.pos;
    let c = chars[i];
    let nc = next_char(chars, i);
    let is_newline = c == '\n' || (c == '\r' && nc != Some('\n'));
    let is_crlf = c == '\r' && nc == Some('\n');
    if s.in_line_comment {
        if is_newline || is_crlf { ScanState { in_line_comment: false, ..s } } else { s }
    } else if s.in_block_comment {
        if c == '*' && nc == Some('/') {
            ScanState { in_block_comment: false, pos: i + 1, col: (s.col + 1) as usize, ..s }
        } else {
            s
        }
    } else if s.in_string || s.in_char {
        if c == '\\' {
            match nc {
                Some(n) => ScanState { accum: s.accum.push(c).push(n), pos: i + 1, col: (s.col + 1) as usize, ..s },
                None => ScanState { accum: s.accum.push(c), ..s },
            }
        } else if s.in_string && c == '"' {
            ScanState { in_string: false, accum: s.accum.push(c), ..s }
        } else if !s.in_string && c == '\'' {
            ScanState { in_char: false, accum: s.accum.push(c), ..s }
        } else {
            ScanState { accum: s.accum.push(c), ..s }
        }
    } else if c == '/' && nc == Some('/') {
        ScanState { in_line_comment: true, pos: i + 1, col: (s.col + 1) as usize, ..s }
    } else if c == '/' && nc == Some('*') {
        ScanState { in_block_comment: true, pos: i + 1, col: (s.col + 1) as usize, ..s }
    } else if c == '"' {
        ScanState { in_string: true, accum: s.accum.push(c), ..s }
    } else if c == '\'' {
        ScanState { in_char: true, accum: s.accum.push(c), ..s }
    } else if c == '(' {
        ScanState { paren: s.paren + 1, accum: s.accum.push(c), ..s }
    } else if c == ')' {
        ScanState { paren: if s.paren > 0 { (s.paren - 1) as nat } else { 0 }, accum: s.accum.push(c), ..s }
    } else if c == '[' {
        ScanState { bracket: s.bracket + 1, accum: s.accum.push(c), ..s }
    } else if c == ']' {
        ScanState { bracket: if s.bracket > 0 { (s.bracket - 1) as nat } else { 0 }, accum: s.accum.push(c), ..s }
    } else if c == ';' || c == '{' || c == '}' {
        let t = ScanState { accum: s.accum.push(c), ..s };
        ScanState { lines: close_statement(t), accum: Seq::empty(), start_line: 0, ..s }
    } else if is_newline || is_crlf {
        if s.paren > 0 || s.bracket > 0 || trim(s.accum).len() > 0 {
            ScanState { accum: s.accum.push(' '), ..s }
        } else {
            s
        }
    } else if !is_ws(c) {
        if s.start_line == 0 {
            ScanState { start_line: s.line, start_col: s.col, accum: s.accum.push(c), ..s }
        } else {
            ScanState { accum: s.accum.push(c), ..s }
        }
    } else if s.accum.len() > 0 {
        ScanState { accum: s.accum.push(c), ..s }
    } else {
        s
    }
}

/// One step of the scanner: read a character, then move past it (past
/// both characters of a CRLF), counting lines and columns.
pub open spec fn scan_step(chars: Seq<char>, s: ScanState) -> ScanState {
    let c = chars[s.pos];
    let nc = next_char(chars, s.pos);
    let is_newline = c == '\n' || (c == '\r' && nc != Some('\n'));
    let is_crlf = c == '\r' && nc == Some('\n');
    let t = scan_char(chars, s);
    if is_crlf {
        ScanState { pos: t.pos + 2, line: (t.line + 1) as usize, col: 1, ..t }
    } else if is_newline {
        ScanState { pos: t.pos + 1, line: (t.line + 1) as usize, col: 1, ..t }
    } else {
        ScanState { pos: t.pos + 1, col: (t.col + 1) as usize, ..t }
    }
}

/// The scanner run from `s` to the end of `chars`.
pub open spec fn scan_from(chars: Seq<char>, s: ScanState) -> ScanState
    decreases chars.len() - s.pos,
{
    if s.pos < 0 || s.pos >= chars.len() {
        s
    } else {
        scan_from(chars, scan_step(chars, s))
    }
}

/// The logical statements of `chars`: those the scanner closed, and the
/// text left at the end, if any.
pub open spec fn logical_lines(chars: Seq<char>) -> Seq<(Seq<char>, Span)> {
    close_statement(scan_from(chars, scan_start()))
}

/// The views of a sequence of logical lines.
pub open spec fn line_views(v: Seq<LogicalLine>) -> Seq<(Seq<char>, Span)> {
    v.map_values(|l: LogicalLine| (l.text@, l.span))
}

} // verus!

verus! {

/// Closes the statement in `accum`, as `close_statement` says.
fn close_statement_exec(lines: &mut Vec<LogicalLine>, accum: &Vec<char>, start_line: usize, start_col: usize, line: usize, col: usize)
    ensures
        line_views(final(lines)@) == (if trim(accum@).len() > 0 {
            line_views(old(lines)@).push((trim(accum@), Span { start_line, start_col, end_line: line, end_col: col }))
        } else {
            line_views(old(lines)@)
        }),
{
    let t = trim_chars(accum.as_slice());
    if t.len() > 0 {
        let text = string_from_chars(t.as_slice());
        lines.push(LogicalLine { text, span: Span { start_line, start_col, end_line: line, end_col: col } });
        assert(line_views(lines@) =~= line_views(old(lines)@).push((trim(accum@), Span { start_line, start_col, end_line: line, end_col: col })));
    }
}

/// Splits Java source into logical statements: comments are dropped, a
/// statement ends at `;`, `{` or `}`, and a statement spread over several
/// lines is joined with spaces.
pub fn preprocess_java(code: &str) -> (r: Vec<LogicalLine>)
    requires
        code@.len() + 4 < usize::MAX,
    ensures
        line_views(r@) == logical_lines(code@),
{
    let chars = crate::text::chars_of(code);
    let n = chars.len();
    let mut lines: Vec<LogicalLine> = Vec::new();
    let mut i: usize = 0;
    let mut line: usize = 1;
    let mut col: usize = 1;
    let mut accum: Vec<char> = Vec::new();
    let mut start_line: usize = 1;
    let mut start_col: usize = 1;
    let mut in_string = false;
    let mut in_char = false;
    let mut in_line_comment = false;
    let mut in_block_comment = false;
    let mut paren: usize = 0;
    let mut bracket: usize = 0;
    let ghost cs = chars@;
    assert(cs == code@);
    assert(line_views(lines@) =~= Seq::<(Seq<char>, Span)>::empty());
    assert(accum@ =~= Seq::<char>::empty());
    while i < n
        invariant
            n == cs.len(),
            chars@ == cs,
            n + 4 < usize::MAX,
            i <= n + 1,
            line <= i + 1,
            col <= i + 1,
            paren <= i,
            bracket <= i,
            scan_from(cs, ScanState {
                pos: i as int, line, col, accum: accum@, start_line, start_col, in_string, in_char,
                in_line_comment, in_block_comment, paren: paren as nat, bracket: bracket as nat, lines: line_views(lines@),
            }) == scan_from(cs, scan_start()),
        decreases n + 1 - i,
    {
        let ghost s0 = ScanState {
            pos: i as int, line, col, accum: accum@, start_line, start_col, in_string, in_char,
            in_line_comment, in_block_comment, paren: paren as nat, bracket: bracket as nat, lines: line_views(lines@),
        };
        let c = chars[i];
        let has_next = i + 1 < n;
        let nc = if has_next { chars[i + 1] } else { ' ' };
        let is_newline = c == '\n' || (c == '\r' && !(has_next && nc == '\n'));
        let is_crlf = c == '\r' && has_next && nc == '\n';
        if in_line_comment {
            if is_newline || is_crlf {
                in_line_comment = false;
            }
        } else if in_block_comment {
            if c == '*' && has_next && nc == '/' {
                in_block_comment = false;
                i = i + 1;
                col = col + 1;
            }
        } else if in_string || in_char {
            if c == '\\' {
                accum.push(c);
                if has_next {
                    accum.push(nc);
                    i = i + 1;
                    col = col + 1;
                }
            } else if in_string && c == '"' {
                in_string = false;
                accum.push(c);
            } else if !in_string && c == '\'' {
                in_char = false;
                accum.push(c);
            } else {
                accum.push(c);
            }
        } else if c == '/' && has_next && nc == '/' {
            in_line_comment = true;
            i = i + 1;
            col = col + 1;
        } else if c == '/' && has_next && nc == '*' {
            in_block_comment = true;
            i = i + 1;
            col = col + 1;
        } else if c == '"' {
            in_string = true;
            accum.push(c);
        } else if c == '\'' {
            in_char = true;
            accum.push(c);
        } else if c == '(' {
            paren = paren + 1;
            accum.push(c);
        } else if c == ')' {
            if paren > 0 {
                paren = paren - 1;
            }
            accum.push(c);
        } else if c == '[' {
            bracket = bracket + 1;
            accum.push(c);
        } else if c == ']' {
            if bracket > 0 {
                bracket = bracket - 1;
            }
            accum.push(c);
        } else if c == ';' || c == '{' || c == '}' {
            accum.push(c);
            close_statement_exec(&mut lines, &accum, start_line, start_col, line, col);
            accum = Vec::new();
            start_line = 0;
        } else if is_newline || is_crlf {
            if paren > 0 || bracket > 0 {
                accum.push(' ');
            } else {
                let t = trim_chars(accum.as_slice());
                if t.len() > 0 {
                    accum.push(' ');
                }
            }
        } else if !is_whitespace(c) {
            if start_line == 0 {
                start_line = line;
                start_col = col;
            }
            accum.push(c);
        } else {
            if accum.len() > 0 {
                accum.push(c);
            }
        }
        let ghost t = scan_char(cs, s0);
        assert(t == ScanState {
            pos: i as int, line, col, accum: accum@, start_line, start_col, in_string, in_char,
            in_line_comment, in_block_comment, paren: paren as nat, bracket: bracket as nat, lines: line_views(lines@),
        });
        if is_crlf {
            i = i + 2;
            line = line + 1;
            col = 1;
        } else if is_newline {
            i = i + 1;
            line = line + 1;
            col = 1;
        } else {
            i = i + 1;
            col = col + 1;
        }
        assert(scan_step(cs, s0) == ScanState {
            pos: i as int, line, col, accum: accum@, start_line, start_col, in_string, in_char,
            in_line_comment, in_block_comment, paren: paren as nat, bracket: bracket as nat, lines: line_views(lines@),
        });
    }
    close_statement_exec(&mut lines, &accum, start_line, start_col, line, col);
    lines
}

} // verus!

verus! {

/// Whether every line text is non-empty and already trimmed.
pub open spec fn lines_clean(ls: Seq<(Seq<char>, Span)>) -> bool {
    forall|k: int| 0 <= k < ls.len() ==> (#[trigger] ls[k]).0.len() > 0 && trim(ls[k].0) == ls[k].0
}

proof fn lemma_close_clean(s: ScanState)
    requires
        lines_clean(s.lines),
    ensures
        lines_clean(close_statement(s)),
{
    crate::text::lemma_trim_idempotent(s.accum);
    let r = close_statement(s);
    assert forall|k: int| 0 <= k < r.len() implies (#[trigger] r[k]).0.len() > 0 && trim(r[k].0) == r[k].0 by {
        if k < s.lines.len() {
            assert(r[k] == s.lines[k]);
        }
    }
}

proof fn lemma_scan_clean(chars: Seq<char>, s: ScanState)
    requires
        lines_clean(s.lines),
    ensures
        lines_clean(scan_from(chars, s).lines),
    decreases chars.len() - s.pos,
{
    if 0 <= s.pos < chars.len() {
        let c = chars[s.pos];
        if !s.in_line_comment && !s.in_block_comment && !s.in_string && !s.in_char && (c == ';' || c == '{' || c == '}') {
            lemma_close_clean(ScanState { accum: s.accum.push(c), ..s });
        }
        lemma_scan_clean(chars, scan_step(chars, s));
    }
}

/// Whether `t` ends a statement: its last character is `;`, `{` or `}`.
pub open spec fn ends_statement(t: Seq<char>) -> bool {
    t.len() > 0 && (t.last() == ';' || t.last() == '{' || t.last() == '}')
}

/// What holds of the scanner at every step: each closed statement ends with
/// `;`, `{` or `}`, each span runs forward, and the counters stay in range.
spec fn scan_ok(chars: Seq<char>, s: ScanState) -> bool {
    &&& forall|k: int| 0 <= k < s.lines.len() ==> ends_statement(#[trigger] s.lines[k].0)
    &&& forall|k: int| 0 <= k < s.lines.len() ==> (#[trigger] s.lines[k]).1.start_line <= s.lines[k].1.end_line
    &&& s.start_line <= s.line
    &&& 1 <= s.line <= s.pos + 1
    &&& 0 <= s.pos <= chars.len()
}

proof fn lemma_trim_start_push(a: Seq<char>, c: char)
    requires
        !is_ws(c),
    ensures
        trim_start(a.push(c)).len() > 0,
        trim_start(a.push(c)).last() == c,
    decreases a.len(),
{
    if a.len() > 0 && is_ws(a[0]) {
        assert(a.push(c).drop_first() =~= a.drop_first().push(c));
        lemma_trim_start_push(a.drop_first(), c);
    }
}

proof fn lemma_scan_step_ok(chars: Seq<char>, s: ScanState)
    requires
        chars.len() + 4 < usize::MAX,
        scan_ok(chars, s),
        s.pos < chars.len(),
    ensures
        scan_ok(chars, scan_step(chars, s)),
{
    let c = chars[s.pos];
    if !s.in_line_comment && !s.in_block_comment && !s.in_string && !s.in_char && (c == ';' || c == '{' || c == '}') {
        let t = ScanState { accum: s.accum.push(c), ..s };
        assert(!is_ws(c));
        lemma_trim_start_push(s.accum, c);
        assert(trim(t.accum) == trim_start(t.accum));
        let r = close_statement(t);
        assert forall|k: int| 0 <= k < r.len() implies ends_statement(#[trigger] r[k].0) && r[k].1.start_line <= r[k].1.end_line by {
            if k < s.lines.len() {
                assert(r[k] == s.lines[k]);
            }
        }
    }
}

proof fn lemma_scan_ok(chars: Seq<char>, s: ScanState)
    requires
        chars.len() + 4 < usize::MAX,
        scan_ok(chars, s),
    ensures
        scan_ok(chars, scan_from(chars, s)),
    decreases chars.len() - s.pos,
{
    if s.pos < chars.len() {
        lemma_scan_step_ok(chars, s);
        lemma_scan_ok(chars, scan_step(chars, s));
    }
}

/// Every logical statement but the last ends with `;`, `{` or `}`, and
/// every span runs from its start to a line no earlier.
pub proof fn law_statements_end_at_terminators(chars: Seq<char>)
    requires
        chars.len() + 4 < usize::MAX,
    ensures
        forall|k: int| 0 <= k < logical_lines(chars).len() - 1 ==> ends_statement(#[trigger] logical_lines(chars)[k].0),
        forall|k: int| 0 <= k < logical_lines(chars).len() ==>
            (#[trigger] logical_lines(chars)[k]).1.start_line <= logical_lines(chars)[k].1.end_line,
{
    lemma_scan_ok(chars, scan_start());
    let f = scan_from(chars, scan_start());
    let r = logical_lines(chars);
    assert forall|k: int| 0 <= k < r.len() - 1 implies ends_statement(#[trigger] r[k].0) by {
        assert(r[k] == f.lines[k]);
    }
    assert forall|k: int| 0 <= k < r.len() implies (#[trigger] r[k]).1.start_line <= r[k].1.end_line by {
        if k < f.lines.len() {
            assert(r[k] == f.lines[k]);
        }
    }
}

/// Every logical statement is non-empty and has no leading or trailing
/// whitespace.
pub proof fn law_logical_lines_trimmed(chars: Seq<char>)
    ensures
        lines_clean(logical_lines(chars)),
{
    lemma_scan_clean(chars, scan_start());
    lemma_close_clean(scan_from(chars, scan_start()));
}

} // verus!

verus! {

/// The Java front end: lowers each logical statement by its shape.
pub struct JavaFrontend;

/// `v` as a string.
fn text_of(v: &[char]) -> (r: String)
    ensures
        r@ == v@,
{
    string_from_chars(v)
}

/// Whether `s` is one of the words that look like calls but are not.
pub open spec fn keyword_call(s: Seq<char>) -> bool {
    ||| s == seq!['i', 'f']
    ||| s == seq!['f', 'o', 'r']
    ||| s == seq!['w', 'h', 'i', 'l', 'e']
    ||| s == seq!['c', 'a', 't', 'c', 'h']
}

/// Whether `v` names one of the words that look like calls but are not.
fn is_keyword_call(v: &[char]) -> (r: bool)
    ensures
        r == keyword_call(v@),
{
    crate::chars::same_chars(v, &['i', 'f']) || crate::chars::same_chars(v, &['f', 'o', 'r'])
        || crate::chars::same_chars(v, &['w', 'h', 'i', 'l', 'e']) || crate::chars::same_chars(v, &['c', 'a', 't', 'c', 'h'])
}

/// Whether a trimmed part of a right-hand side is a literal: quoted, `null`
/// or an integer.
pub open spec fn rhs_literal(t: Seq<char>) -> bool {
    ||| (t.len() > 0 && (t[0] == '"' || t[0] == '\''))
    ||| t == seq!['n', 'u', 'l', 'l']
    ||| crate::chars::i64_text(t) is Some
}

/// The base of a part: what stands before its first `[`, trimmed.
pub open spec fn rhs_base(t: Seq<char>) -> Seq<char> {
    if t.contains('[') {
        trim(crate::chars::split_pieces(t, '[')[0])
    } else {
        t
    }
}

/// The last piece of `ps` that is not empty.
pub open spec fn last_nonempty(ps: Seq<Seq<char>>) -> Option<Seq<char>>
    decreases ps.len(),
{
    if ps.len() == 0 {
        None
    } else if ps.last().len() > 0 {
        Some(ps.last())
    } else {
        last_nonempty(ps.drop_last())
    }
}

/// The names that count as variables whatever their case.
pub open spec fn known_rhs_name(v: Seq<char>) -> bool {
    ||| v == seq!['p', 'a', 'r', 'a', 'm']
    ||| v == seq!['b', 'a', 'r']
    ||| v == seq!['s', 'q', 'l']
    ||| v == seq!['f', 'i', 'l', 'e', 'N', 'a', 'm', 'e']
}

/// Whether a candidate name is read as a variable.
pub open spec fn rhs_name_ok(v: Seq<char>) -> bool {
    &&& v.len() > 0
    &&& v != seq!['n', 'u', 'l', 'l']
    &&& !crate::chars::unicode_numeric(v[0])
    &&& (known_rhs_name(v) || crate::chars::unicode_lowercase(v[0]))
}

/// The variable that one `+`-separated part of a right-hand side reads.
pub open spec fn rhs_var(part: Seq<char>) -> Option<Seq<char>> {
    let trimmed = crate::chars::strip_end(trim(part), ';');
    if rhs_literal(trimmed) {
        None
    } else {
        match last_nonempty(crate::chars::dotted_pieces(rhs_base(trimmed))) {
            Some(piece) => if rhs_name_ok(trim(piece)) { Some(trim(piece)) } else { None },
            None => None,
        }
    }
}

/// The variables that the parts of a right-hand side read, in order.
pub open spec fn rhs_vars(parts: Seq<Seq<char>>) -> Seq<Seq<char>>
    decreases parts.len(),
{
    if parts.len() == 0 {
        Seq::empty()
    } else {
        match rhs_var(parts.last()) {
            Some(v) => rhs_vars(parts.drop_last()).push(v),
            None => rhs_vars(parts.drop_last()),
        }
    }
}

/// The character sequences of a vector of strings.
pub open spec fn string_views(v: Seq<String>) -> Seq<Seq<char>> {
    v.map_values(|x: String| x@)
}

/// The variables read on the right of an assignment: for each `+`-separated
/// part that is not a literal, the last name of its base (before any `[`),
/// when that name starts in lower case or is one of a few known names.
fn extract_rhs_vars(rhs: &[char]) -> (r: Vec<String>)
    ensures
        string_views(r@) == rhs_vars(crate::chars::split_pieces(rhs@, '+')),
{
    let mut vars: Vec<String> = Vec::new();
    let parts = crate::chars::split_char(rhs, '+');
    let ghost pv = crate::chars::char_views(parts@);
    let mut p: usize = 0;
    assert(pv.take(0) =~= Seq::<Seq<char>>::empty());
    assert(string_views(vars@) =~= Seq::<Seq<char>>::empty());
    while p < parts.len()
        invariant
            p <= parts@.len(),
            pv == crate::chars::char_views(parts@),
            string_views(vars@) == rhs_vars(pv.take(p as int)),
        decreases parts.len() - p,
    {
        let ghost before = string_views(vars@);
        proof {
            assert(pv.take(p + 1int).drop_last() =~= pv.take(p as int));
            assert(pv.take(p + 1int).last() == parts@[p as int]@);
        }
        let t0 = trim_chars(parts[p].as_slice());
        let trimmed = crate::chars::trim_end_char(t0.as_slice(), ';');
        let literal = (trimmed.len() > 0 && (trimmed[0] == '"' || trimmed[0] == '\''))
            || crate::chars::same_chars(trimmed.as_slice(), &['n', 'u', 'l', 'l'])
            || crate::chars::parses_as_i64(trimmed.as_slice());
        assert(literal == rhs_literal(trimmed@));
        if !literal {
            let base_part = if crate::chars::has(trimmed.as_slice(), '[') {
                let pieces = crate::chars::split_char(trimmed.as_slice(), '[');
                proof {
                    assert(crate::chars::char_views(pieces@)[0] == pieces@[0]@);
                }
                trim_chars(pieces[0].as_slice())
            } else {
                trimmed
            };
            assert(base_part@ == rhs_base(trimmed@));
            let pieces = crate::chars::split_non_dotted(base_part.as_slice());
            let ghost qv = crate::chars::char_views(pieces@);
            let mut last: Option<usize> = None;
            let mut k: usize = 0;
            assert(qv.take(0) =~= Seq::<Seq<char>>::empty());
            while k < pieces.len()
                invariant
                    k <= pieces@.len(),
                    qv == crate::chars::char_views(pieces@),
                    last matches Some(j) ==> j < pieces@.len(),
                    match last {
                        Some(j) => last_nonempty(qv.take(k as int)) == Some(pieces@[j as int]@),
                        None => last_nonempty(qv.take(k as int)) is None,
                    },
                decreases pieces.len() - k,
            {
                proof {
                    assert(qv.take(k + 1int).drop_last() =~= qv.take(k as int));
                    assert(qv.take(k + 1int).last() == pieces@[k as int]@);
                }
                if pieces[k].len() > 0 {
                    last = Some(k);
                }
                k = k + 1;
            }
            assert(qv.take(qv.len() as int) =~= qv);
            match last {
                Some(j) => {
                    let var = trim_chars(pieces[j].as_slice());
                    if var.len() > 0 && !crate::chars::same_chars(var.as_slice(), &['n', 'u', 'l', 'l'])
                        && !crate::chars::is_numeric(var[0]) {
                        let known = crate::chars::same_chars(var.as_slice(), &['p', 'a', 'r', 'a', 'm'])
                            || crate::chars::same_chars(var.as_slice(), &['b', 'a', 'r'])
                            || crate::chars::same_chars(var.as_slice(), &['s', 'q', 'l'])
                            || crate::chars::same_chars(var.as_slice(), &['f', 'i', 'l', 'e', 'N', 'a', 'm', 'e']);
                        assert(known == known_rhs_name(var@));
                        if known || crate::chars::is_lowercase(var[0]) {
                            let text = text_of(var.as_slice());
                            vars.push(text);
                            assert(string_views(vars@) =~= before.push(var@));
                        }
                    }
                },
                None => {},
            }
        }
        p = p + 1;
    }
    assert(pv.take(pv.len() as int) =~= pv);
    vars
}

/// The position before the white space that ends at `j` in `s`.
pub open spec fn ws_back(s: Seq<char>, j: int) -> int
    decreases j,
{
    if j > 0 && is_ws(s[j - 1]) { ws_back(s, j - 1) } else { j }
}

/// The start of the run of dotted-name characters that ends at `j` in `s`.
pub open spec fn dotted_back(s: Seq<char>, j: int) -> int
    decreases j,
{
    if j > 0 && crate::chars::dotted_char(s[j - 1]) { dotted_back(s, j - 1) } else { j }
}

/// The callee that the `(` at position `i` of `s` opens, with its
/// receiver, if it opens one.
pub open spec fn callee_at(s: Seq<char>, i: int) -> Option<(Seq<char>, Option<Seq<char>>)> {
    if s[i] != '(' {
        None
    } else {
        let j = ws_back(s, i);
        let st = dotted_back(s, j);
        if st >= j {
            None
        } else {
            let fn0 = s.subrange(st, j);
            let full = if crate::chars::occurs_at(fn0, seq!['n', 'e', 'w'], 0) {
                trim(fn0.subrange(3, fn0.len() as int))
            } else {
                fn0
            };
            let receiver = if full.contains('.') {
                let fp = trim(crate::chars::split_pieces(full, '.')[0]);
                if fp.len() > 0 && crate::chars::unicode_lowercase(fp[0]) && fp != seq!['t', 'h', 'i', 's'] {
                    Some(fp)
                } else {
                    None
                }
            } else {
                None
            };
            let name0 = crate::chars::strip_start(full, '.');
            if name0.len() > 0 && !keyword_call(name0) {
                let name = if name0.contains('.') && crate::chars::unicode_lowercase(name0[0]) {
                    crate::chars::split_pieces(name0, '.').last()
                } else {
                    name0
                };
                Some((name, receiver))
            } else {
                None
            }
        }
    }
}

/// The callees of the first `n` positions of `s`, in order.
pub open spec fn callees_upto(s: Seq<char>, n: int) -> Seq<(Seq<char>, Option<Seq<char>>)>
    decreases n,
{
    if n <= 0 {
        Seq::empty()
    } else {
        match callee_at(s, n - 1) {
            Some(c) => callees_upto(s, n - 1).push(c),
            None => callees_upto(s, n - 1),
        }
    }
}

/// An optional string by its characters.
pub open spec fn opt_chars(o: Option<String>) -> Option<Seq<char>> {
    match o {
        Some(x) => Some(x@),
        None => None,
    }
}

/// Callees with their receivers, by their characters.
pub open spec fn callee_views(v: Seq<(String, Option<String>)>) -> Seq<(Seq<char>, Option<Seq<char>>)> {
    v.map_values(|x: (String, Option<String>)| (x.0@, opt_chars(x.1)))
}

/// The calls of a line, with their receivers: for each `(`, the dotted name
/// before it (after white space, without a leading `new`); a lower-case
/// first part other than `this` is the receiver, and a lower-case dotted
/// name keeps only its last part; `if`, `for`, `while` and `catch` are not
/// calls.
fn extract_callees_with_receiver(line: &[char]) -> (r: Vec<(String, Option<String>)>)
    ensures
        callee_views(r@) == callees_upto(line@, line@.len() as int),
{
    let mut results: Vec<(String, Option<String>)> = Vec::new();
    let mut i: usize = 0;
    assert(callee_views(results@) =~= Seq::<(Seq<char>, Option<Seq<char>>)>::empty());
    while i < line.len()
        invariant
            i <= line@.len(),
            callee_views(results@) == callees_upto(line@, i as int),
        decreases line.len() - i,
    {
        let ghost before = callee_views(results@);
        if line[i] == '(' {
            let mut j = i;
            while j > 0 && is_whitespace(line[j - 1])
                invariant
                    j <= i < line@.len(),
                    ws_back(line@, i as int) == ws_back(line@, j as int),
                decreases j,
            {
                j = j - 1;
            }
            let mut start = j;
            while start > 0 && crate::chars::is_dotted_name_char(line[start - 1])
                invariant
                    start <= j <= i < line@.len(),
                    dotted_back(line@, j as int) == dotted_back(line@, start as int),
                decreases start,
            {
                start = start - 1;
            }
            assert(ws_back(line@, i as int) == j);
            assert(dotted_back(line@, j as int) == start);
            if start < j {
                let mut full_name = crate::chars::slice_of(line, start, j);
                if crate::chars::starts_with(full_name.as_slice(), &['n', 'e', 'w']) {
                    let rest = crate::chars::slice_of(full_name.as_slice(), 3, full_name.len());
                    full_name = trim_chars(rest.as_slice());
                }
                let receiver = if crate::chars::has(full_name.as_slice(), '.') {
                    let pieces = crate::chars::split_char(full_name.as_slice(), '.');
                    proof {
                        assert(crate::chars::char_views(pieces@)[0] == pieces@[0]@);
                    }
                    let first_part = trim_chars(pieces[0].as_slice());
                    if first_part.len() > 0 && crate::chars::is_lowercase(first_part[0])
                        && !crate::chars::same_chars(first_part.as_slice(), &['t', 'h', 'i', 's']) {
                        Some(text_of(first_part.as_slice()))
                    } else {
                        None
                    }
                } else {
                    None
                };
                let mut name = crate::chars::trim_start_char(full_name.as_slice(), '.');
                if name.len() > 0 && !is_keyword_call(name.as_slice()) {
                    if crate::chars::has(name.as_slice(), '.') && crate::chars::is_lowercase(name[0]) {
                        let pieces = crate::chars::split_char(name.as_slice(), '.');
                        let last = pieces.len() - 1;
                        proof {
                            assert(crate::chars::char_views(pieces@)[last as int] == pieces@[last as int]@);
                        }
                        name = crate::chars::slice_of(pieces[last].as_slice(), 0, pieces[last].len());
                        assert(name@ =~= pieces@[last as int]@);
                    }
                    let entry = (text_of(name.as_slice()), receiver);
                    results.push(entry);
                    assert(callee_views(results@) =~= before.push(callee_views(results@).last()));
                }
            }
        }
        i = i + 1;
    }
    results
}

/// A run of dotted-name characters as an argument: trimmed, and cut at its
/// first `.`.
pub open spec fn arg_token(t: Seq<char>) -> Seq<char> {
    let tt = trim(t);
    if tt.contains('.') {
        trim(crate::chars::split_pieces(tt, '.')[0])
    } else {
        tt
    }
}

/// Whether an argument token names a variable: not empty, not `new`,
/// `null`, `true` or `false`, and not starting with a digit.
pub open spec fn arg_names_var(a: Seq<char>) -> bool {
    &&& a.len() > 0
    &&& a != seq!['n', 'e', 'w']
    &&& a != seq!['n', 'u', 'l', 'l']
    &&& a != seq!['t', 'r', 'u', 'e']
    &&& a != seq!['f', 'a', 'l', 's', 'e']
    &&& !crate::chars::unicode_numeric(a[0])
}

/// The variables that a sequence of argument runs names, in order.
pub open spec fn arg_vars(ts: Seq<Seq<char>>) -> Seq<Seq<char>>
    decreases ts.len(),
{
    if ts.len() == 0 {
        Seq::empty()
    } else {
        let prev = arg_vars(ts.drop_last());
        if arg_names_var(arg_token(ts.last())) {
            prev.push(arg_token(ts.last()))
        } else {
            prev
        }
    }
}

/// Whether `op` is the variable named `name`.
pub open spec fn var_named(op: crate::ir::Operand, name: Seq<char>) -> bool {
    op matches crate::ir::Operand::Var(v) && v@ == name
}

/// Whether `ops` are the variables named `names`, in order.
pub open spec fn var_operands(ops: Seq<crate::ir::Operand>, names: Seq<Seq<char>>) -> bool {
    &&& ops.len() == names.len()
    &&& forall|k: int| 0 <= k < ops.len() ==> var_named(#[trigger] ops[k], names[k])
}

/// The first position of `c` in `s`, or -1.
pub open spec fn first_index_of(s: Seq<char>, c: char) -> int
    decreases s.len(),
{
    if s.len() == 0 {
        -1
    } else if s[0] == c {
        0
    } else {
        let r = first_index_of(s.drop_first(), c);
        if r < 0 { -1 } else { r + 1 }
    }
}

/// `first_index_of` is the first occurrence, or -1 when there is none.
pub proof fn lemma_first_index_of(s: Seq<char>, c: char)
    ensures
        -1 <= first_index_of(s, c) < s.len(),
        first_index_of(s, c) >= 0 ==> s[first_index_of(s, c)] == c,
        forall|j: int| 0 <= j < first_index_of(s, c) ==> s[j] != c,
        first_index_of(s, c) == -1 <==> !s.contains(c),
    decreases s.len(),
{
    if s.len() > 0 {
        let t = s.drop_first();
        lemma_first_index_of(t, c);
        if s[0] != c {
            assert forall|j: int| 0 <= j < first_index_of(s, c) implies s[j] != c by {
                if j > 0 {
                    assert(s[j] == t[j - 1]);
                }
            }
            if s.contains(c) {
                let k = choose|k: int| 0 <= k < s.len() && s[k] == c;
                assert(t[k - 1] == c);
            }
            if t.contains(c) {
                let k = choose|k: int| 0 <= k < t.len() && t[k] == c;
                assert(s[k + 1] == c);
            }
        } else {
            assert(s.contains(c));
        }
    }
}

/// The variables a line passes as arguments: the named runs between its
/// first `(` and its last `)`.
pub open spec fn line_args(line: Seq<char>) -> Seq<Seq<char>> {
    let i = first_index_of(line, '(');
    let j = crate::text::last_index_of(line, ')');
    if 0 <= i && i < j { arg_vars(crate::chars::dotted_pieces(line.subrange(i + 1, j))) } else { Seq::empty() }
}

/// The arguments of a line: between its first `(` and its last `)`, each
/// run of dotted-name characters, cut at its first `.`, that is not empty,
/// not `new`, `null`, `true` or `false`, and does not start with a digit.
fn extract_args(line: &[char]) -> (r: Vec<crate::ir::Operand>)
    ensures
        !line@.contains('(') || !line@.contains(')') ==> r@.len() == 0,
        forall|i: int, j: int|
            0 <= i < line@.len() && 0 <= j < line@.len() && line@[i] == '(' && line@[j] == ')'
            && (forall|k: int| 0 <= k < i ==> line@[k] != '(')
            && (forall|k: int| j < k < line@.len() ==> line@[k] != ')')
            ==> (if i < j {
                var_operands(r@, arg_vars(crate::chars::dotted_pieces(line@.subrange(i + 1, j))))
            } else {
                r@.len() == 0
            }),
        var_operands(r@, line_args(line@)),
{
    let mut args: Vec<crate::ir::Operand> = Vec::new();
    proof {
        lemma_first_index_of(line@, '(');
        crate::text::lemma_last_index_of(line@, ')');
    }
    let start_idx = match crate::chars::find_char(line, '(') {
        Some(s) => s,
        None => { return args; },
    };
    let end_idx = match crate::chars::rfind_char(line, ')') {
        Some(e) => e,
        None => { return args; },
    };
    proof {
        let fi = first_index_of(line@, '(');
        let lj = crate::text::last_index_of(line@, ')');
        if fi != start_idx {
            if fi < start_idx { assert(line@[fi] == '('); } else { assert(line@[start_idx as int] == '('); }
        }
        if lj != end_idx {
            if lj < end_idx { assert(line@[end_idx as int] == ')'); } else { assert(line@[lj] == ')'); }
        }
    }
    if start_idx >= end_idx {
        return args;
    }
    let inside = crate::chars::slice_of(line, start_idx + 1, end_idx);
    let tokens = crate::chars::split_non_dotted(inside.as_slice());
    let ghost tv = crate::chars::char_views(tokens@);
    let mut k: usize = 0;
    assert(tv.take(0) =~= Seq::<Seq<char>>::empty());
    while k < tokens.len()
        invariant
            k <= tokens@.len(),
            tv == crate::chars::char_views(tokens@),
            var_operands(args@, arg_vars(tv.take(k as int))),
        decreases tokens.len() - k,
    {
        let ghost before = args@;
        proof {
            assert(tv.take(k + 1int).drop_last() =~= tv.take(k as int));
            assert(tv.take(k + 1int).last() == tokens@[k as int]@);
        }
        let mut t = trim_chars(tokens[k].as_slice());
        if crate::chars::has(t.as_slice(), '.') {
            let pieces = crate::chars::split_char(t.as_slice(), '.');
            proof {
                assert(crate::chars::char_views(pieces@)[0] == pieces@[0]@);
            }
            t = trim_chars(pieces[0].as_slice());
        }
        assert(t@ == arg_token(tokens@[k as int]@));
        if t.len() > 0
            && !crate::chars::same_chars(t.as_slice(), &['n', 'e', 'w'])
            && !crate::chars::same_chars(t.as_slice(), &['n', 'u', 'l', 'l'])
            && !crate::chars::same_chars(t.as_slice(), &['t', 'r', 'u', 'e'])
            && !crate::chars::same_chars(t.as_slice(), &['f', 'a', 'l', 's', 'e'])
            && !crate::chars::is_numeric(t[0]) {
            args.push(crate::ir::Operand::Var(text_of(t.as_slice())));
            proof {
                let names = arg_vars(tv.take(k + 1int));
                assert forall|m: int| 0 <= m < args@.len() implies
                    var_named(#[trigger] args@[m], names[m]) by {
                    if m < before.len() {
                        assert(args@[m] == before[m]);
                    }
                }
            }
        }
        k = k + 1;
    }
    assert(tv.take(tv.len() as int) =~= tv);
    args
}

/// The last word of `v`, if it has one.
fn last_word(v: &[char]) -> (r: Option<Vec<char>>)
    ensures
        match r {
            Some(w) => crate::chars::words_of(v@).len() > 0 && w@ == crate::chars::words_of(v@).last(),
            None => crate::chars::words_of(v@).len() == 0,
        },
{
    let ws = crate::chars::words(v);
    if ws.len() == 0 {
        None
    } else {
        let last = ws.len() - 1;
        let w = crate::chars::slice_of(ws[last].as_slice(), 0, ws[last].len());
        proof {
            assert(crate::chars::char_views(ws@)[last as int] == ws@[last as int]@);
            assert(w@ =~= ws@[last as int]@);
        }
        Some(w)
    }
}

/// Whether the program of one file has its one module, named `name` for
/// `path`.
pub open spec fn single_module(p: Program, name: Seq<char>, path: Seq<char>) -> bool {
    &&& p.modules@.len() == 1
    &&& p.modules@[0].id == crate::ir::ModuleId(1)
    &&& p.modules@[0].name@ == name
    &&& p.modules@[0].file_path@ == path
}

/// The room the statements take when lowered: each statement counts its
/// length and two more.
pub open spec fn lines_size(ls: Seq<(Seq<char>, Span)>) -> int
    decreases ls.len(),
{
    if ls.len() == 0 {
        0
    } else {
        lines_size(ls.drop_last()) + ls.last().0.len() + 2
    }
}

proof fn lemma_lines_size_prefix(ls: Seq<(Seq<char>, Span)>, i: int)
    requires
        0 <= i <= ls.len(),
    ensures
        lines_size(ls.take(i)) <= lines_size(ls),
        2 * i <= lines_size(ls.take(i)),
    decreases ls.len(),
{
    if i == ls.len() {
        assert(ls.take(i) =~= ls);
        if ls.len() > 0 {
            lemma_lines_size_prefix(ls.drop_last(), i - 1);
            assert(ls.drop_last().take(i - 1) =~= ls.drop_last());
        }
    } else {
        lemma_lines_size_prefix(ls.drop_last(), i);
        assert(ls.drop_last().take(i) =~= ls.take(i));
    }
}

proof fn lemma_callees_len(s: Seq<char>, n: int)
    ensures
        callees_upto(s, n).len() <= if n < 0 { 0 } else { n },
    decreases n,
{
    if n > 0 {
        lemma_callees_len(s, n - 1);
    }
}

proof fn lemma_rhs_vars_len(ps: Seq<Seq<char>>)
    ensures
        rhs_vars(ps).len() <= ps.len(),
    decreases ps.len(),
{
    if ps.len() > 0 {
        lemma_rhs_vars_len(ps.drop_last());
    }
}

proof fn lemma_split_pieces_len(s: Seq<char>, sep: char)
    ensures
        crate::chars::split_pieces(s, sep).len() <= s.len() + 1,
        crate::chars::split_pieces(s, sep).len() >= 1,
    decreases s.len(),
{
    if s.len() > 0 {
        lemma_split_pieces_len(s.drop_last(), sep);
    }
}

proof fn lemma_trim_len(s: Seq<char>)
    ensures
        trim(s).len() <= s.len(),
{
    lemma_trim_start_len(s);
    lemma_trim_end_len(crate::text::trim_start(s));
}

proof fn lemma_trim_start_len(s: Seq<char>)
    ensures
        crate::text::trim_start(s).len() <= s.len(),
    decreases s.len(),
{
    if s.len() > 0 && is_ws(s[0]) {
        lemma_trim_start_len(s.drop_first());
    }
}

proof fn lemma_trim_end_len(s: Seq<char>)
    ensures
        crate::text::trim_end(s).len() <= s.len(),
    decreases s.len(),
{
    if s.len() > 0 && is_ws(s.last()) {
        lemma_trim_end_len(s.drop_last());
    }
}

/// An instruction that Java lowering emits, over plain values: a copy from
/// one variable to another, or a call with its optional destination
/// variable, its callee and its argument variables.
pub enum JavaEmit {
    Assign(Seq<char>, Seq<char>),
    Call(Option<Seq<char>>, Seq<char>, Seq<Seq<char>>),
}

/// Whether `k` is the instruction that `e` describes.
pub open spec fn java_shows(k: InstructionKind, e: JavaEmit) -> bool {
    match e {
        JavaEmit::Assign(d, s) => (k matches InstructionKind::Assign { dest: crate::ir::Operand::Var(dv), src: crate::ir::Operand::Var(sv) }
            && dv@ == d && sv@ == s),
        JavaEmit::Call(d, c, a) => (k matches InstructionKind::Call { dest, callee, args }
            && callee@ == c && var_operands(args@, a)
            && match d {
                Some(dn) => (dest matches Some(crate::ir::Operand::Var(x)) && x@ == dn),
                None => dest is None,
            }),
    }
}

/// `s` without the characters outside names at either end.
pub open spec fn ident_trim(s: Seq<char>) -> Seq<char> {
    crate::chars::drop_non_ident_end(crate::chars::drop_non_ident_start(s))
}

/// Whether a statement is a method header: it names a visibility, `void`
/// or `String`, has parentheses and no `;`.
pub open spec fn header_line(line: Seq<char>) -> bool {
    &&& (crate::chars::occurs(line, seq!['p', 'u', 'b', 'l', 'i', 'c', ' '])
        || crate::chars::occurs(line, seq!['p', 'r', 'i', 'v', 'a', 't', 'e', ' '])
        || crate::chars::occurs(line, seq!['v', 'o', 'i', 'd', ' '])
        || crate::chars::occurs(line, seq!['S', 't', 'r', 'i', 'n', 'g', ' ']))
    &&& line.contains('(')
    &&& line.contains(')')
    &&& !line.contains(';')
}

/// Whether a statement opens a method: a header with a word before its
/// first `(`.
pub open spec fn opens_method(line: Seq<char>) -> bool {
    header_line(line) && crate::chars::words_of(crate::chars::split_pieces(line, '(')[0]).len() > 0
}

/// The destination a call statement assigns: the last word before its
/// first `=`.
pub open spec fn call_dest(line: Seq<char>) -> Option<Seq<char>> {
    let e = first_index_of(line, '=');
    if e >= 0 && crate::chars::words_of(line.subrange(0, e)).len() > 0 {
        Some(crate::chars::words_of(line.subrange(0, e)).last())
    } else {
        None
    }
}

/// The arguments of one callee: its receiver first, when it has one.
pub open spec fn callee_args(line: Seq<char>, receiver: Option<Seq<char>>) -> Seq<Seq<char>> {
    match receiver {
        Some(r) => seq![r] + line_args(line),
        None => line_args(line),
    }
}

/// What a statement inside a method emits: an enhanced `for` copies the
/// collection to the item; a statement with calls calls each callee; an
/// assignment copies each variable read into the assigned one.
pub open spec fn line_emits(line: Seq<char>) -> Seq<JavaEmit> {
    if crate::chars::occurs(line, seq!['f', 'o', 'r']) && line.contains(':') && line.contains('(') && line.contains(')') {
        let i = first_index_of(line, '(');
        let j = crate::text::last_index_of(line, ')');
        let parts = crate::chars::split_pieces(line.subrange(i + 1, j), ':');
        if i < j && parts.len() == 2 && crate::chars::words_of(trim(parts[0])).len() > 0 {
            let item = ident_trim(crate::chars::words_of(trim(parts[0])).last());
            let coll = ident_trim(trim(parts[1]));
            if item.len() > 0 && coll.len() > 0 { seq![JavaEmit::Assign(item, coll)] } else { Seq::empty() }
        } else {
            Seq::empty()
        }
    } else if line.contains('(') && line.contains(')') {
        let cs = callees_upto(line, line.len() as int);
        Seq::new(cs.len(), |k: int| JavaEmit::Call(call_dest(line), cs[k].0, callee_args(line, cs[k].1)))
    } else if line.contains('=') {
        let e = first_index_of(line, '=');
        let lhs = trim(line.subrange(0, e));
        let rhs = trim(line.subrange(e + 1, line.len() as int));
        if crate::chars::words_of(lhs).len() > 0 && ident_trim(crate::chars::words_of(lhs).last()).len() > 0 {
            let dv = ident_trim(crate::chars::words_of(lhs).last());
            rhs_vars(crate::chars::split_pieces(rhs, '+')).map_values(|v: Seq<char>| JavaEmit::Assign(dv, v))
        } else {
            Seq::empty()
        }
    } else {
        Seq::empty()
    }
}

/// Emissions, each with the span of its statement.
pub open spec fn with_span(es: Seq<JavaEmit>, sp: Span) -> Seq<(JavaEmit, Span)> {
    es.map_values(|e: JavaEmit| (e, sp))
}

/// Lowering statements in order: whether a method is open after them, and
/// what they emitted, each with its statement's span. Statements emit only
/// once a method is open.
pub open spec fn java_state(lines: Seq<(Seq<char>, Span)>) -> (bool, Seq<(JavaEmit, Span)>)
    decreases lines.len(),
{
    if lines.len() == 0 {
        (false, Seq::empty())
    } else {
        let prev = java_state(lines.drop_last());
        let text = lines.last().0;
        let open = prev.0 || opens_method(text);
        (open, if open { prev.1 + with_span(line_emits(text), lines.last().1) } else { prev.1 })
    }
}

/// The parameter names of the first `k` of `pieces`: the last word of
/// each that has one, trimmed.
pub open spec fn pieces_params(pieces: Seq<Seq<char>>, k: int) -> Seq<Seq<char>>
    decreases k,
{
    if k <= 0 || k > pieces.len() {
        Seq::empty()
    } else {
        pieces_params(pieces, k - 1)
            + if crate::chars::words_of(pieces[k - 1]).len() > 0 { seq![trim(crate::chars::words_of(pieces[k - 1]).last())] } else { Seq::empty() }
    }
}

/// The method a method-opening line declares: the last word before its
/// first `(`, trimmed, and the parameter names between that `(` and the
/// next `)`, split at commas.
pub open spec fn java_method(line: Seq<char>) -> (Seq<char>, Seq<Seq<char>>) {
    let parts = crate::chars::split_pieces(line, '(');
    let name = trim(crate::chars::words_of(parts[0]).last());
    let params = if parts.len() > 1 {
        let pieces = crate::chars::split_pieces(crate::chars::split_pieces(parts[1], ')')[0], ',');
        pieces_params(pieces, pieces.len() as int)
    } else {
        Seq::empty()
    };
    (name, params)
}

/// The methods `lines` declare, in order.
pub open spec fn java_made(lines: Seq<(Seq<char>, Span)>) -> Seq<(Seq<char>, Seq<Seq<char>>)>
    decreases lines.len(),
{
    if lines.len() == 0 {
        Seq::empty()
    } else {
        java_made(lines.drop_last()) + if opens_method(lines.last().0) { seq![java_method(lines.last().0)] } else { Seq::empty() }
    }
}

/// Whether `p` is what lowering the Java text `code` gives: the
/// instructions its logical lines emit, each method's body the instructions
/// given to it, and the methods its lines declare, in order.
pub open spec fn java_lowered(p: crate::ir::Program, code: Seq<char>) -> bool {
    let lines = logical_lines(code);
    &&& java_emitted(p.instructions@, java_state(lines).1)
    &&& forall|i: int| 0 <= i < p.methods@.len() ==> (#[trigger] p.methods@[i]).body@
        == crate::python::body_ids(java_owners(lines), 0, i + 1)
    &&& p.methods@.len() == java_made(lines).len()
    &&& forall|k: int| 0 <= k < p.methods@.len() ==> {
        &&& (#[trigger] p.methods@[k]).name@ == java_made(lines)[k].0
        &&& crate::python::param_views(p.methods@[k].parameters@) == java_made(lines)[k].1
    }
}

/// How many of `lines` open a method.
pub open spec fn java_count(lines: Seq<(Seq<char>, Span)>) -> int
    decreases lines.len(),
{
    if lines.len() == 0 {
        0
    } else {
        java_count(lines.drop_last()) + if opens_method(lines.last().0) { 1int } else { 0int }
    }
}

/// The method whose body takes each emission of `java_state(lines)`: the
/// one the latest method-opening line opened.
pub open spec fn java_owners(lines: Seq<(Seq<char>, Span)>) -> Seq<int>
    decreases lines.len(),
{
    if lines.len() == 0 {
        Seq::empty()
    } else {
        let prev = java_owners(lines.drop_last());
        if java_state(lines).0 {
            prev + Seq::new(line_emits(lines.last().0).len(), |_k: int| java_count(lines))
        } else {
            prev
        }
    }
}

/// Whether `insts` are the emissions `em`, in order.
pub open spec fn java_emitted(insts: Seq<crate::ir::Instruction>, em: Seq<(JavaEmit, Span)>) -> bool {
    &&& insts.len() == em.len()
    &&& forall|k: int| 0 <= k < insts.len() ==> java_shows((#[trigger] insts[k]).kind, em[k].0) && insts[k].span == Some(em[k].1)
}

proof fn lemma_emitted_push(insts: Seq<crate::ir::Instruction>, em: Seq<(JavaEmit, Span)>, ins: crate::ir::Instruction, e: JavaEmit, sp: Span)
    requires
        java_emitted(insts, em),
        java_shows(ins.kind, e),
        ins.span == Some(sp),
    ensures
        java_emitted(insts.push(ins), em.push((e, sp))),
{
    let i2 = insts.push(ins);
    let e2 = em.push((e, sp));
    assert forall|k: int| 0 <= k < i2.len() implies java_shows((#[trigger] i2[k]).kind, e2[k].0) && i2[k].span == Some(e2[k].1) by {
        if k < insts.len() {
            assert(i2[k] == insts[k]);
        }
    }
}

impl crate::frontend::LanguageFrontend for JavaFrontend {
    /// Lowers Java text statement by statement: a line naming a class or
    /// interface opens a type; a method header opens a method of the
    /// current type; inside a method, an enhanced `for` assigns the
    /// collection to the item, a line with calls yields one call per callee
    /// (the receiver first among its arguments, the assigned variable as
    /// destination), and an assignment yields one copy per variable read.
    #[verifier::rlimit(100)]
    #[verifier::spinoff_prover]
    fn lower(&self, code: &str, semantic_info: &SemanticInfo, file_path: &str) -> (r: Result<Program, String>)
        ensures
            r matches Ok(p) ==> p.wf() && p.bodies_known()
                && single_module(p, crate::frontend::module_name_of(file_path@), file_path@),
            code@.len() < usize::MAX - 4 && lines_size(logical_lines(code@)) < 0xffff_0000 ==> r is Ok,
            r matches Ok(p) ==> java_emitted(p.instructions@, java_state(logical_lines(code@)).1),
            r matches Ok(p) ==> forall|i: int| 0 <= i < p.methods@.len() ==> (#[trigger] p.methods@[i]).body@
                == crate::python::body_ids(java_owners(logical_lines(code@)), 0, i + 1),
            r matches Ok(p) ==> p.methods@.len() == java_made(logical_lines(code@)).len()
                && forall|k: int| 0 <= k < p.methods@.len() ==> {
                    &&& (#[trigger] p.methods@[k]).name@ == java_made(logical_lines(code@))[k].0
                    &&& crate::python::param_views(p.methods@[k].parameters@) == java_made(logical_lines(code@))[k].1
                },
    {
        let code_chars = crate::text::chars_of(code);
        if code_chars.len() >= usize::MAX - 4 {
            return Err(String::from_str("source text too long"));
        }
        let ghost fits = lines_size(logical_lines(code@)) < 0xffff_0000;
        let mut program = Program::new();
        let name = crate::frontend::module_name(file_path);
        let module_id = program.alloc_module(name, String::from_str(file_path));
        let mut current_class: Option<TypeId> = None;
        let mut current_method: Option<MethodId> = None;
        let logical_lines = preprocess_java(code);
        let ghost lv = line_views(logical_lines@);
        let mut li: usize = 0;
        assert(lv.take(0) =~= Seq::<(Seq<char>, Span)>::empty());
        assert(program.instructions@ =~= Seq::<crate::ir::Instruction>::empty());
        let ghost p_init = program;
        proof { crate::python::lemma_bodies_refl(program); crate::python::lemma_made_refl(program); }
        while li < logical_lines.len()
            invariant
                li <= logical_lines@.len(),
                program.wf(),
                program.bodies_known(),
                module_id == crate::ir::ModuleId(1),
                single_module(program, crate::frontend::module_name_of(file_path@), file_path@),
                lv == line_views(logical_lines@),
                fits == (lines_size(lv) < 0xffff_0000),
                fits == (lines_size(crate::java::logical_lines(code@)) < 0xffff_0000),
                program.types@.len() <= li,
                program.methods@.len() <= li,
                program.instructions@.len() <= lines_size(lv.take(li as int)),
                lv == crate::java::logical_lines(code@),
                java_emitted(program.instructions@, java_state(lv.take(li as int)).1),
                current_method.is_some() == java_state(lv.take(li as int)).0,
                p_init.methods@.len() == 0,
                p_init.instructions@.len() == 0,
                program.methods@.len() == java_count(lv.take(li as int)),
                current_method matches Some(m) ==> m.0 == program.methods@.len(),
                crate::python::bodies_grew(p_init, program, java_owners(lv.take(li as int))),
                crate::python::methods_made(p_init, program, java_made(lv.take(li as int))),
            decreases logical_lines.len() - li,
        {
            let line_v = crate::text::chars_of(logical_lines[li].text.as_str());
            let line = line_v.as_slice();
            let span = Some(logical_lines[li].span);
            let ghost base = program.instructions@.len();
            proof {
                assert(lv[li as int].0 == logical_lines@[li as int].text@);
                assert(lv.take(li + 1int).drop_last() =~= lv.take(li as int));
                assert(lv.take(li + 1int).last() == lv[li as int]);
                lemma_lines_size_prefix(lv, li as int);
                lemma_lines_size_prefix(lv, li + 1int);
                assert(lines_size(lv.take(li + 1int)) == lines_size(lv.take(li as int)) + line@.len() + 2);
            }
            let ghost types0 = program.types@.len();
            let ghost methods0 = program.methods@.len();
            let ghost own0 = java_owners(lv.take(li as int));
            let ghost st0 = java_state(lv.take(li as int));
            let ghost sp = lv[li as int].1;
            let ghost le = line_emits(line@);
            assert(span == Some(sp));

            if crate::chars::contains_seq(line, &['c', 'l', 'a', 's', 's', ' '])
                || crate::chars::contains_seq(line, &['i', 'n', 't', 'e', 'r', 'f', 'a', 'c', 'e', ' ']) {
                let parts = crate::chars::words(line);
                let mut idx: usize = 0;
                while idx < parts.len()
                    && !crate::chars::same_chars(parts[idx].as_slice(), &['c', 'l', 'a', 's', 's'])
                    && !crate::chars::same_chars(parts[idx].as_slice(), &['i', 'n', 't', 'e', 'r', 'f', 'a', 'c', 'e'])
                    invariant
                        idx <= parts@.len(),
                    decreases parts.len() - idx,
                {
                    idx = idx + 1;
                }
                if idx < parts.len() && idx + 1 < parts.len() {
                    assert(fits ==> program.types@.len() < 0xffff_fff0);
                    if program.types.len() >= 0xffff_fff0 {
                        return Err(String::from_str("too many types"));
                    }
                    let declared = crate::chars::trim_end_char(parts[idx + 1].as_slice(), '{');
                    current_class = Some(program.alloc_type(text_of(declared.as_slice()), None, module_id));
                }
            }

            let header_like = crate::chars::contains_seq(line, &['p', 'u', 'b', 'l', 'i', 'c', ' '])
                || crate::chars::contains_seq(line, &['p', 'r', 'i', 'v', 'a', 't', 'e', ' '])
                || crate::chars::contains_seq(line, &['v', 'o', 'i', 'd', ' '])
                || crate::chars::contains_seq(line, &['S', 't', 'r', 'i', 'n', 'g', ' ']);
            let ghost open_before = current_method.is_some();
            assert(open_before == st0.0);
            if header_like && crate::chars::has(line, '(') && crate::chars::has(line, ')') && !crate::chars::has(line, ';') {
                let parts = crate::chars::split_char(line, '(');
                proof {
                    assert(crate::chars::char_views(parts@)[0] == parts@[0]@);
                }
                match last_word(parts[0].as_slice()) {
                    Some(w) => {
                        let method_name = trim_chars(w.as_slice());
                        let mut params: Vec<String> = Vec::new();
                        if parts.len() > 1 {
                            let inner = crate::chars::split_char(parts[1].as_slice(), ')');
                            let pieces = crate::chars::split_char(inner[0].as_slice(), ',');
                            proof {
                                assert(crate::chars::char_views(parts@)[1] == parts@[1]@);
                                assert(crate::chars::char_views(inner@)[0] == inner@[0]@);
                            }
                            let ghost pv = crate::chars::char_views(pieces@);
                            let mut k: usize = 0;
                            assert(crate::python::param_views(params@) =~= Seq::<Seq<char>>::empty());
                            while k < pieces.len()
                                invariant
                                    k <= pieces@.len(),
                                    pv == crate::chars::char_views(pieces@),
                                    crate::python::param_views(params@) == pieces_params(pv, k as int),
                                decreases pieces.len() - k,
                            {
                                let ghost pre = params@;
                                assert(pv[k as int] == pieces@[k as int]@);
                                match last_word(pieces[k].as_slice()) {
                                    Some(pn) => {
                                        let t = trim_chars(pn.as_slice());
                                        params.push(text_of(t.as_slice()));
                                        assert(crate::python::param_views(params@) =~= crate::python::param_views(pre) + seq![trim(crate::chars::words_of(pv[k as int]).last())]);
                                    },
                                    None => {
                                        assert(crate::python::param_views(params@) =~= crate::python::param_views(pre) + Seq::<Seq<char>>::empty());
                                    },
                                }
                                k = k + 1;
                            }
                        }
                        assert(fits ==> program.methods@.len() < 0xffff_fff0);
                        if program.methods.len() >= 0xffff_fff0 {
                            return Err(String::from_str("too many methods"));
                        }
                        let ghost pb = program;
                        let mname = text_of(method_name.as_slice());
                        assert(mname@ == java_method(line@).0);
                        assert(crate::python::param_views(params@) == java_method(line@).1);
                        let ghost made0 = java_made(lv.take(li as int));
                        current_method = Some(program.alloc_method(mname, current_class, params, Some(module_id)));
                        proof {
                            assert forall|i: int| 0 <= i < pb.methods@.len() implies {
                                &&& (#[trigger] program.methods@[i]).name == pb.methods@[i].name
                                &&& program.methods@[i].parameters@ == pb.methods@[i].parameters@
                            } by {
                                assert(program.methods@.drop_last()[i] == program.methods@[i]);
                            }
                            assert(program.methods@[pb.methods@.len() + 0int] == program.methods@.last());
                            assert(crate::python::methods_made(pb, program, seq![java_method(line@)]));
                            crate::python::lemma_made_trans(p_init, pb, program, made0, seq![java_method(line@)]);
                        }
                        proof {
                            crate::python::lemma_bodies_alloc(pb, program);
                            crate::python::lemma_bodies_trans(p_init, pb, program, own0, Seq::empty());
                            assert(own0 + Seq::<int>::empty() =~= own0);
                        }
                        assert forall|a: int, b: int| #![trigger program.methods@[a].body@[b]] 0 <= a < program.methods@.len() && 0 <= b < program.methods@[a].body@.len()
                            implies program.instruction_index(program.methods@[a].body@[b]) is Some by {
                            assert(program.methods@.drop_last()[a] == program.methods@[a]);
                        }
                    },
                    None => {},
                }
            }
            assert(current_method.is_some() == (st0.0 || opens_method(line@)));
            assert(program.methods@.len() == methods0 + if opens_method(line@) { 1int } else { 0int });
            let ghost cnt = program.methods@.len() as int;
            let ghost made1 = java_made(lv.take(li + 1int));
            proof {
                assert(lv.take(li + 1int).last().0 == line@);
                if opens_method(line@) {
                    assert(made1 == java_made(lv.take(li as int)) + seq![java_method(line@)]);
                } else {
                    assert(made1 =~= java_made(lv.take(li as int)));
                }
            }
            assert(crate::python::methods_made(p_init, program, made1));
            assert(crate::python::bodies_grew(p_init, program, own0));
            let ghost inst0 = program.instructions@;
            proof {
                lemma_first_index_of(line@, '(');
                lemma_first_index_of(line@, '=');
                crate::text::lemma_last_index_of(line@, ')');
            }

            match current_method {
                Some(method_id) => {
                    let ghost target = st0.1 + with_span(le, sp);
                    if crate::chars::contains_seq(line, &['f', 'o', 'r']) && crate::chars::has(line, ':')
                        && crate::chars::has(line, '(') && crate::chars::has(line, ')') {
                        let mut emitted_one = false;
                        match (crate::chars::find_char(line, '('), crate::chars::rfind_char(line, ')')) {
                            (Some(start_idx), Some(end_idx)) => {
                                proof {
                                    let fi = first_index_of(line@, '(');
                                    let lj = crate::text::last_index_of(line@, ')');
                                    if fi != start_idx {
                                        if fi < start_idx { assert(line@[fi] == '('); } else { assert(line@[start_idx as int] == '('); }
                                    }
                                    if lj != end_idx {
                                        if lj < end_idx { assert(line@[end_idx as int] == ')'); } else { assert(line@[lj] == ')'); }
                                    }
                                }
                                if start_idx < end_idx {
                                    let inside = crate::chars::slice_of(line, start_idx + 1, end_idx);
                                    let parts = crate::chars::split_char(inside.as_slice(), ':');
                                    if parts.len() == 2 {
                                        proof {
                                            assert(crate::chars::char_views(parts@)[0] == parts@[0]@);
                                            assert(crate::chars::char_views(parts@)[1] == parts@[1]@);
                                        }
                                        let lhs = trim_chars(parts[0].as_slice());
                                        let rhs = trim_chars(parts[1].as_slice());
                                        match last_word(lhs.as_slice()) {
                                            Some(item) => {
                                                let item_var = crate::chars::trim_non_ident(item.as_slice());
                                                let collection_var = crate::chars::trim_non_ident(rhs.as_slice());
                                                if item_var.len() > 0 && collection_var.len() > 0 {
                                                    let ghost e = JavaEmit::Assign(item_var@, collection_var@);
                                                    assert(le == seq![e]);
                                                    let kind = InstructionKind::Assign {
                                                        dest: crate::ir::Operand::Var(text_of(item_var.as_slice())),
                                                        src: crate::ir::Operand::Var(text_of(collection_var.as_slice())),
                                                    };
                                                    let ghost gk = kind;
                                                    let ghost before = program.instructions@;
                                                    let ghost pbe = program;
                                                    if !program.emit(method_id, kind, span) {
                                                        return Err(String::from_str("too many instructions"));
                                                    }
                                                    proof {
                                                        lemma_emitted_push(before, st0.1, program.instructions@.last(), e, sp);
                                                        crate::python::lemma_bodies_emit(pbe, program, Some(method_id));
                                                        crate::python::lemma_bodies_trans(p_init, pbe, program, own0, seq![crate::python::owner_of(Some(method_id), pbe.methods@.len() as int)]);
                                                        assert(own0 + seq![crate::python::owner_of(Some(method_id), pbe.methods@.len() as int)] =~= own0 + Seq::new(1, |_k: int| cnt));
                                                        assert(program.instructions@ =~= before.push(program.instructions@.last()));
                                                        assert(with_span(le, sp) =~= seq![(e, sp)]);
                                                        assert(target =~= st0.1.push((e, sp)));
                                                    }
                                                    emitted_one = true;
                                                }
                                            },
                                            None => {},
                                        }
                                    }
                                }
                            },
                            _ => {},
                        }
                        if !emitted_one {
                            assert(le =~= Seq::<JavaEmit>::empty());
                            assert(target =~= st0.1);
                        }
                    } else if crate::chars::has(line, '(') && crate::chars::has(line, ')') {
                        let callees = extract_callees_with_receiver(line);
                        let ghost cs = callee_views(callees@);
                        proof {
                            lemma_callees_len(line@, line@.len() as int);
                            assert(callees@.len() == callee_views(callees@).len());
                        }
                        let dest_name: Option<String> = match crate::chars::find_char(line, '=') {
                            Some(eq) => {
                                let lhs = crate::chars::slice_of(line, 0, eq);
                                match last_word(lhs.as_slice()) {
                                    Some(v) => Some(text_of(v.as_slice())),
                                    None => None,
                                }
                            },
                            None => None,
                        };
                        assert(opt_chars(dest_name) == call_dest(line@));
                        assert(le == Seq::new(cs.len(), |k: int| JavaEmit::Call(call_dest(line@), cs[k].0, callee_args(line@, cs[k].1))));
                        let mut c: usize = 0;
                        assert(with_span(le.take(0), sp) =~= Seq::<(JavaEmit, Span)>::empty());
                        assert(st0.1 + with_span(le.take(0), sp) =~= st0.1);
                        assert(own0 + Seq::new(0, |_k: int| cnt) =~= own0);
                        while c < callees.len()
                            invariant
                                c <= callees@.len(),
                                program.wf(),
                                program.bodies_known(),
                                single_module(program, crate::frontend::module_name_of(file_path@), file_path@),
                                callees@.len() <= line@.len(),
                                program.instructions@.len() <= base + c,
                                base + line@.len() + 2 <= lines_size(lv),
                                fits == (lines_size(lv) < 0xffff_0000),
                fits == (lines_size(crate::java::logical_lines(code@)) < 0xffff_0000),
                                program.types@.len() == types0 || program.types@.len() == types0 + 1,
                                program.methods@.len() == methods0 || program.methods@.len() == methods0 + 1,
                                cs == callee_views(callees@),
                                cs.len() == callees@.len(),
                                opt_chars(dest_name) == call_dest(line@),
                                le == Seq::new(cs.len(), |k: int| JavaEmit::Call(call_dest(line@), cs[k].0, callee_args(line@, cs[k].1))),
                                span == Some(sp),
                                java_emitted(program.instructions@, st0.1 + with_span(le.take(c as int), sp)),
                                p_init.methods@.len() == 0,
                                method_id.0 == cnt,
                                cnt == program.methods@.len(),
                                crate::python::bodies_grew(p_init, program, own0 + Seq::new(c as nat, |_k: int| cnt)),
                                crate::python::methods_made(p_init, program, made1),
                            decreases callees.len() - c,
                        {
                            let mut args = extract_args(line);
                            let ghost la = line_args(line@);
                            let ghost want = callee_args(line@, cs[c as int].1);
                            match &callees[c].1 {
                                Some(rec_var) => {
                                    let ghost old_args = args@;
                                    args.insert(0, crate::ir::Operand::Var(rec_var.clone()));
                                    proof {
                                        assert(want == seq![rec_var@] + la);
                                        assert forall|k: int| 0 <= k < args@.len() implies var_named(#[trigger] args@[k], want[k]) by {
                                            if k > 0 {
                                                assert(args@[k] == old_args[k - 1]);
                                                assert(var_named(old_args[k - 1], la[k - 1]));
                                            }
                                        }
                                    }
                                },
                                None => {},
                            }
                            let dest = match &dest_name {
                                Some(n) => Some(crate::ir::Operand::Var(n.clone())),
                                None => None,
                            };
                            let kind = InstructionKind::Call { dest, callee: callees[c].0.clone(), args };
                            let ghost e = le[c as int];
                            assert(java_shows(kind, e));
                            let ghost before = program.instructions@;
                                                    let ghost pbe = program;
                            if !program.emit(method_id, kind, span) {
                                return Err(String::from_str("too many instructions"));
                            }
                            proof {
                                let em = st0.1 + with_span(le.take(c as int), sp);
                                lemma_emitted_push(before, em, program.instructions@.last(), e, sp);
                                crate::python::lemma_bodies_emit(pbe, program, Some(method_id));
                                crate::python::lemma_bodies_trans(p_init, pbe, program, own0 + Seq::new(c as nat, |_k: int| cnt), seq![crate::python::owner_of(Some(method_id), pbe.methods@.len() as int)]);
                                assert(own0 + Seq::new(c as nat, |_k: int| cnt) + seq![crate::python::owner_of(Some(method_id), pbe.methods@.len() as int)] =~= own0 + Seq::new((c + 1) as nat, |_k: int| cnt));
                                assert(program.instructions@ =~= before.push(program.instructions@.last()));
                                assert(st0.1 + with_span(le.take(c + 1int), sp) =~= em.push((e, sp)));
                            }
                            c = c + 1;
                        }
                        assert(le.take(le.len() as int) =~= le);
                    } else if crate::chars::has(line, '=') {
                        let mut emitted_all = false;
                        match crate::chars::find_char(line, '=') {
                            Some(eq) => {
                                assert(eq < line.len());
                                let lhs0 = crate::chars::slice_of(line, 0, eq);
                                let rhs0 = crate::chars::slice_of(line, eq + 1, line.len());
                                let lhs = trim_chars(lhs0.as_slice());
                                let rhs = trim_chars(rhs0.as_slice());
                                match last_word(lhs.as_slice()) {
                                    Some(dv) => {
                                        let dest_var = crate::chars::trim_non_ident(dv.as_slice());
                                        if dest_var.len() > 0 {
                                            let srcs = extract_rhs_vars(rhs.as_slice());
                                            proof {
                                                lemma_rhs_vars_len(crate::chars::split_pieces(rhs@, '+'));
                                                lemma_split_pieces_len(rhs@, '+');
                                                lemma_trim_len(rhs0@);
                                                assert(srcs@.len() == string_views(srcs@).len());
                                            }
                                            let ghost dvv = dest_var@;
                                            assert(le == string_views(srcs@).map_values(|v: Seq<char>| JavaEmit::Assign(dvv, v)));
                                            let mut k: usize = 0;
                                            assert(st0.1 + with_span(le.take(0), sp) =~= st0.1);
                                            assert(own0 + Seq::new(0, |_k: int| cnt) =~= own0);
                                            while k < srcs.len()
                                                invariant
                                                    k <= srcs@.len(),
                                                    program.wf(),
                                                    program.bodies_known(),
                                                    single_module(program, crate::frontend::module_name_of(file_path@), file_path@),
                                                    srcs@.len() <= line@.len(),
                                                    program.instructions@.len() <= base + k,
                                                    base + line@.len() + 2 <= lines_size(lv),
                                                    fits == (lines_size(lv) < 0xffff_0000),
                fits == (lines_size(crate::java::logical_lines(code@)) < 0xffff_0000),
                                                    program.types@.len() == types0 || program.types@.len() == types0 + 1,
                                                    program.methods@.len() == methods0 || program.methods@.len() == methods0 + 1,
                                                    dvv == dest_var@,
                                                    le == string_views(srcs@).map_values(|v: Seq<char>| JavaEmit::Assign(dvv, v)),
                                                    span == Some(sp),
                                                    java_emitted(program.instructions@, st0.1 + with_span(le.take(k as int), sp)),
                                                    p_init.methods@.len() == 0,
                                                    method_id.0 == cnt,
                                                    cnt == program.methods@.len(),
                                                    crate::python::bodies_grew(p_init, program, own0 + Seq::new(k as nat, |_k: int| cnt)),
                                                    crate::python::methods_made(p_init, program, made1),
                                                decreases srcs.len() - k,
                                            {
                                                let kind = InstructionKind::Assign {
                                                    dest: crate::ir::Operand::Var(text_of(dest_var.as_slice())),
                                                    src: crate::ir::Operand::Var(srcs[k].clone()),
                                                };
                                                let ghost e = le[k as int];
                                                assert(java_shows(kind, e));
                                                let ghost before = program.instructions@;
                                                    let ghost pbe = program;
                                                if !program.emit(method_id, kind, span) {
                                                    return Err(String::from_str("too many instructions"));
                                                }
                                                proof {
                                                    let em = st0.1 + with_span(le.take(k as int), sp);
                                                    lemma_emitted_push(before, em, program.instructions@.last(), e, sp);
                                                    crate::python::lemma_bodies_emit(pbe, program, Some(method_id));
                                                    crate::python::lemma_bodies_trans(p_init, pbe, program, own0 + Seq::new(k as nat, |_k: int| cnt), seq![crate::python::owner_of(Some(method_id), pbe.methods@.len() as int)]);
                                                    assert(own0 + Seq::new(k as nat, |_k: int| cnt) + seq![crate::python::owner_of(Some(method_id), pbe.methods@.len() as int)] =~= own0 + Seq::new((k + 1) as nat, |_k: int| cnt));
                                                    assert(program.instructions@ =~= before.push(program.instructions@.last()));
                                                    assert(st0.1 + with_span(le.take(k + 1int), sp) =~= em.push((e, sp)));
                                                }
                                                k = k + 1;
                                            }
                                            assert(le.take(le.len() as int) =~= le);
                                            emitted_all = true;
                                        }
                                    },
                                    None => {},
                                }
                            },
                            None => {},
                        }
                        if !emitted_all {
                            assert(le =~= Seq::<JavaEmit>::empty());
                            assert(target =~= st0.1);
                        }
                    } else {
                        assert(le =~= Seq::<JavaEmit>::empty());
                        assert(target =~= st0.1);
                    }
                    assert(java_emitted(program.instructions@, target));
                },
                None => {},
            }
            assert(java_state(lv.take(li + 1int)).1 == if current_method.is_some() { st0.1 + with_span(le, sp) } else { st0.1 });
            proof {
                assert(java_count(lv.take(li + 1int)) == cnt);
                assert(own0 + Seq::new(0, |_k: int| cnt) =~= own0);
                if current_method.is_some() {
                    assert(java_owners(lv.take(li + 1int)) == own0 + Seq::new(le.len(), |_k: int| cnt));
                } else {
                    assert(java_owners(lv.take(li + 1int)) == own0);
                }
            }
            li = li + 1;
        }
        assert(lv.take(lv.len() as int) =~= lv);
        proof {
            let made = java_made(lv);
            assert forall|k: int| 0 <= k < program.methods@.len() implies {
                &&& (#[trigger] program.methods@[k]).name@ == made[k].0
                &&& crate::python::param_views(program.methods@[k].parameters@) == made[k].1
            } by {
                assert(program.methods@[p_init.methods@.len() + k] == program.methods@[k]);
            }
        }
        Ok(program)
    }
}

} // verus!

verus! {

/// Whether `s` is one of the Java keywords that a parenthesis may follow:
/// `if`, `for`, `while` or `catch`.
pub open spec fn parenthesised_keyword(s: Seq<char>) -> bool {
    s =~= seq!['i', 'f'] || s =~= seq!['f', 'o', 'r'] || s =~= seq!['w', 'h', 'i', 'l', 'e'] || s =~= seq!['c', 'a', 't', 'c', 'h']
}

proof fn lemma_strip_start_contains(s: Seq<char>, ch: char, c: char)
    requires
        crate::chars::strip_start(s, ch).contains(c),
    ensures
        s.contains(c),
    decreases s.len(),
{
    if s.len() > 0 && s[0] == ch {
        lemma_strip_start_contains(s.drop_first(), ch, c);
        let k = choose|k: int| 0 <= k < s.drop_first().len() && s.drop_first()[k] == c;
        assert(s[k + 1] == c);
    }
}

proof fn lemma_trim_start_contains(s: Seq<char>, c: char)
    requires
        trim_start(s).contains(c),
    ensures
        s.contains(c),
    decreases s.len(),
{
    if s.len() > 0 && is_ws(s[0]) {
        lemma_trim_start_contains(s.drop_first(), c);
        let k = choose|k: int| 0 <= k < s.drop_first().len() && s.drop_first()[k] == c;
        assert(s[k + 1] == c);
    }
}

proof fn lemma_trim_end_contains(s: Seq<char>, c: char)
    requires
        crate::text::trim_end(s).contains(c),
    ensures
        s.contains(c),
    decreases s.len(),
{
    if s.len() > 0 && is_ws(s.last()) {
        lemma_trim_end_contains(s.drop_last(), c);
        let k = choose|k: int| 0 <= k < s.drop_last().len() && s.drop_last()[k] == c;
        assert(s[k] == c);
    }
}

proof fn lemma_subrange_contains(s: Seq<char>, a: int, b: int, c: char)
    requires
        0 <= a <= b <= s.len(),
        s.subrange(a, b).contains(c),
    ensures
        s.contains(c),
{
    let k = choose|k: int| 0 <= k < s.subrange(a, b).len() && s.subrange(a, b)[k] == c;
    assert(s[a + k] == c);
}

proof fn lemma_ws_back(s: Seq<char>, j: int)
    requires
        0 <= j <= s.len(),
    ensures
        0 <= ws_back(s, j) <= j,
    decreases j,
{
    if j > 0 && is_ws(s[j - 1]) {
        lemma_ws_back(s, j - 1);
    }
}

proof fn lemma_dotted_back(s: Seq<char>, j: int)
    requires
        0 <= j <= s.len(),
    ensures
        0 <= dotted_back(s, j) <= j,
    decreases j,
{
    if j > 0 && crate::chars::dotted_char(s[j - 1]) {
        lemma_dotted_back(s, j - 1);
    }
}

/// A keyword before a parenthesis is not a call: the callee found at a
/// parenthesis is `if`, `for`, `while` or `catch` only when the name
/// before it is dotted (the keyword is the last part of a qualified name).
proof fn lemma_callee_not_keyword(s: Seq<char>, i: int)
    requires
        0 <= i < s.len(),
        callee_at(s, i) matches Some(c) && parenthesised_keyword(c.0),
    ensures
        s.contains('.'),
{
    let j = ws_back(s, i);
    lemma_ws_back(s, i);
    let st = dotted_back(s, j);
    lemma_dotted_back(s, j);
    let fn0 = s.subrange(st, j);
    let full = if crate::chars::occurs_at(fn0, seq!['n', 'e', 'w'], 0) {
        trim(fn0.subrange(3, fn0.len() as int))
    } else {
        fn0
    };
    let name0 = crate::chars::strip_start(full, '.');
    if !name0.contains('.') {
        assert(keyword_call(name0));
        assert(false);
    }
    lemma_strip_start_contains(full, '.', '.');
    if crate::chars::occurs_at(fn0, seq!['n', 'e', 'w'], 0) {
        let mid = fn0.subrange(3, fn0.len() as int);
        lemma_trim_end_contains(trim_start(mid), '.');
        lemma_trim_start_contains(mid, '.');
        lemma_subrange_contains(fn0, 3, fn0.len() as int, '.');
    }
    lemma_subrange_contains(s, st, j, '.');
}

/// No call found in a line without a dot is `if`, `for`, `while` or
/// `catch`: a keyword followed by parentheses is never taken as a call.
pub proof fn law_keywords_are_not_calls(s: Seq<char>, n: int)
    requires
        n <= s.len(),
    ensures
        forall|k: int| 0 <= k < callees_upto(s, n).len() && parenthesised_keyword(#[trigger] callees_upto(s, n)[k].0)
            ==> s.contains('.'),
    decreases n,
{
    if n > 0 {
        law_keywords_are_not_calls(s, n - 1);
        let prev = callees_upto(s, n - 1);
        match callee_at(s, n - 1) {
            Some(c) => {
                let cur = prev.push(c);
                assert(callees_upto(s, n) == cur);
                assert forall|k: int| 0 <= k < cur.len() && parenthesised_keyword(#[trigger] cur[k].0) implies s.contains('.') by {
                    if k < prev.len() {
                        assert(cur[k] == prev[k]);
                    } else {
                        lemma_callee_not_keyword(s, n - 1);
                    }
                }
            },
            None => {},
        }
    }
}

} // verus!
