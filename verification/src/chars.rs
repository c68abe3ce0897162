//! Small scanning helpers over character vectors, and the character
//! classes of `char` that Unicode defines.
use vstd::prelude::*;

verus! {

/// What `char::is_alphanumeric` answers for `c`.
pub uninterp spec fn unicode_alphanumeric(c: char) -> bool;

/// What `char::is_lowercase` answers for `c`.
pub uninterp spec fn unicode_lowercase(c: char) -> bool;

/// What `char::is_numeric` answers for `c`.
pub uninterp spec fn unicode_numeric(c: char) -> bool;

/// Trusted: `char::is_alphanumeric`, whose answer depends on `c` alone.
#[verifier::external_body]
pub(crate) fn is_alphanumeric(c: char) -> (r: bool)
    ensures
        r == unicode_alphanumeric(c),
{
    c.is_alphanumeric()
}

/// Trusted: `char::is_lowercase`, whose answer depends on `c` alone.
#[verifier::external_body]
pub(crate) fn is_lowercase(c: char) -> (r: bool)
    ensures
        r == unicode_lowercase(c),
{
    c.is_lowercase()
}

/// Trusted: `char::is_numeric`, whose answer depends on `c` alone.
#[verifier::external_body]
pub(crate) fn is_numeric(c: char) -> (r: bool)
    ensures
        r == unicode_numeric(c),
{
    c.is_numeric()
}

/// Whether `pat` occurs in `s` at position `i`.
pub open spec fn occurs_at(s: Seq<char>, pat: Seq<char>, i: int) -> bool {
    0 <= i && i + pat.len() <= s.len() && s.subrange(i, i + pat.len()) == pat
}

/// Whether `pat` occurs in `s`.
pub open spec fn occurs(s: Seq<char>, pat: Seq<char>) -> bool {
    exists|i: int| #[trigger] occurs_at(s, pat, i)
}

/// Whether `pat` occurs in `c` at position `i`.
pub fn matches_at(c: &[char], pat: &[char], i: usize) -> (r: bool)
    ensures
        r == occurs_at(c@, pat@, i as int),
{
    if i > c.len() || pat.len() > c.len() - i {
        return false;
    }
    let mut k: usize = 0;
    while k < pat.len()
        invariant
            k <= pat@.len(),
            i + pat@.len() <= c@.len(),
            forall|j: int| 0 <= j < k ==> c@[i + j] == pat@[j],
        decreases pat.len() - k,
    {
        let n = c.len();
        assert(i + k < n);
        let idx: usize = i + k;
        if c[idx] != pat[k] {
            assert(c@.subrange(i as int, i + pat@.len())[k as int] != pat@[k as int]);
            return false;
        }
        k = k + 1;
    }
    assert(c@.subrange(i as int, i + pat@.len()) =~= pat@);
    true
}

/// The first position of `pat` in `c`, if it occurs.
pub fn find_seq(c: &[char], pat: &[char]) -> (r: Option<usize>)
    ensures
        match r {
            Some(i) => occurs_at(c@, pat@, i as int) && forall|j: int| 0 <= j < i ==> !occurs_at(c@, pat@, j),
            None => !occurs(c@, pat@),
        },
{
    let mut i: usize = 0;
    while i < c.len()
        invariant
            i <= c@.len(),
            forall|j: int| 0 <= j < i ==> !occurs_at(c@, pat@, j),
        decreases c.len() - i,
    {
        if matches_at(c, pat, i) {
            return Some(i);
        }
        i = i + 1;
    }
    if matches_at(c, pat, i) {
        return Some(i);
    }
    assert forall|j: int| !#[trigger] occurs_at(c@, pat@, j) by {
        if 0 <= j && j > c@.len() {
            assert(!occurs_at(c@, pat@, j));
        }
    }
    None
}

/// Whether `pat` occurs in `c`.
pub fn contains_seq(c: &[char], pat: &[char]) -> (r: bool)
    ensures
        r == occurs(c@, pat@),
{
    match find_seq(c, pat) {
        Some(i) => {
            assert(occurs_at(c@, pat@, i as int));
            true
        },
        None => false,
    }
}

/// Whether `c` holds `ch`.
pub fn has(c: &[char], ch: char) -> (r: bool)
    ensures
        r == c@.contains(ch),
{
    match find_char(c, ch) {
        Some(i) => true,
        None => false,
    }
}

/// The first position of `ch` in `c`, if any.
pub fn find_char(c: &[char], ch: char) -> (r: Option<usize>)
    ensures
        match r {
            Some(i) => i < c@.len() && c@[i as int] == ch && forall|j: int| 0 <= j < i ==> c@[j] != ch,
            None => !c@.contains(ch),
        },
{
    let mut i: usize = 0;
    while i < c.len()
        invariant
            i <= c@.len(),
            forall|j: int| 0 <= j < i ==> c@[j] != ch,
        decreases c.len() - i,
    {
        if c[i] == ch {
            return Some(i);
        }
        i = i + 1;
    }
    None
}

/// The last position of `ch` in `c`, if any.
pub fn rfind_char(c: &[char], ch: char) -> (r: Option<usize>)
    ensures
        match r {
            Some(i) => i < c@.len() && c@[i as int] == ch && forall|j: int| i < j < c@.len() ==> c@[j] != ch,
            None => !c@.contains(ch),
        },
{
    let mut i: usize = c.len();
    while i > 0
        invariant
            i <= c@.len(),
            forall|j: int| i <= j < c@.len() ==> c@[j] != ch,
        decreases i,
    {
        if c[i - 1] == ch {
            return Some(i - 1);
        }
        i = i - 1;
    }
    None
}

/// The characters of `c` from `a` up to `b`.
pub fn slice_of(c: &[char], a: usize, b: usize) -> (r: Vec<char>)
    requires
        a <= b <= c@.len(),
    ensures
        r@ == c@.subrange(a as int, b as int),
{
    let mut out: Vec<char> = Vec::new();
    let mut k = a;
    while k < b
        invariant
            a <= k <= b <= c@.len(),
            out@ == c@.subrange(a as int, k as int),
        decreases b - k,
    {
        out.push(c[k]);
        assert(c@.subrange(a as int, k + 1int) =~= c@.subrange(a as int, k as int).push(c@[k as int]));
        k = k + 1;
    }
    out
}

/// Whether `c` starts with `pat`.
pub fn starts_with(c: &[char], pat: &[char]) -> (r: bool)
    ensures
        r == occurs_at(c@, pat@, 0),
{
    matches_at(c, pat, 0)
}

/// Whether `c` and `pat` hold the same characters.
pub fn same_chars(c: &[char], pat: &[char]) -> (r: bool)
    ensures
        r == (c@ == pat@),
{
    if c.len() != pat.len() {
        return false;
    }
    let r = matches_at(c, pat, 0);
    proof {
        if r {
            assert(c@.subrange(0, pat@.len() as int) =~= c@);
        } else {
            if c@ == pat@ {
                assert(c@.subrange(0, pat@.len() as int) =~= c@);
            }
        }
    }
    r
}

/// The pieces of `s` between occurrences of `sep`, as `str::split` gives
/// them: one more piece than there are separators.
pub open spec fn split_pieces(s: Seq<char>, sep: char) -> Seq<Seq<char>>
    decreases s.len(),
{
    if s.len() == 0 {
        seq![Seq::empty()]
    } else {
        let p = split_pieces(s.drop_last(), sep);
        if s.last() == sep {
            p.push(Seq::empty())
        } else {
            p.update(p.len() - 1, p.last().push(s.last()))
        }
    }
}

/// The character sequences of a vector of character vectors.
pub open spec fn char_views(v: Seq<Vec<char>>) -> Seq<Seq<char>> {
    v.map_values(|x: Vec<char>| x@)
}

/// The pieces of `c` between occurrences of `sep`, as `str::split` gives
/// them.
pub fn split_char(c: &[char], sep: char) -> (r: Vec<Vec<char>>)
    ensures
        char_views(r@) == split_pieces(c@, sep),
        r@.len() >= 1,
        r@.len() <= c@.len() + 1,
        forall|k: int| 0 <= k < r@.len() ==> (#[trigger] r@[k])@.len() <= c@.len(),
{
    let mut pieces: Vec<Vec<char>> = Vec::new();
    let mut start: usize = 0;
    let mut i: usize = 0;
    assert(c@.take(0) =~= Seq::<char>::empty());
    assert(char_views(pieces@).push(c@.subrange(0, 0)) =~= split_pieces(c@.take(0), sep));
    while i < c.len()
        invariant
            start <= i <= c@.len(),
            pieces@.len() <= i,
            forall|k: int| 0 <= k < pieces@.len() ==> (#[trigger] pieces@[k])@.len() <= c@.len(),
            char_views(pieces@).push(c@.subrange(start as int, i as int)) == split_pieces(c@.take(i as int), sep),
        decreases c.len() - i,
    {
        let ghost t = c@.take(i + 1int);
        assert(t.drop_last() =~= c@.take(i as int));
        assert(t.last() == c@[i as int]);
        if c[i] == sep {
            let piece = slice_of(c, start, i);
            let ghost before = char_views(pieces@);
            pieces.push(piece);
            assert(char_views(pieces@) =~= before.push(c@.subrange(start as int, i as int)));
            start = i + 1;
            assert(c@.subrange(start as int, i + 1int) =~= Seq::<char>::empty());
            assert(char_views(pieces@).push(c@.subrange(start as int, i + 1int)) =~= split_pieces(t, sep));
        } else {
            assert(c@.subrange(start as int, i + 1int) =~= c@.subrange(start as int, i as int).push(c@[i as int]));
            assert(char_views(pieces@).push(c@.subrange(start as int, i + 1int)) =~= split_pieces(t, sep));
        }
        i = i + 1;
    }
    let last = slice_of(c, start, c.len());
    pieces.push(last);
    assert(c@.take(c@.len() as int) =~= c@);
    assert(char_views(pieces@) =~= split_pieces(c@, sep));
    pieces
}

/// Whether `c` belongs to a name: a letter, a digit or `_`.
pub fn is_ident_char(c: char) -> (r: bool)
    ensures
        r == (unicode_alphanumeric(c) || c == '_'),
{
    is_alphanumeric(c) || c == '_'
}

/// Whether `c` belongs to a dotted name: a letter, a digit, `_` or `.`.
pub fn is_dotted_name_char(c: char) -> (r: bool)
    ensures
        r == (unicode_alphanumeric(c) || c == '_' || c == '.'),
{
    is_alphanumeric(c) || c == '_' || c == '.'
}

/// Whether `c` belongs to a dotted name, as `is_dotted_name_char` says.
pub open spec fn dotted_char(c: char) -> bool {
    unicode_alphanumeric(c) || c == '_' || c == '.'
}

/// The runs of dotted-name characters of `s`, as splitting at every other
/// character gives them: one more piece than there are such characters.
pub open spec fn dotted_pieces(s: Seq<char>) -> Seq<Seq<char>>
    decreases s.len(),
{
    if s.len() == 0 {
        seq![Seq::empty()]
    } else {
        let p = dotted_pieces(s.drop_last());
        if !dotted_char(s.last()) {
            p.push(Seq::empty())
        } else {
            p.update(p.len() - 1, p.last().push(s.last()))
        }
    }
}

/// The runs of dotted-name characters of `c`, as splitting at every other
/// character gives them (empty pieces included).
pub fn split_non_dotted(c: &[char]) -> (r: Vec<Vec<char>>)
    ensures
        char_views(r@) == dotted_pieces(c@),
        r@.len() >= 1,
{
    let mut pieces: Vec<Vec<char>> = Vec::new();
    let mut start: usize = 0;
    let mut i: usize = 0;
    assert(c@.take(0) =~= Seq::<char>::empty());
    assert(char_views(pieces@).push(c@.subrange(0, 0)) =~= dotted_pieces(c@.take(0)));
    while i < c.len()
        invariant
            start <= i <= c@.len(),
            char_views(pieces@).push(c@.subrange(start as int, i as int)) == dotted_pieces(c@.take(i as int)),
        decreases c.len() - i,
    {
        let ghost t = c@.take(i + 1int);
        assert(t.drop_last() =~= c@.take(i as int));
        assert(t.last() == c@[i as int]);
        if !is_dotted_name_char(c[i]) {
            let piece = slice_of(c, start, i);
            let ghost before = char_views(pieces@);
            pieces.push(piece);
            assert(char_views(pieces@) =~= before.push(c@.subrange(start as int, i as int)));
            start = i + 1;
            assert(c@.subrange(start as int, i + 1int) =~= Seq::<char>::empty());
            assert(char_views(pieces@).push(c@.subrange(start as int, i + 1int)) =~= dotted_pieces(t));
        } else {
            assert(c@.subrange(start as int, i + 1int) =~= c@.subrange(start as int, i as int).push(c@[i as int]));
            assert(char_views(pieces@).push(c@.subrange(start as int, i + 1int)) =~= dotted_pieces(t));
        }
        i = i + 1;
    }
    let last = slice_of(c, start, c.len());
    pieces.push(last);
    assert(c@.take(c@.len() as int) =~= c@);
    assert(char_views(pieces@) =~= dotted_pieces(c@));
    pieces
}

/// The white-space separated words of `s`, in order.
pub open spec fn words_of(s: Seq<char>) -> Seq<Seq<char>>
    decreases s.len(),
{
    if s.len() == 0 {
        Seq::empty()
    } else {
        let w = words_of(s.drop_last());
        if crate::text::is_ws(s.last()) {
            w
        } else if s.len() >= 2 && !crate::text::is_ws(s[s.len() - 2]) {
            w.update(w.len() - 1, w.last().push(s.last()))
        } else {
            w.push(seq![s.last()])
        }
    }
}

/// The white-space separated words of `c`, in order.
pub fn words(c: &[char]) -> (r: Vec<Vec<char>>)
    ensures
        char_views(r@) == words_of(c@),
        forall|k: int| 0 <= k < r@.len() ==> (#[trigger] r@[k])@.len() > 0,
{
    let mut out: Vec<Vec<char>> = Vec::new();
    let mut i: usize = 0;
    assert(c@.take(0) =~= Seq::<char>::empty());
    while i < c.len()
        invariant
            i <= c@.len(),
            char_views(out@) == words_of(c@.take(i as int)),
            0 < i < c@.len() ==> crate::text::is_ws(c@[i - 1]),
            forall|k: int| 0 <= k < out@.len() ==> (#[trigger] out@[k])@.len() > 0,
        decreases c.len() - i,
    {
        let ghost t = c@.take(i + 1int);
        assert(t.drop_last() =~= c@.take(i as int));
        if crate::text::is_whitespace(c[i]) {
            i = i + 1;
        } else {
            let start = i;
            let ghost base = char_views(out@);
            assert(t.last() == c@[i as int]);
            assert(words_of(t) == base.push(seq![c@[i as int]]));
            assert(c@.subrange(start as int, start + 1int) =~= seq![c@[i as int]]);
            i = i + 1;
            while i < c.len() && !crate::text::is_whitespace(c[i])
                invariant
                    start < i <= c@.len(),
                    !crate::text::is_ws(c@[i - 1]),
                    words_of(c@.take(i as int)) == base.push(c@.subrange(start as int, i as int)),
                decreases c.len() - i,
            {
                let ghost u = c@.take(i + 1int);
                assert(u.drop_last() =~= c@.take(i as int));
                assert(u.last() == c@[i as int]);
                assert(u[u.len() - 2] == c@[i - 1]);
                assert(c@.subrange(start as int, i as int).push(c@[i as int]) =~= c@.subrange(start as int, i + 1int));
                assert(base.push(c@.subrange(start as int, i as int)).update(base.len() as int, c@.subrange(start as int, i as int).push(c@[i as int]))
                    =~= base.push(c@.subrange(start as int, i + 1int)));
                i = i + 1;
            }
            let word = slice_of(c, start, i);
            out.push(word);
            assert(char_views(out@) =~= base.push(c@.subrange(start as int, i as int)));
            if i < c.len() {
                let ghost v = c@.take(i + 1int);
                assert(v.drop_last() =~= c@.take(i as int));
                assert(v.last() == c@[i as int]);
                i = i + 1;
            }
        }
    }
    assert(c@.take(c@.len() as int) =~= c@);
    out
}

/// Whether `c` belongs to a name, as `is_ident_char` says.
pub open spec fn ident_char(c: char) -> bool {
    unicode_alphanumeric(c) || c == '_'
}

/// `s` without the characters outside names at its start.
pub open spec fn drop_non_ident_start(s: Seq<char>) -> Seq<char>
    decreases s.len(),
{
    if s.len() > 0 && !ident_char(s[0]) { drop_non_ident_start(s.drop_first()) } else { s }
}

/// `s` without the characters outside names at its end.
pub open spec fn drop_non_ident_end(s: Seq<char>) -> Seq<char>
    decreases s.len(),
{
    if s.len() > 0 && !ident_char(s.last()) { drop_non_ident_end(s.drop_last()) } else { s }
}

/// `s` without the copies of `ch` at its start.
pub open spec fn strip_start(s: Seq<char>, ch: char) -> Seq<char>
    decreases s.len(),
{
    if s.len() > 0 && s[0] == ch { strip_start(s.drop_first(), ch) } else { s }
}

/// `s` without the copies of `ch` at its end.
pub open spec fn strip_end(s: Seq<char>, ch: char) -> Seq<char>
    decreases s.len(),
{
    if s.len() > 0 && s.last() == ch { strip_end(s.drop_last(), ch) } else { s }
}

/// `c` without the characters outside names at either end.
pub fn trim_non_ident(c: &[char]) -> (r: Vec<char>)
    ensures
        r@ == drop_non_ident_end(drop_non_ident_start(c@)),
{
    let mut a: usize = 0;
    assert(c@.skip(0) =~= c@);
    while a < c.len() && !is_ident_char(c[a])
        invariant
            a <= c@.len(),
            drop_non_ident_start(c@) == drop_non_ident_start(c@.skip(a as int)),
        decreases c.len() - a,
    {
        assert(c@.skip(a as int).drop_first() =~= c@.skip(a + 1int));
        a = a + 1;
    }
    let ghost t = c@.skip(a as int);
    assert(drop_non_ident_start(t) == t);
    let mut b: usize = c.len();
    assert(c@.subrange(a as int, b as int) =~= t);
    while b > a && !is_ident_char(c[b - 1])
        invariant
            a <= b <= c@.len(),
            drop_non_ident_end(t) == drop_non_ident_end(c@.subrange(a as int, b as int)),
        decreases b,
    {
        assert(c@.subrange(a as int, b as int).drop_last() =~= c@.subrange(a as int, b - 1int));
        b = b - 1;
    }
    assert(drop_non_ident_end(c@.subrange(a as int, b as int)) == c@.subrange(a as int, b as int));
    slice_of(c, a, b)
}

/// `c` without the copies of `ch` at its end.
pub fn trim_end_char(c: &[char], ch: char) -> (r: Vec<char>)
    ensures
        r@ == strip_end(c@, ch),
{
    let mut b: usize = c.len();
    assert(c@.subrange(0, b as int) =~= c@);
    while b > 0 && c[b - 1] == ch
        invariant
            b <= c@.len(),
            strip_end(c@, ch) == strip_end(c@.subrange(0, b as int), ch),
        decreases b,
    {
        assert(c@.subrange(0, b as int).drop_last() =~= c@.subrange(0, b - 1int));
        b = b - 1;
    }
    assert(strip_end(c@.subrange(0, b as int), ch) == c@.subrange(0, b as int));
    slice_of(c, 0, b)
}

/// `c` without the leading copies of `ch`.
pub fn trim_start_char(c: &[char], ch: char) -> (r: Vec<char>)
    ensures
        r@ == strip_start(c@, ch),
{
    let mut a: usize = 0;
    assert(c@.skip(0) =~= c@);
    while a < c.len() && c[a] == ch
        invariant
            a <= c@.len(),
            strip_start(c@, ch) == strip_start(c@.skip(a as int), ch),
        decreases c.len() - a,
    {
        assert(c@.skip(a as int).drop_first() =~= c@.skip(a + 1int));
        a = a + 1;
    }
    assert(strip_start(c@.skip(a as int), ch) == c@.skip(a as int));
    let r = slice_of(c, a, c.len());
    assert(r@ =~= c@.skip(a as int));
    r
}

/// Whether `c` is a decimal digit.
pub open spec fn is_digit(c: char) -> bool {
    '0' <= c && c <= '9'
}

/// Whether every character of `s` is a decimal digit.
pub open spec fn all_digits(s: Seq<char>) -> bool {
    forall|i: int| 0 <= i < s.len() ==> is_digit(#[trigger] s[i])
}

/// The value of a run of decimal digits.
pub open spec fn digits_value(s: Seq<char>) -> nat
    decreases s.len(),
{
    if s.len() == 0 {
        0
    } else {
        digits_value(s.drop_last()) * 10 + ((s.last() as u32) - ('0' as u32)) as nat
    }
}

/// The integer `s` reads as: an optional sign and one or more digits, when
/// it fits an `i64`.
pub open spec fn i64_text(s: Seq<char>) -> Option<int> {
    let signed = s.len() > 0 && (s[0] == '+' || s[0] == '-');
    let negative = s.len() > 0 && s[0] == '-';
    let body = if signed { s.drop_first() } else { s };
    if body.len() == 0 || !all_digits(body) {
        None
    } else {
        let x = if negative { -(digits_value(body) as int) } else { digits_value(body) as int };
        if i64::MIN <= x <= i64::MAX { Some(x) } else { None }
    }
}

/// A longer run of digits is worth at least as much as its start.
proof fn lemma_digits_value_grows(s: Seq<char>, i: int, j: int)
    requires
        0 <= i <= j <= s.len(),
        all_digits(s),
    ensures
        digits_value(s.take(i)) <= digits_value(s.take(j)),
    decreases j - i,
{
    if i < j {
        lemma_digits_value_grows(s, i, j - 1);
        assert(s.take(j).drop_last() =~= s.take(j - 1));
        assert(is_digit(s[j - 1]));
    }
}

/// The value of the digits of `c` after an optional sign, when they are all
/// digits and the signed value fits an `i64`.
fn read_i64(c: &[char]) -> (r: Option<i64>)
    ensures
        match r {
            Some(x) => i64_text(c@) == Some(x as int),
            None => i64_text(c@) is None,
        },
{
    let mut i: usize = 0;
    let mut negative = false;
    if c.len() > 0 && (c[0] == '+' || c[0] == '-') {
        negative = c[0] == '-';
        i = 1;
    }
    let ghost start = i as int;
    let ghost body = c@.skip(start);
    assert(start == 1 ==> body =~= c@.drop_first());
    assert(start == 0 ==> body =~= c@);
    if i >= c.len() {
        return None;
    }
    let mut value: u64 = 0;
    let limit: u64 = if negative { 0x8000_0000_0000_0000 } else { 0x7fff_ffff_ffff_ffff };
    assert(body.take(0) =~= Seq::<char>::empty());
    while i < c.len()
        invariant
            0 <= start <= i <= c@.len(),
            body == c@.skip(start),
            start < c@.len(),
            (start == 1) == (c@.len() > 0 && (c@[0] == '+' || c@[0] == '-')),
            start == 0 || start == 1,
            negative == (c@.len() > 0 && c@[0] == '-'),
            start == 1 ==> body == c@.drop_first(),
            start == 0 ==> body == c@,
            value <= limit,
            negative ==> limit == 0x8000_0000_0000_0000,
            !negative ==> limit == 0x7fff_ffff_ffff_ffff,
            all_digits(body.take(i - start)),
            value == digits_value(body.take(i - start)),
        decreases c.len() - i,
    {
        let ch = c[i];
        assert(c@[i as int] == ch);
        assert(body.len() == c@.len() - start);
        assert(body[i - start] == c@[start + (i - start)]);
        assert(body[i - start] == ch);
        if !('0' <= ch && ch <= '9') {
            assert(!is_digit(body[i - start]));
            assert(!all_digits(body));
            return None;
        }
        let d = (ch as u64) - ('0' as u64);
        assert(body.take(i - start + 1).drop_last() =~= body.take(i - start));
        assert(body.take(i - start + 1).last() == ch);
        assert(all_digits(body.take(i - start + 1)));
        if value > (limit - d) / 10 {
            proof {
                assert(value * 10 + d > limit) by (nonlinear_arith)
                    requires value > (limit - d) / 10, d <= 9, limit >= 9;
                if all_digits(body) {
                    lemma_digits_value_grows(body, i - start + 1, body.len() as int);
                    assert(body.take(body.len() as int) =~= body);
                }
            }
            return None;
        }
        assert(value * 10 + d <= limit) by (nonlinear_arith)
            requires value <= (limit - d) / 10, d <= 9, limit >= 9;
        value = value * 10 + d;
        i = i + 1;
    }
    assert(body.take(i - start) =~= body);
    if negative {
        if value == 0x8000_0000_0000_0000 {
            Some(-0x8000_0000_0000_0000i64)
        } else {
            Some(-(value as i64))
        }
    } else {
        Some(value as i64)
    }
}

/// Whether `c` reads as an `i64`: an optional sign and one or more digits
/// whose value fits.
pub fn parses_as_i64(c: &[char]) -> (r: bool)
    ensures
        r == i64_text(c@) is Some,
{
    read_i64(c).is_some()
}

/// The `i64` that `c` reads as: an optional sign and one or more digits
/// whose value fits.
pub fn parse_i64(c: &[char]) -> (r: Option<i64>)
    ensures
        match r {
            Some(x) => i64_text(c@) == Some(x as int),
            None => i64_text(c@) is None,
        },
{
    read_i64(c)
}

} // verus!
