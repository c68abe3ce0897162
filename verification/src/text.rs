//! Character-level helpers on strings, stated over their `Seq<char>` views.
use vstd::prelude::*;
use vstd::std_specs::iter::IteratorSpec;

verus! {

broadcast use vstd::string::group_string_axioms;

/// Trusted: `<str as PartialEq>::eq`, which is true exactly when both slices
/// hold the same characters in the same order.
#[verifier::external_body]
pub(crate) fn str_eq(a: &str, b: &str) -> (r: bool)
    ensures
        r == (a@ == b@),
{
    a == b
}

/// Trusted: `String::push`, which appends one character at the end.
#[verifier::external_body]
pub(crate) fn push_char(s: &mut String, c: char)
    ensures
        final(s)@ == old(s)@.push(c),
{
    s.push(c)
}

/// What `<str as Debug>` writes for a text: the text in double quotes,
/// with the escapes std chooses.
pub uninterp spec fn quoted(s: Seq<char>) -> Seq<char>;

/// Trusted: `format!("{:?}", s)` on a `str`, whose text depends on the
/// characters of `s` alone.
#[verifier::external_body]
pub(crate) fn debug_quoted(s: &str) -> (r: String)
    ensures
        r@ == quoted(s@),
{
    format!("{:?}", s)
}

/// The characters of `s`, in order.
pub fn chars_of(s: &str) -> (v: Vec<char>)
    ensures
        v@ == s@,
{
    let mut out: Vec<char> = Vec::new();
    for c in it: s.chars()
        invariant
            out@ == it.seq().take(it.index() as int),
            it.seq() == s@,
    {
        out.push(c);
    }
    out
}

} // verus!

verus! {

/// The decimal digit character for `d < 10`.
pub open spec fn digit_char(d: nat) -> char {
    if d == 0 { '0' }
    else if d == 1 { '1' }
    else if d == 2 { '2' }
    else if d == 3 { '3' }
    else if d == 4 { '4' }
    else if d == 5 { '5' }
    else if d == 6 { '6' }
    else if d == 7 { '7' }
    else if d == 8 { '8' }
    else { '9' }
}

/// The decimal notation of `n`, without leading zeros.
pub open spec fn decimal(n: nat) -> Seq<char>
    decreases n,
{
    if n < 10 {
        seq![digit_char(n)]
    } else {
        decimal(n / 10).push(digit_char(n % 10))
    }
}

/// Unfolds `decimal` on numbers below one thousand.
pub proof fn lemma_decimal_small(n: nat)
    requires
        n < 1000,
    ensures
        n < 10 ==> decimal(n) == seq![digit_char(n)],
        10 <= n < 100 ==> decimal(n) == seq![digit_char(n / 10), digit_char(n % 10)],
        100 <= n < 1000 ==> decimal(n) == seq![digit_char(n / 100), digit_char((n / 10) % 10), digit_char(n % 10)],
{
    if n >= 10 {
        assert(decimal(n) == decimal(n / 10).push(digit_char(n % 10)));
        if n >= 100 {
            assert(decimal(n / 10) == decimal(n / 100).push(digit_char((n / 10) % 10)));
            assert(n / 10 / 10 == n / 100);
        }
    }
}

fn digit_of(d: u64) -> (c: char)
    requires
        d < 10,
    ensures
        c == digit_char(d as nat),
{
    if d == 0 { '0' }
    else if d == 1 { '1' }
    else if d == 2 { '2' }
    else if d == 3 { '3' }
    else if d == 4 { '4' }
    else if d == 5 { '5' }
    else if d == 6 { '6' }
    else if d == 7 { '7' }
    else if d == 8 { '8' }
    else { '9' }
}

/// The decimal notation of a signed number, with a leading `-` when it is
/// negative.
pub open spec fn signed_decimal(i: int) -> Seq<char> {
    if i < 0 { seq!['-'] + decimal((-i) as nat) } else { decimal(i as nat) }
}

/// Appends the decimal notation of `i`, signed, to `s`.
pub fn push_signed_decimal(s: &mut String, i: i64)
    ensures
        final(s)@ == old(s)@ + signed_decimal(i as int),
{
    if i < 0 {
        push_char(s, '-');
        let wide: i128 = i as i128;
        let m: u64 = (0i128 - wide) as u64;
        push_decimal(s, m);
        assert(old(s)@.push('-') + decimal(m as nat) =~= old(s)@ + (seq!['-'] + decimal((-(i as int)) as nat)));
    } else {
        push_decimal(s, i as u64);
    }
}

/// Appends the decimal notation of `n` to `s`.
pub fn push_decimal(s: &mut String, n: u64)
    ensures
        final(s)@ == old(s)@ + decimal(n as nat),
    decreases n,
{
    if n < 10 {
        push_char(s, digit_of(n));
        assert(decimal(n as nat) == seq![digit_char(n as nat)]);
    } else {
        push_decimal(s, n / 10);
        push_char(s, digit_of(n % 10));
        assert(decimal(n as nat) == decimal((n / 10) as nat).push(digit_char((n % 10) as nat)));
    }
}

} // verus!

verus! {

/// The index of the last occurrence of `ch` in `s`, or -1.
pub open spec fn last_index_of(s: Seq<char>, ch: char) -> int
    decreases s.len(),
{
    if s.len() == 0 {
        -1
    } else if s.last() == ch {
        s.len() - 1
    } else {
        last_index_of(s.drop_last(), ch)
    }
}

/// `last_index_of` is -1 or the index of an occurrence, with none after it.
pub proof fn lemma_last_index_of(s: Seq<char>, ch: char)
    ensures
        -1 <= last_index_of(s, ch) < s.len(),
        last_index_of(s, ch) >= 0 ==> s[last_index_of(s, ch)] == ch,
        forall|j: int| last_index_of(s, ch) < j < s.len() ==> s[j] != ch,
        last_index_of(s, ch) == -1 <==> !s.contains(ch),
    decreases s.len(),
{
    if s.len() > 0 {
        lemma_last_index_of(s.drop_last(), ch);
        if s.last() != ch {
            assert forall|j: int| last_index_of(s, ch) < j < s.len() implies s[j] != ch by {
                if j < s.len() - 1 {
                    assert(s[j] == s.drop_last()[j]);
                }
            }
            if s.contains(ch) {
                let k = choose|k: int| 0 <= k < s.len() && s[k] == ch;
                assert(s.drop_last()[k] == ch);
            }
            if s.drop_last().contains(ch) {
                let k = choose|k: int| 0 <= k < s.len() - 1 && s.drop_last()[k] == ch;
                assert(s[k] == ch);
            }
        } else {
            assert(s[s.len() - 1] == ch);
        }
    }
}

/// The part of `s` after its last `ch`; all of `s` when `ch` does not occur.
pub open spec fn after_last(s: Seq<char>, ch: char) -> Seq<char> {
    s.subrange(last_index_of(s, ch) + 1, s.len() as int)
}

/// Whether `c` occurs in `s`.
pub fn has_char(s: &str, c: char) -> (r: bool)
    ensures
        r == s@.contains(c),
{
    let v = chars_of(s);
    let mut i: usize = 0;
    while i < v.len()
        invariant
            v@ == s@,
            i <= v@.len(),
            forall|j: int| 0 <= j < i ==> v@[j] != c,
        decreases v.len() - i,
    {
        if v[i] == c {
            return true;
        }
        i = i + 1;
    }
    false
}

/// A string holding exactly the characters of `v`.
pub fn string_from_chars(v: &[char]) -> (r: String)
    ensures
        r@ == v@,
{
    let mut s = String::new();
    let mut i: usize = 0;
    while i < v.len()
        invariant
            i <= v@.len(),
            s@ == v@.take(i as int),
        decreases v.len() - i,
    {
        push_char(&mut s, v[i]);
        assert(v@.take(i + 1int) == v@.take(i as int).push(v@[i as int]));
        i = i + 1;
    }
    assert(v@.take(v@.len() as int) == v@);
    s
}

/// The text of `s` after its last `ch`, or all of `s`.
pub fn after_last_char(s: &str, ch: char) -> (r: String)
    ensures
        r@ == after_last(s@, ch),
{
    let v = chars_of(s);
    proof { lemma_last_index_of(s@, ch); }
    let mut i: usize = v.len();
    while i > 0 && v[i - 1] != ch
        invariant
            v@ == s@,
            i <= v@.len(),
            forall|j: int| i <= j < v@.len() ==> v@[j] != ch,
        decreases i,
    {
        i = i - 1;
    }
    proof {
        // `i` is one past the last occurrence, or 0 when there is none.
        let k = last_index_of(s@, ch);
        if i > 0 {
            assert(v@[i - 1] == ch);
            assert(k >= i - 1);
            if k > i - 1 {
                assert(v@[k] == ch);
            }
        } else {
            if k >= 0 {
                assert(v@[k] == ch);
            }
        }
    }
    let tail = v.split_at(i).1;
    string_from_chars(tail)
}

} // verus!

verus! {

/// Unicode white space, as `char::is_whitespace` classifies it.
pub open spec fn is_ws(c: char) -> bool {
    let n = c as u32;
    ||| n == 0x20
    ||| (0x09 <= n && n <= 0x0d)
    ||| n == 0x85
    ||| n == 0xa0
    ||| n == 0x1680
    ||| (0x2000 <= n && n <= 0x200a)
    ||| n == 0x2028
    ||| n == 0x2029
    ||| n == 0x202f
    ||| n == 0x205f
    ||| n == 0x3000
}

/// Whether `c` is white space.
pub fn is_whitespace(c: char) -> (r: bool)
    ensures
        r == is_ws(c),
{
    let n = c as u32;
    n == 0x20 || (0x09 <= n && n <= 0x0d) || n == 0x85 || n == 0xa0 || n == 0x1680
        || (0x2000 <= n && n <= 0x200a) || n == 0x2028 || n == 0x2029 || n == 0x202f
        || n == 0x205f || n == 0x3000
}

/// `s` without its leading white space.
pub open spec fn trim_start(s: Seq<char>) -> Seq<char>
    decreases s.len(),
{
    if s.len() > 0 && is_ws(s[0]) { trim_start(s.drop_first()) } else { s }
}

/// `s` without its trailing white space.
pub open spec fn trim_end(s: Seq<char>) -> Seq<char>
    decreases s.len(),
{
    if s.len() > 0 && is_ws(s.last()) { trim_end(s.drop_last()) } else { s }
}

/// `s` without leading or trailing white space.
pub open spec fn trim(s: Seq<char>) -> Seq<char> {
    trim_end(trim_start(s))
}

/// The characters of `v` without leading or trailing white space.
pub fn trim_chars(v: &[char]) -> (r: Vec<char>)
    ensures
        r@ == trim(v@),
{
    let n = v.len();
    let mut i: usize = 0;
    assert(v@.skip(0) =~= v@);
    while i < n && is_whitespace(v[i])
        invariant
            n == v@.len(),
            i <= n,
            trim_start(v@) == trim_start(v@.skip(i as int)),
        decreases n - i,
    {
        assert(v@.skip(i as int).drop_first() =~= v@.skip(i + 1int));
        i = i + 1;
    }
    assert(trim_start(v@.skip(i as int)) == v@.skip(i as int));
    let ghost t = v@.skip(i as int);
    let mut j: usize = n;
    assert(v@.subrange(i as int, n as int) =~= t);
    while j > i && is_whitespace(v[j - 1])
        invariant
            n == v@.len(),
            i <= j <= n,
            t == v@.skip(i as int),
            trim_end(t) == trim_end(v@.subrange(i as int, j as int)),
        decreases j,
    {
        assert(v@.subrange(i as int, j as int).drop_last() =~= v@.subrange(i as int, j - 1int));
        j = j - 1;
    }
    assert(trim_end(v@.subrange(i as int, j as int)) == v@.subrange(i as int, j as int));
    assert(v@.subrange(i as int, n as int) =~= t);
    let mut out: Vec<char> = Vec::new();
    let mut k: usize = i;
    while k < j
        invariant
            i <= k <= j <= n,
            n == v@.len(),
            out@ == v@.subrange(i as int, k as int),
        decreases j - k,
    {
        out.push(v[k]);
        assert(v@.subrange(i as int, k + 1int) =~= v@.subrange(i as int, k as int).push(v@[k as int]));
        k = k + 1;
    }
    out
}

/// A new string holding `s` without leading or trailing white space.
pub fn trimmed(s: &str) -> (r: String)
    ensures
        r@ == trim(s@),
{
    let v = chars_of(s);
    let t = trim_chars(v.as_slice());
    string_from_chars(t.as_slice())
}

} // verus!

verus! {

proof fn lemma_trim_start_clean(s: Seq<char>)
    ensures
        trim_start(s).len() == 0 || !is_ws(trim_start(s)[0]),
    decreases s.len(),
{
    if s.len() > 0 && is_ws(s[0]) {
        lemma_trim_start_clean(s.drop_first());
    }
}

proof fn lemma_trim_end_prefix(s: Seq<char>)
    ensures
        trim_end(s).len() <= s.len(),
        trim_end(s) == s.take(trim_end(s).len() as int),
        trim_end(s).len() == 0 || !is_ws(trim_end(s).last()),
    decreases s.len(),
{
    if s.len() > 0 && is_ws(s.last()) {
        lemma_trim_end_prefix(s.drop_last());
        assert(s.drop_last().take(trim_end(s).len() as int) =~= s.take(trim_end(s).len() as int));
    } else {
        assert(s.take(s.len() as int) =~= s);
    }
}

/// Trimming twice gives what trimming once gives.
pub proof fn lemma_trim_idempotent(s: Seq<char>)
    ensures
        trim(trim(s)) == trim(s),
{
    let ts = trim_start(s);
    lemma_trim_start_clean(s);
    lemma_trim_end_prefix(ts);
    let t = trim_end(ts);
    if t.len() > 0 {
        assert(t[0] == ts[0]);
    }
    assert(trim_start(t) == t);
    assert(trim_end(t) == t);
}

} // verus!
