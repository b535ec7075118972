//! Character-level helpers for the operation file format: the `" | "`
//! field separator, action codes written in decimal, and moving text
//! between `String`, `&str` and `Vec<char>`.

use vstd::prelude::*;

verus! {

// ---------------------------------------------------------------------------
// The field separator " | "
// ---------------------------------------------------------------------------

/// The separator `" | "` starts at index `i` of `s`.
pub open spec fn sep_at(s: Seq<char>, i: int) -> bool {
    &&& 0 <= i
    &&& i + 3 <= s.len()
    &&& s[i] == ' '
    &&& s[i + 1] == '|'
    &&& s[i + 2] == ' '
}

/// `s` holds the separator somewhere.
pub open spec fn has_sep(s: Seq<char>) -> bool {
    exists|i: int| sep_at(s, i)
}

/// The index of the first separator that starts at or after `from`, or
/// `s.len()` when there is none: the leftmost match of a left-to-right
/// search, as `str::split` performs it.
pub open spec fn next_sep(s: Seq<char>, from: int) -> int
    decreases s.len() - from,
{
    if from < 0 || from + 3 > s.len() {
        s.len() as int
    } else if sep_at(s, from) {
        from
    } else {
        next_sep(s, from + 1)
    }
}

/// The first field of a line: everything before the first separator.
pub open spec fn first_piece(s: Seq<char>) -> Seq<char> {
    s.take(next_sep(s, 0))
}

/// The second field of a line, between the first and the second separator
/// (or the end of the line); `None` when the line holds no separator.
pub open spec fn second_piece(s: Seq<char>) -> Option<Seq<char>> {
    let i = next_sep(s, 0);
    if i < s.len() {
        Some(s.subrange(i + 3, next_sep(s, i + 3)))
    } else {
        None
    }
}

/// `next_sep` points at a separator or at the end, never before `from`.
pub proof fn lemma_next_sep_bounds(s: Seq<char>, from: int)
    requires
        0 <= from <= s.len(),
    ensures
        from <= next_sep(s, from) <= s.len(),
        next_sep(s, from) < s.len() ==> sep_at(s, next_sep(s, from)),
        forall|i: int| from <= i < next_sep(s, from) ==> !sep_at(s, i),
    decreases s.len() - from,
{
    if from + 3 > s.len() {
        assert forall|i: int| from <= i < s.len() implies !sep_at(s, i) by {}
    } else if sep_at(s, from) {
    } else {
        lemma_next_sep_bounds(s, from + 1);
    }
}

/// When no separator starts in `[from, k)` and one starts at `k` (or `k` is
/// the end of `s`), the search from `from` stops at `k`.
pub proof fn lemma_next_sep_is(s: Seq<char>, from: int, k: int)
    requires
        0 <= from <= k <= s.len(),
        forall|i: int| from <= i < k ==> !sep_at(s, i),
        k == s.len() || sep_at(s, k),
    ensures
        next_sep(s, from) == k,
    decreases k - from,
{
    if from + 3 > s.len() {
        if k < s.len() {
            assert(!sep_at(s, k));
        }
    } else if sep_at(s, from) {
    } else {
        lemma_next_sep_is(s, from + 1, k);
    }
}

/// Finds the first separator of `s` at or after `from`.
pub fn find_sep(s: &Vec<char>, from: usize) -> (r: usize)
    requires
        from <= s.len(),
    ensures
        r as int == next_sep(s@, from as int),
{
    let len = s.len();
    let mut i = from;
    while len - i >= 3
        invariant
            from <= i <= len,
            len == s.len(),
            next_sep(s@, from as int) == next_sep(s@, i as int),
        decreases len - i,
    {
        if s[i] == ' ' && s[i + 1] == '|' && s[i + 2] == ' ' {
            return i;
        }
        i = i + 1;
    }
    i = len;
    len
}

/// Copies `s[start..end]`.
pub fn copy_range(s: &Vec<char>, start: usize, end: usize) -> (r: Vec<char>)
    requires
        start <= end <= s.len(),
    ensures
        r@ == s@.subrange(start as int, end as int),
{
    let mut r: Vec<char> = Vec::new();
    let mut i = start;
    while i < end
        invariant
            start <= i <= end <= s.len(),
            r@ == s@.subrange(start as int, i as int),
        decreases end - i,
    {
        r.push(s[i]);
        i = i + 1;
    }
    r
}

/// Splits off the first two fields of a line, as `line.split(" | ")`
/// followed by two calls of `next` does.
pub fn split_two(line: &Vec<char>) -> (r: (Vec<char>, Option<Vec<char>>))
    ensures
        r.0@ == first_piece(line@),
        match r.1 {
            Some(v) => second_piece(line@) == Some(v@),
            None => second_piece(line@) is None,
        },
{
    proof {
        lemma_next_sep_bounds(line@, 0);
    }
    let i = find_sep(line, 0);
    let first = copy_range(line, 0, i);
    if i < line.len() {
        proof {
            lemma_next_sep_bounds(line@, i + 3);
        }
        let j = find_sep(line, i + 3);
        let second = copy_range(line, i + 3, j);
        (first, Some(second))
    } else {
        (first, None)
    }
}

// ---------------------------------------------------------------------------
// Action codes in decimal
// ---------------------------------------------------------------------------

/// `c` is an ASCII decimal digit.
pub open spec fn is_digit(c: char) -> bool {
    48 <= (c as u32) <= 57
}

/// The value of a decimal digit.
pub open spec fn digit_value(c: char) -> nat {
    ((c as u32) - 48) as nat
}

/// The digit that stands for `d` (for `d < 10`).
pub open spec fn digit_char(d: nat) -> char {
    ((d + 48) as u8) as char
}

/// Every character of `d` is a decimal digit.
pub open spec fn all_digits(d: Seq<char>) -> bool {
    forall|i: int| 0 <= i < d.len() ==> is_digit(#[trigger] d[i])
}

/// The number that a string of decimal digits writes.
pub open spec fn digits_value(d: Seq<char>) -> nat
    decreases d.len(),
{
    if d.len() == 0 {
        0
    } else {
        digits_value(d.drop_last()) * 10 + digit_value(d.last())
    }
}

/// The digits of a number text: an optional leading `+` is dropped.
pub open spec fn unsigned_digits(s: Seq<char>) -> Seq<char> {
    if s.len() > 0 && s[0] == '+' {
        s.drop_first()
    } else {
        s
    }
}

/// What `str::parse::<u8>` gives: an optional `+` and then one or more
/// decimal digits whose value fits in a `u8`; `None` for anything else.
pub open spec fn parse_u8_spec(s: Seq<char>) -> Option<u8> {
    let d = unsigned_digits(s);
    if d.len() > 0 && all_digits(d) && digits_value(d) <= 255 {
        Some(digits_value(d) as u8)
    } else {
        None
    }
}

/// The decimal text of `n` without leading zeros, as `n.to_string()` writes it.
pub open spec fn u8_decimal(n: u8) -> Seq<char> {
    if n < 10 {
        seq![digit_char(n as nat)]
    } else if n < 100 {
        seq![digit_char((n / 10) as nat), digit_char((n % 10) as nat)]
    } else {
        seq![
            digit_char((n / 100) as nat),
            digit_char(((n / 10) % 10) as nat),
            digit_char((n % 10) as nat),
        ]
    }
}

proof fn lemma_digit_char(d: nat)
    requires
        d < 10,
    ensures
        is_digit(digit_char(d)),
        digit_value(digit_char(d)) == d,
        digit_char(d) != ' ',
{
}

/// Reading back the decimal text of a `u8` gives the same `u8`.
pub proof fn lemma_parse_u8_decimal(n: u8)
    ensures
        parse_u8_spec(u8_decimal(n)) == Some(n),
        all_digits(u8_decimal(n)),
        1 <= u8_decimal(n).len() <= 3,
{
    let s = u8_decimal(n);
    lemma_digit_char((n % 10) as nat);
    if n < 10 {
        lemma_digit_char(n as nat);
    } else if n < 100 {
        lemma_digit_char((n / 10) as nat);
    } else {
        lemma_digit_char((n / 100) as nat);
        lemma_digit_char(((n / 10) % 10) as nat);
    }
    assert(s[0] != '+');
    assert(unsigned_digits(s) == s);
    reveal_with_fuel(digits_value, 4);
    if n < 10 {
        assert(s.drop_last().len() == 0);
    } else if n < 100 {
        assert(s.drop_last() =~= seq![digit_char((n / 10) as nat)]);
        assert(s.drop_last().drop_last().len() == 0);
    } else {
        assert(s.drop_last() =~= seq![digit_char((n / 100) as nat), digit_char(((n / 10) % 10) as nat)]);
        assert(s.drop_last().drop_last() =~= seq![digit_char((n / 100) as nat)]);
        assert(s.drop_last().drop_last().drop_last().len() == 0);
    }
}

proof fn lemma_digits_value_take(d: Seq<char>, k: int)
    requires
        0 <= k < d.len(),
    ensures
        digits_value(d.take(k + 1)) == digits_value(d.take(k)) * 10 + digit_value(d[k]),
{
    assert(d.take(k + 1).drop_last() =~= d.take(k));
}

/// Reads an action code; see [`parse_u8_spec`].
pub fn parse_u8(s: &Vec<char>) -> (r: Option<u8>)
    ensures
        r == parse_u8_spec(s@),
{
    let len = s.len();
    let start: usize = if len > 0 && s[0] == '+' { 1 } else { 0 };
    let ghost d = unsigned_digits(s@);
    assert(d =~= s@.subrange(start as int, len as int));
    if start == len {
        return None;
    }
    // `acc` is the value read so far, or 256 once that value exceeds 255.
    let mut acc: u32 = 0;
    let mut i = start;
    while i < len
        invariant
            start <= i <= len,
            len == s.len(),
            start < len,
            d =~= s@.subrange(start as int, len as int),
            d == unsigned_digits(s@),
            all_digits(d.take(i - start)),
            acc <= 256,
            digits_value(d.take(i - start)) <= 255 ==> acc == digits_value(d.take(i - start)),
            digits_value(d.take(i - start)) > 255 ==> acc == 256,
        decreases len - i,
    {
        let c = s[i];
        let code = c as u32;
        assert(d[i - start] == c);
        if code < 48 || code > 57 {
            assert(!is_digit(d[i - start]));
            assert(!all_digits(d));
            return None;
        }
        proof {
            lemma_digits_value_take(d, i - start);
            assert(d.take(i - start + 1).drop_last() =~= d.take(i - start));
        }
        if acc <= 255 {
            acc = acc * 10 + (code - 48);
            if acc > 255 {
                acc = 256;
            }
        }
        i = i + 1;
        assert(all_digits(d.take(i - start))) by {
            assert forall|j: int| 0 <= j < d.take(i - start).len() implies is_digit(
                #[trigger] d.take(i - start)[j],
            ) by {
                if j < i - 1 - start {
                    assert(d.take(i - start)[j] == d.take(i - 1 - start)[j]);
                }
            }
        }
    }
    assert(d.take(len - start) =~= d);
    if acc <= 255 {
        Some(acc as u8)
    } else {
        None
    }
}

/// Appends the decimal text of `n`.
pub fn push_u8_decimal(s: &mut String, n: u8)
    ensures
        final(s)@ == old(s)@ + u8_decimal(n),
{
    if n >= 100 {
        push_char(s, ((n / 100) + 48) as char);
    }
    if n >= 10 {
        push_char(s, (((n / 10) % 10) + 48) as char);
    }
    push_char(s, ((n % 10) + 48) as char);
    assert(final(s)@ =~= old(s)@ + u8_decimal(n));
}

// ---------------------------------------------------------------------------
// Moving text between String, &str and Vec<char>
// ---------------------------------------------------------------------------

/// Appends one character to a `String` (calls `String::push`).
#[verifier::external_body]
pub(crate) fn push_char(s: &mut String, c: char)
    ensures
        final(s)@ == old(s)@.push(c),
{
    s.push(c);
}

/// The characters of `s`, in order.
pub fn chars_of(s: &str) -> (r: Vec<char>)
    ensures
        r@ == s@,
{
    let mut r: Vec<char> = Vec::new();
    for c in it: s.chars()
        invariant
            r@ == it.seq().take(it.index() as int),
            it.seq() == s@,
    {
        r.push(c);
    }
    r
}

/// A `String` holding the characters of `v`.
pub fn string_of(v: &Vec<char>) -> (r: String)
    ensures
        r@ == v@,
{
    let mut r = String::new();
    let mut i: usize = 0;
    while i < v.len()
        invariant
            i <= v.len(),
            r@ == v@.take(i as int),
        decreases v.len() - i,
    {
        push_char(&mut r, v[i]);
        assert(v@.take(i as int).push(v@[i as int]) == v@.take(i + 1));
        i = i + 1;
    }
    assert(v@.take(v.len() as int) == v@);
    r
}

/// Appends the characters of `t` to `s`.
pub fn push_text(s: &mut String, t: &String)
    ensures
        final(s)@ == old(s)@ + t@,
{
    let cs = chars_of(t.as_str());
    let mut i: usize = 0;
    while i < cs.len()
        invariant
            i <= cs.len(),
            cs@ == t@,
            s@ == old(s)@ + cs@.take(i as int),
        decreases cs.len() - i,
    {
        push_char(s, cs[i]);
        assert(cs@.take(i as int).push(cs@[i as int]) == cs@.take(i + 1));
        i = i + 1;
    }
    assert(cs@.take(cs.len() as int) == cs@);
}

} // verus!
