//! Character-level helpers of the layout string: whitespace trimming,
//! field splitting, and decimal numbers.

use vstd::prelude::*;
use vstd::string::StrSliceExecFns;

verus! {

/// Unicode white space, as `char::is_whitespace` defines it.
pub open spec fn is_space(c: char) -> bool {
    let v = c as u32;
    ||| 0x09 <= v <= 0x0d
    ||| v == 0x20
    ||| v == 0x85
    ||| v == 0xa0
    ||| v == 0x1680
    ||| 0x2000 <= v <= 0x200a
    ||| v == 0x2028
    ||| v == 0x2029
    ||| v == 0x202f
    ||| v == 0x205f
    ||| v == 0x3000
}

/// Whether `c` is Unicode white space.
pub fn char_is_space(c: char) -> (b: bool)
    ensures
        b == is_space(c),
{
    let v = c as u32;
    (0x09 <= v && v <= 0x0d) || v == 0x20 || v == 0x85 || v == 0xa0 || v == 0x1680 || (0x2000 <= v && v <= 0x200a)
        || v == 0x2028 || v == 0x2029 || v == 0x202f || v == 0x205f || v == 0x3000
}

/// Number of white-space characters at the start of `s`.
pub open spec fn leading_spaces(s: Seq<char>) -> nat
    decreases s.len(),
{
    if s.len() == 0 || !is_space(s[0]) {
        0
    } else {
        1 + leading_spaces(s.subrange(1, s.len() as int))
    }
}

/// Number of white-space characters at the end of `s`.
pub open spec fn trailing_spaces(s: Seq<char>) -> nat
    decreases s.len(),
{
    if s.len() == 0 || !is_space(s.last()) {
        0
    } else {
        1 + trailing_spaces(s.drop_last())
    }
}

/// `s` without leading and trailing white space.
pub open spec fn trimmed(s: Seq<char>) -> Seq<char> {
    if leading_spaces(s) >= s.len() {
        Seq::empty()
    } else {
        s.subrange(leading_spaces(s) as int, s.len() - trailing_spaces(s))
    }
}

/// The leading white space of `s` ends at the first other character.
pub proof fn lemma_leading_spaces(s: Seq<char>, i: int)
    requires
        0 <= i <= s.len(),
        forall|k: int| 0 <= k < i ==> is_space(#[trigger] s[k]),
        i == s.len() || !is_space(s[i]),
    ensures
        leading_spaces(s) == i,
    decreases i,
{
    if i > 0 {
        let rest = s.subrange(1, s.len() as int);
        assert forall|k: int| 0 <= k < i - 1 implies is_space(#[trigger] rest[k]) by {
            assert(rest[k] == s[k + 1]);
        }
        if i < s.len() {
            assert(rest[i - 1] == s[i]);
        }
        lemma_leading_spaces(rest, i - 1);
    }
}

/// The trailing white space of `s` starts after the last other character.
pub proof fn lemma_trailing_spaces(s: Seq<char>, j: int)
    requires
        0 <= j <= s.len(),
        forall|k: int| j <= k < s.len() ==> is_space(#[trigger] s[k]),
        j == 0 || !is_space(s[j - 1]),
    ensures
        trailing_spaces(s) == s.len() - j,
    decreases s.len() - j,
{
    if j < s.len() {
        let rest = s.drop_last();
        assert forall|k: int| j <= k < rest.len() implies is_space(#[trigger] rest[k]) by {
            assert(rest[k] == s[k]);
        }
        if j > 0 {
            assert(rest[j - 1] == s[j - 1]);
        }
        lemma_trailing_spaces(rest, j);
    }
}

/// The bounds of `chars` without leading and trailing white space.
pub fn trim_bounds(chars: &Vec<char>) -> (r: (usize, usize))
    ensures
        r.0 <= r.1 <= chars@.len(),
        chars@.subrange(r.0 as int, r.1 as int) == trimmed(chars@),
        (r.0 == r.1) == (trimmed(chars@).len() == 0),
{
    let n = chars.len();
    let mut lo: usize = 0;
    while lo < n && char_is_space(chars[lo])
        invariant
            lo <= n,
            n == chars@.len(),
            forall|k: int| 0 <= k < lo ==> is_space(#[trigger] chars@[k]),
        decreases n - lo,
    {
        lo = lo + 1;
    }
    proof {
        lemma_leading_spaces(chars@, lo as int);
    }
    if lo == n {
        return (n, n);
    }
    let mut hi: usize = n;
    while hi > lo && char_is_space(chars[hi - 1])
        invariant
            lo < n,
            lo <= hi <= n,
            n == chars@.len(),
            !is_space(chars@[lo as int]),
            forall|k: int| hi <= k < n ==> is_space(#[trigger] chars@[k]),
        decreases hi,
    {
        hi = hi - 1;
    }
    proof {
        if hi == lo {
            assert(!is_space(chars@[lo as int]));
            assert(is_space(chars@[lo as int]));
        }
        lemma_trailing_spaces(chars@, hi as int);
    }
    (lo, hi)
}

/// Position of the first `c` in `s`, if any.
pub open spec fn first_index(s: Seq<char>, c: char) -> Option<int>
    decreases s.len(),
{
    if s.len() == 0 {
        None
    } else if s[0] == c {
        Some(0)
    } else {
        match first_index(s.subrange(1, s.len() as int), c) {
            Some(i) => Some(i + 1),
            None => None,
        }
    }
}

/// The first occurrence of `c` is found by scanning from the start.
pub proof fn lemma_first_index(s: Seq<char>, c: char, i: int)
    requires
        0 <= i <= s.len(),
        forall|k: int| 0 <= k < i ==> #[trigger] s[k] != c,
    ensures
        i < s.len() && s[i] == c ==> first_index(s, c) == Some(i),
        i == s.len() ==> first_index(s, c) is None,
    decreases i,
{
    if i > 0 {
        let rest = s.subrange(1, s.len() as int);
        assert forall|k: int| 0 <= k < i - 1 implies #[trigger] rest[k] != c by {
            assert(rest[k] == s[k + 1]);
        }
        if i < s.len() {
            assert(rest[i - 1] == s[i]);
        }
        lemma_first_index(rest, c, i - 1);
    } else if s.len() > 0 && s[0] != c {
        assert(i == 0 && i == s.len() ==> false);
    }
}

/// Position of the first `c` in `chars` within `[from, to)`, or `to` when none.
pub fn find_char(chars: &Vec<char>, from: usize, to: usize, c: char) -> (r: usize)
    requires
        from <= to <= chars@.len(),
    ensures
        from <= r <= to,
        r < to ==> first_index(chars@.subrange(from as int, to as int), c) == Some(r - from),
        r == to ==> first_index(chars@.subrange(from as int, to as int), c) is None,
{
    let mut i: usize = from;
    while i < to && chars[i] != c
        invariant
            from <= i <= to,
            to <= chars@.len(),
            forall|k: int| from <= k < i ==> #[trigger] chars@[k] != c,
        decreases to - i,
    {
        i = i + 1;
    }
    proof {
        let s = chars@.subrange(from as int, to as int);
        assert forall|k: int| 0 <= k < i - from implies #[trigger] s[k] != c by {
            assert(s[k] == chars@[from + k]);
        }
        if i < to {
            assert(s[i - from] == chars@[i as int]);
        }
        lemma_first_index(s, c, i - from);
    }
    i
}

/// The fields of `s` separated by `sep`, in order.
pub open spec fn split_fields(s: Seq<char>, sep: char) -> Seq<Seq<char>>
    decreases s.len(),
{
    match first_index(s, sep) {
        None => seq![s],
        Some(i) => if 0 <= i < s.len() {
            seq![s.subrange(0, i)] + split_fields(s.subrange(i + 1, s.len() as int), sep)
        } else {
            seq![s]
        },
    }
}

/// The value of a decimal digit.
pub open spec fn digit_value(c: char) -> nat {
    ((c as u32) - 0x30) as nat
}

/// Whether `c` is an ASCII decimal digit.
pub open spec fn is_digit(c: char) -> bool {
    0x30 <= (c as u32) <= 0x39
}

/// The value of the decimal digits `s`.
pub open spec fn decimal_value(s: Seq<char>) -> nat
    decreases s.len(),
{
    if s.len() == 0 {
        0
    } else {
        decimal_value(s.drop_last()) * 10 + digit_value(s.last())
    }
}

/// The value of a decimal number, as `u32::from_str` reads it: an optional
/// `+` then at least one digit, at most `u32::MAX`.
pub open spec fn parse_u32_spec(s: Seq<char>) -> Option<u32> {
    let digits = digits_of(s);
    if digits.len() > 0 && all_digits(digits) && decimal_value(digits) <= u32::MAX {
        Some(decimal_value(digits) as u32)
    } else {
        None
    }
}

/// `s` without one leading `+` sign.
pub open spec fn digits_of(s: Seq<char>) -> Seq<char> {
    if s.len() > 0 && s[0] == '+' {
        s.subrange(1, s.len() as int)
    } else {
        s
    }
}

/// Every character of `s` is a decimal digit.
pub open spec fn all_digits(s: Seq<char>) -> bool {
    forall|i: int| 0 <= i < s.len() ==> is_digit(#[trigger] s[i])
}

/// Reads a decimal number from `chars[from..to]` (see [`parse_u32_spec`]).
pub fn parse_u32(chars: &Vec<char>, from: usize, to: usize) -> (r: Option<u32>)
    requires
        from <= to <= chars@.len(),
    ensures
        r == parse_u32_spec(chars@.subrange(from as int, to as int)),
{
    let ghost s = chars@.subrange(from as int, to as int);
    let start: usize = if from < to && chars[from] == '+' { from + 1 } else { from };
    let ghost digits = chars@.subrange(start as int, to as int);
    assert(digits =~= digits_of(s));
    if start == to {
        return None;
    }
    let mut value: u64 = 0;
    let mut i: usize = start;
    assert(chars@.subrange(start as int, start as int) =~= Seq::<char>::empty());
    while i < to
        invariant
            start <= i <= to,
            to <= chars@.len(),
            digits == chars@.subrange(start as int, to as int),
            s == chars@.subrange(from as int, to as int),
            digits == digits_of(s),
            digits.len() > 0,
            forall|k: int| start <= k < i ==> is_digit(#[trigger] chars@[k]),
            value == decimal_value(chars@.subrange(start as int, i as int)),
            value <= u32::MAX,
        decreases to - i,
    {
        let c = chars[i];
        let code = c as u32;
        if code < 0x30 || code > 0x39 {
            proof {
                assert(digits[i - start] == c);
                assert(!is_digit(digits[i - start]));
                assert(!all_digits(digits));
                assert(parse_u32_spec(s) is None);
            }
            return None;
        }
        proof {
            assert(chars@.subrange(start as int, i + 1).drop_last() =~= chars@.subrange(start as int, i as int));
            assert(chars@.subrange(start as int, i + 1).last() == c);
        }
        let next: u64 = value * 10 + (code - 0x30) as u64;
        if next > 0xffff_ffff {
            proof {
                assert(digits.subrange(0, i + 1 - start) =~= chars@.subrange(start as int, i + 1));
                if all_digits(digits) {
                    lemma_decimal_prefix_bound(digits, i + 1 - start);
                    assert(decimal_value(digits) > u32::MAX);
                }
                assert(parse_u32_spec(s) is None);
            }
            return None;
        }
        value = next;
        i = i + 1;
    }
    proof {
        assert(chars@.subrange(start as int, to as int) == digits);
        assert forall|k: int| 0 <= k < digits.len() implies is_digit(#[trigger] digits[k]) by {
            assert(digits[k] == chars@[start + k]);
        }
    }
    Some(value as u32)
}

/// A number's value is at least the value of any of its digit prefixes.
proof fn lemma_decimal_prefix_bound(s: Seq<char>, n: int)
    requires
        0 <= n <= s.len(),
        forall|k: int| 0 <= k < s.len() ==> is_digit(#[trigger] s[k]),
    ensures
        decimal_value(s.subrange(0, n)) <= decimal_value(s),
    decreases s.len(),
{
    if n < s.len() {
        assert(s.drop_last().subrange(0, n) =~= s.subrange(0, n));
        assert forall|k: int| 0 <= k < s.drop_last().len() implies is_digit(#[trigger] s.drop_last()[k]) by {
            assert(s.drop_last()[k] == s[k]);
        }
        lemma_decimal_prefix_bound(s.drop_last(), n);
    } else {
        assert(s.subrange(0, n) =~= s);
    }
}

/// The character of decimal digit `d`.
pub open spec fn digit_char(d: nat) -> char {
    ((d + 0x30) as u32) as char
}

/// The decimal digits of `v`, most significant first, without leading zeros.
pub open spec fn decimal_chars(v: nat) -> Seq<char>
    decreases v,
{
    if v < 10 {
        seq![digit_char(v)]
    } else {
        decimal_chars(v / 10).push(digit_char(v % 10))
    }
}

/// Appends the decimal digits of `v` to `out`.
pub fn push_decimal(v: u32, out: &mut Vec<char>)
    ensures
        final(out)@ == old(out)@ + decimal_chars(v as nat),
    decreases v,
{
    if v >= 10 {
        push_decimal(v / 10, out);
    }
    let d: u32 = v % 10;
    let c: char = if d == 0 {
        '0'
    } else if d == 1 {
        '1'
    } else if d == 2 {
        '2'
    } else if d == 3 {
        '3'
    } else if d == 4 {
        '4'
    } else if d == 5 {
        '5'
    } else if d == 6 {
        '6'
    } else if d == 7 {
        '7'
    } else if d == 8 {
        '8'
    } else {
        '9'
    };
    proof {
        assert(c == digit_char(d as nat));
    }
    out.push(c);
    proof {
        if v >= 10 {
            assert(final(out)@ =~= old(out)@ + decimal_chars(v as nat));
        } else {
            assert(final(out)@ =~= old(out)@ + decimal_chars(v as nat));
        }
    }
}

/// Appends the decimal digits of `v` to `out`.
pub fn push_decimal_u64(v: u64, out: &mut Vec<char>)
    ensures
        final(out)@ == old(out)@ + decimal_chars(v as nat),
    decreases v,
{
    if v >= 10 {
        push_decimal_u64(v / 10, out);
    }
    let d: u32 = (v % 10) as u32;
    let mut digit: Vec<char> = Vec::new();
    push_decimal(d, &mut digit);
    proof {
        assert(decimal_chars(d as nat) == seq![digit_char(d as nat)]);
    }
    out.push(digit[0]);
    proof {
        assert(final(out)@ =~= old(out)@ + decimal_chars(v as nat));
    }
}

/// Appends the characters of `text` to `out`.
pub fn push_text(text: &str, out: &mut Vec<char>)
    ensures
        final(out)@ == old(out)@ + text@,
{
    let chars = chars_of(text);
    let ghost start = out@;
    let mut i: usize = 0;
    while i < chars.len()
        invariant
            i <= chars@.len(),
            out@ == start + chars@.take(i as int),
        decreases chars@.len() - i,
    {
        out.push(chars[i]);
        i = i + 1;
        assert(out@ =~= start + chars@.take(i as int));
    }
    assert(chars@.take(chars@.len() as int) =~= chars@);
}

/// The decimal digits of `v` are digits, none white space, and read back as `v`.
pub proof fn lemma_decimal_round_trip(v: nat)
    ensures
        decimal_chars(v).len() > 0,
        forall|i: int| 0 <= i < decimal_chars(v).len() ==> is_digit(#[trigger] decimal_chars(v)[i]),
        decimal_value(decimal_chars(v)) == v,
    decreases v,
{
    if v >= 10 {
        lemma_decimal_round_trip(v / 10);
        let d = decimal_chars(v);
        assert(d.drop_last() =~= decimal_chars(v / 10));
        assert forall|i: int| 0 <= i < d.len() implies is_digit(#[trigger] d[i]) by {
            if i < d.len() - 1 {
                assert(d[i] == decimal_chars(v / 10)[i]);
            }
        }
        assert(digit_value(digit_char(v % 10)) == v % 10);
        assert(d.last() == digit_char(v % 10));
        assert(decimal_value(d) == decimal_value(d.drop_last()) * 10 + digit_value(d.last()));
        assert(decimal_value(d) == (v / 10) * 10 + v % 10);
        assert((v / 10) * 10 + v % 10 == v);
    } else {
        assert(digit_value(digit_char(v)) == v);
        assert(decimal_chars(v).drop_last() =~= Seq::<char>::empty());
        assert(decimal_chars(v).last() == digit_char(v));
        assert(decimal_value(Seq::<char>::empty()) == 0);
        assert(decimal_value(decimal_chars(v)) == decimal_value(decimal_chars(v).drop_last()) * 10 + digit_value(
            decimal_chars(v).last(),
        ));
    }
}

/// Builds a `String` from its characters (`FromIterator<char>` for `String`).
/// The contract states that the string holds exactly those characters.
#[verifier::external_body]
pub(crate) fn chars_to_string(chars: &[char]) -> (s: String)
    ensures
        s@ == chars@,
{
    chars.iter().collect()
}

/// The characters of `value`.
pub(crate) fn chars_of(value: &str) -> (chars: Vec<char>)
    ensures
        chars@ == value@,
{
    let n = value.unicode_len();
    let mut chars: Vec<char> = Vec::new();
    let mut i: usize = 0;
    while i < n
        invariant
            i <= n,
            n == value@.len(),
            chars@ == value@.subrange(0, i as int),
        decreases n - i,
    {
        chars.push(value.get_char(i));
        i = i + 1;
        assert(chars@ =~= value@.subrange(0, i as int));
    }
    assert(value@.subrange(0, n as int) =~= value@);
    chars
}

} // verus!
