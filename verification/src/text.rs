//! Reading and writing text, character by character.

use vstd::prelude::*;

verus! {

/// [`String::push`] appends the character to the end of the text.
pub assume_specification[ String::push ](text: &mut String, c: char)
    ensures
        final(text)@ == old(text)@.push(c),
;

/// Whether `c` has the Unicode property `White_Space`.
pub open spec fn is_white_space(c: char) -> bool {
    ||| '\u{9}' <= c <= '\u{d}'
    ||| c == '\u{20}'
    ||| c == '\u{85}'
    ||| c == '\u{a0}'
    ||| c == '\u{1680}'
    ||| '\u{2000}' <= c <= '\u{200a}'
    ||| c == '\u{2028}'
    ||| c == '\u{2029}'
    ||| c == '\u{202f}'
    ||| c == '\u{205f}'
    ||| c == '\u{3000}'
}

/// [`char::is_whitespace`] tells whether the character has the Unicode property
/// `White_Space`.
pub assume_specification[ char::is_whitespace ](c: char) -> (white: bool)
    ensures
        white == is_white_space(c),
;

/// Whether `c` is a square bracket.
pub open spec fn is_bracket(c: char) -> bool {
    c == '[' || c == ']'
}

/// `text` without the characters at its front that satisfy `p`.
pub open spec fn without_front(text: Seq<char>, p: spec_fn(char) -> bool) -> Seq<char>
    decreases text.len(),
{
    if text.len() > 0 && p(text[0]) {
        without_front(text.drop_first(), p)
    } else {
        text
    }
}

/// `text` without the characters at its back that satisfy `p`.
pub open spec fn without_back(text: Seq<char>, p: spec_fn(char) -> bool) -> Seq<char>
    decreases text.len(),
{
    if text.len() > 0 && p(text.last()) {
        without_back(text.drop_last(), p)
    } else {
        text
    }
}

/// `text` without the white space at either end.
pub open spec fn trimmed(text: Seq<char>) -> Seq<char> {
    without_back(without_front(text, |c: char| is_white_space(c)), |c: char| is_white_space(c))
}

/// `text` without the square brackets at either end.
pub open spec fn unbracketed(text: Seq<char>) -> Seq<char> {
    without_back(without_front(text, |c: char| is_bracket(c)), |c: char| is_bracket(c))
}

/// `c` in upper case where it is an ASCII letter.
pub open spec fn ascii_upper(c: char) -> char {
    if 'a' <= c <= 'z' {
        (c as u32 - 32) as char
    } else {
        c
    }
}

/// The digit that stands for `n` in base sixteen.
pub open spec fn digit(n: int) -> char {
    seq!['0', '1', '2', '3', '4', '5', '6', '7', '8', '9', 'a', 'b', 'c', 'd', 'e', 'f'][n]
}

/// `n` in base ten.
pub open spec fn decimal(n: nat) -> Seq<char>
    decreases n,
{
    if n < 10 {
        seq![digit(n as int)]
    } else {
        decimal(n / 10).push(digit((n % 10) as int))
    }
}

/// The characters of `text`.
pub fn chars_of(text: &str) -> (chars: Vec<char>)
    ensures
        chars@ == text@,
{
    let mut chars: Vec<char> = Vec::new();
    for c in it: text.chars()
        invariant
            chars@ == text@.take(it.index() as int),
            it.seq() == text@,
    {
        chars.push(c);
    }
    chars
}

/// The text that `chars` from `from` up to `to` spell.
pub fn text_of(chars: &Vec<char>, from: usize, to: usize) -> (text: String)
    requires
        from <= to <= chars@.len(),
    ensures
        text@ == chars@.subrange(from as int, to as int),
{
    let mut text: String = String::new();
    let mut i: usize = from;
    while i < to
        invariant
            from <= i <= to <= chars@.len(),
            text@ == chars@.subrange(from as int, i as int),
        decreases to - i,
    {
        text.push(chars[i]);
        i += 1;
    }
    text
}

/// What dropping from the front does, one character at a time.
proof fn lemma_without_front_step(chars: Seq<char>, p: spec_fn(char) -> bool, from: int, to: int)
    requires
        0 <= from < to <= chars.len(),
    ensures
        p(chars[from]) ==> without_front(chars.subrange(from, to), p) == without_front(
            chars.subrange(from + 1, to),
            p,
        ),
        !p(chars[from]) ==> without_front(chars.subrange(from, to), p) == chars.subrange(from, to),
{
    assert(chars.subrange(from, to).drop_first() =~= chars.subrange(from + 1, to));
}

/// What dropping from the back does, one character at a time.
proof fn lemma_without_back_step(chars: Seq<char>, p: spec_fn(char) -> bool, from: int, to: int)
    requires
        0 <= from < to <= chars.len(),
    ensures
        p(chars[to - 1]) ==> without_back(chars.subrange(from, to), p) == without_back(
            chars.subrange(from, to - 1),
            p,
        ),
        !p(chars[to - 1]) ==> without_back(chars.subrange(from, to), p) == chars.subrange(from, to),
{
    assert(chars.subrange(from, to).drop_last() =~= chars.subrange(from, to - 1));
}

/// The bounds of what is left of `chars` from `from` up to `to` once the white
/// space at either end is dropped.
pub fn trim_bounds(chars: &Vec<char>, from: usize, to: usize) -> (bounds: (usize, usize))
    requires
        from <= to <= chars@.len(),
    ensures
        from <= bounds.0 <= bounds.1 <= to,
        chars@.subrange(bounds.0 as int, bounds.1 as int) == trimmed(
            chars@.subrange(from as int, to as int),
        ),
{
    let ghost p = |c: char| is_white_space(c);
    let ghost whole = chars@.subrange(from as int, to as int);
    let mut a: usize = from;
    while a < to && chars[a].is_whitespace()
        invariant
            from <= a <= to <= chars@.len(),
            p == (|c: char| is_white_space(c)),
            whole == chars@.subrange(from as int, to as int),
            without_front(whole, p) == without_front(chars@.subrange(a as int, to as int), p),
        decreases to - a,
    {
        proof {
            lemma_without_front_step(chars@, p, a as int, to as int);
        }
        a += 1;
    }
    proof {
        if a < to {
            lemma_without_front_step(chars@, p, a as int, to as int);
        }
    }
    let ghost front = chars@.subrange(a as int, to as int);
    assert(without_front(whole, p) == front);
    let mut b: usize = to;
    while b > a && chars[b - 1].is_whitespace()
        invariant
            from <= a <= b <= to <= chars@.len(),
            p == (|c: char| is_white_space(c)),
            without_back(front, p) == without_back(chars@.subrange(a as int, b as int), p),
        decreases b,
    {
        proof {
            lemma_without_back_step(chars@, p, a as int, b as int);
        }
        b -= 1;
    }
    proof {
        if b > a {
            lemma_without_back_step(chars@, p, a as int, b as int);
        }
    }
    (a, b)
}

/// The bounds of what is left of `chars` from `from` up to `to` once the square
/// brackets at either end are dropped.
pub fn unbracket_bounds(chars: &Vec<char>, from: usize, to: usize) -> (bounds: (usize, usize))
    requires
        from <= to <= chars@.len(),
    ensures
        from <= bounds.0 <= bounds.1 <= to,
        chars@.subrange(bounds.0 as int, bounds.1 as int) == unbracketed(
            chars@.subrange(from as int, to as int),
        ),
{
    let ghost p = |c: char| is_bracket(c);
    let ghost whole = chars@.subrange(from as int, to as int);
    let mut a: usize = from;
    while a < to && (chars[a] == '[' || chars[a] == ']')
        invariant
            from <= a <= to <= chars@.len(),
            p == (|c: char| is_bracket(c)),
            whole == chars@.subrange(from as int, to as int),
            without_front(whole, p) == without_front(chars@.subrange(a as int, to as int), p),
        decreases to - a,
    {
        proof {
            lemma_without_front_step(chars@, p, a as int, to as int);
        }
        a += 1;
    }
    proof {
        if a < to {
            lemma_without_front_step(chars@, p, a as int, to as int);
        }
    }
    let ghost front = chars@.subrange(a as int, to as int);
    assert(without_front(whole, p) == front);
    let mut b: usize = to;
    while b > a && (chars[b - 1] == '[' || chars[b - 1] == ']')
        invariant
            from <= a <= b <= to <= chars@.len(),
            p == (|c: char| is_bracket(c)),
            without_back(front, p) == without_back(chars@.subrange(a as int, b as int), p),
        decreases b,
    {
        proof {
            lemma_without_back_step(chars@, p, a as int, b as int);
        }
        b -= 1;
    }
    proof {
        if b > a {
            lemma_without_back_step(chars@, p, a as int, b as int);
        }
    }
    (a, b)
}

/// `c` in upper case where it is an ASCII letter.
pub fn to_ascii_upper(c: char) -> (upper: char)
    ensures
        upper == ascii_upper(c),
{
    if 'a' <= c && c <= 'z' {
        (c as u8 - 32) as char
    } else {
        c
    }
}

/// The digit that stands for `n` in base sixteen.
pub fn digit_char(n: u8) -> (c: char)
    requires
        n < 16,
    ensures
        c == digit(n as int),
{
    match n {
        0 => '0',
        1 => '1',
        2 => '2',
        3 => '3',
        4 => '4',
        5 => '5',
        6 => '6',
        7 => '7',
        8 => '8',
        9 => '9',
        10 => 'a',
        11 => 'b',
        12 => 'c',
        13 => 'd',
        14 => 'e',
        _ => 'f',
    }
}

/// Append `n` in base ten.
pub fn push_decimal(text: &mut String, n: u64)
    ensures
        final(text)@ == old(text)@ + decimal(n as nat),
    decreases n,
{
    if n >= 10 {
        push_decimal(text, n / 10);
    }
    text.push(digit_char((n % 10) as u8));
}

/// Digits tell numbers below sixteen apart.
pub proof fn lemma_digits_differ(m: int, n: int)
    requires
        0 <= m < 16,
        0 <= n < 16,
    ensures
        digit(m) == digit(n) <==> m == n,
        digit(m) != '.',
{
}

/// A number in base ten holds no dot, and something else.
pub proof fn lemma_decimal_has_no_dot(n: nat)
    ensures
        decimal(n).len() > 0,
        n >= 10 <==> decimal(n).len() > 1,
        forall|i: int| 0 <= i < decimal(n).len() ==> #[trigger] decimal(n)[i] != '.',
    decreases n,
{
    lemma_digits_differ((n % 10) as int, 0);
    if n >= 10 {
        lemma_decimal_has_no_dot(n / 10);
    }
}

/// Base ten tells numbers apart.
pub proof fn lemma_decimal_tells_apart(m: nat, n: nat)
    requires
        decimal(m) == decimal(n),
    ensures
        m == n,
    decreases m,
{
    lemma_decimal_has_no_dot(m);
    lemma_decimal_has_no_dot(n);
    lemma_digits_differ((m % 10) as int, (n % 10) as int);
    assert(decimal(m).last() == digit((m % 10) as int));
    assert(decimal(n).last() == digit((n % 10) as int));
    if m >= 10 {
        assert(decimal(m).drop_last() =~= decimal(m / 10));
        assert(decimal(n).drop_last() =~= decimal(n / 10));
        lemma_decimal_tells_apart(m / 10, n / 10);
    }
}

/// The value of a digit in base sixteen, by its place in the character set.
pub open spec fn digit_value(c: char) -> int {
    if '0' <= c <= '9' {
        c as int - '0' as int
    } else {
        c as int - 'a' as int + 10
    }
}

/// The number that `text` spells in base ten.
pub open spec fn number_of(text: Seq<char>) -> int
    decreases text.len(),
{
    if text.len() == 0 {
        0
    } else {
        10 * number_of(text.drop_last()) + digit_value(text.last())
    }
}

/// A digit stands for its value, in lower case.
pub proof fn law_digits_stand_for_their_values(n: int)
    requires
        0 <= n < 16,
    ensures
        digit_value(digit(n)) == n,
        n < 10 ==> '0' <= digit(n) <= '9',
        n >= 10 ==> 'a' <= digit(n) <= 'f',
{
}

/// A number written in base ten reads back: it has digits alone, the first of which is no
/// zero unless it is the only one, and they spell the number.
pub proof fn law_decimals_read_back(n: nat)
    ensures
        number_of(decimal(n)) == n,
        decimal(n).len() > 0,
        n > 0 ==> decimal(n)[0] != '0',
        n == 0 ==> decimal(n) == seq!['0'],
        forall|i: int| 0 <= i < decimal(n).len() ==> '0' <= #[trigger] decimal(n)[i] <= '9',
    decreases n,
{
    law_digits_stand_for_their_values((n % 10) as int);
    if n >= 10 {
        law_decimals_read_back(n / 10);
        assert(decimal(n).drop_last() =~= decimal(n / 10));
        assert(decimal(n)[0] == decimal(n / 10)[0]);
    } else {
        law_digits_stand_for_their_values(n as int);
        assert(decimal(n).drop_last() =~= Seq::<char>::empty());
        assert(number_of(Seq::<char>::empty()) == 0);
    }
}

/// Upper case is for the letters from a to z alone, and each becomes the capital that is
/// as far from A as it is from a.
pub proof fn law_only_small_letters_are_raised(c: char)
    ensures
        'a' <= c <= 'z' ==> 'A' <= ascii_upper(c) <= 'Z' && ascii_upper(c) as int - 'A' as int
            == c as int - 'a' as int,
        !('a' <= c <= 'z') ==> ascii_upper(c) == c,
{
}

} // verus!
