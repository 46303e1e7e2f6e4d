//! Text as sequences of characters.

use vstd::prelude::*;

verus! {

/// `String::push` of std appends the character to the end of the string and
/// leaves the characters before it as they were.
pub assume_specification[ String::push ](s: &mut String, c: char)
    ensures
        final(s)@ == old(s)@.push(c),
;

/// The characters of `s`, in order.
pub fn chars_of(s: &str) -> (v: Vec<char>)
    ensures
        v@ == s@,
{
    let mut v: Vec<char> = Vec::new();
    for c in it: s.chars()
        invariant
            v@ == it.seq().take(it.index() as int),
    {
        v.push(c);
    }
    v
}

/// The characters of `s` from index `from` up to, not including, `to`.
pub fn text_of(s: &Vec<char>, from: usize, to: usize) -> (t: String)
    requires
        from <= to <= s.len(),
    ensures
        t@ == s@.subrange(from as int, to as int),
{
    let mut t = String::new();
    let mut i: usize = from;
    while i < to
        invariant
            from <= i <= to <= s.len(),
            t@ == s@.subrange(from as int, i as int),
        decreases to - i,
    {
        t.push(s[i]);
        i += 1;
    }
    t
}

/// The character that writes the digit `d`.
pub open spec fn digit(d: nat) -> char {
    if d == 0 {
        '0'
    } else if d == 1 {
        '1'
    } else if d == 2 {
        '2'
    } else if d == 3 {
        '3'
    } else if d == 4 {
        '4'
    } else if d == 5 {
        '5'
    } else if d == 6 {
        '6'
    } else if d == 7 {
        '7'
    } else if d == 8 {
        '8'
    } else {
        '9'
    }
}

/// The decimal digits of `n`, most significant first, without leading zeros.
pub open spec fn digits(n: nat) -> Seq<char>
    decreases n,
{
    if n < 10 {
        seq![digit(n)]
    } else {
        digits(n / 10).push(digit(n % 10))
    }
}

/// The decimal text of `n`: a minus sign where `n` is negative, then the
/// digits of its absolute value.
pub open spec fn decimal_text(n: int) -> Seq<char> {
    if n < 0 {
        seq!['-'] + digits((-n) as nat)
    } else {
        digits(n as nat)
    }
}

fn digit_char(d: u64) -> (c: char)
    requires
        d < 10,
    ensures
        c == digit(d as nat),
{
    if d == 0 {
        '0'
    } else if d == 1 {
        '1'
    } else if d == 2 {
        '2'
    } else if d == 3 {
        '3'
    } else if d == 4 {
        '4'
    } else if d == 5 {
        '5'
    } else if d == 6 {
        '6'
    } else if d == 7 {
        '7'
    } else if d == 8 {
        '8'
    } else {
        '9'
    }
}

fn push_digits(s: &mut String, n: u64)
    ensures
        final(s)@ == old(s)@ + digits(n as nat),
    decreases n,
{
    if n >= 10 {
        push_digits(s, n / 10);
    }
    s.push(digit_char(n % 10));
}

/// Writes `n` in decimal.
pub fn decimal(n: i32) -> (t: String)
    ensures
        t@ == decimal_text(n as int),
{
    let mut t = String::new();
    let wide: i64 = n as i64;
    if wide < 0 {
        t.push('-');
        push_digits(&mut t, (-wide) as u64);
    } else {
        push_digits(&mut t, wide as u64);
    }
    t
}

/// Whether `c` may occur in a decimal text.
pub open spec fn is_decimal_char(c: char) -> bool {
    c == '-' || ('0' <= c && c <= '9')
}

proof fn lemma_digits_are_decimal(n: nat)
    ensures
        digits(n).len() >= 1,
        forall|k: int| 0 <= k < digits(n).len() ==> is_decimal_char(#[trigger] digits(n)[k]),
    decreases n,
{
    if n >= 10 {
        lemma_digits_are_decimal(n / 10);
    }
}

/// A decimal text is not empty and holds nothing but digits and the minus sign.
pub proof fn lemma_decimal_text_chars(n: int)
    ensures
        decimal_text(n).len() >= 1,
        forall|k: int|
            0 <= k < decimal_text(n).len() ==> is_decimal_char(#[trigger] decimal_text(n)[k]),
{
    if n < 0 {
        lemma_digits_are_decimal((-n) as nat);
    } else {
        lemma_digits_are_decimal(n as nat);
    }
}

} // verus!
