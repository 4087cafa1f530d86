//! Numbers as decimal text.

use vstd::prelude::*;

use crate::text::{chars_of, string_of};

verus! {

/// The character for the digit `d`.
pub open spec fn digit(d: nat) -> char
    recommends
        d < 10,
{
    (48 + d) as char
}

/// `n` in decimal, without leading zeros.
pub open spec fn decimal(n: nat) -> Seq<char>
    decreases n,
{
    if n < 10 {
        seq![digit(n)]
    } else {
        decimal(n / 10).push(digit(n % 10))
    }
}

/// Whether `c` is one of the ten ASCII digits.
pub open spec fn is_digit(c: char) -> bool {
    '0' <= c <= '9'
}

/// The number that a run of digits writes.
pub open spec fn value(s: Seq<char>) -> nat
    decreases s.len(),
{
    if s.len() == 0 {
        0
    } else {
        value(s.drop_last()) * 10 + (s.last() as nat - 48) as nat
    }
}

fn digit_char(d: u8) -> (c: char)
    requires
        d < 10,
    ensures
        c == digit(d as nat),
{
    (48 + d) as char
}

/// `n` in decimal.
pub fn decimal_chars(n: u64) -> (v: Vec<char>)
    ensures
        v@ == decimal(n as nat),
    decreases n,
{
    if n < 10 {
        let mut v: Vec<char> = Vec::new();
        v.push(digit_char(n as u8));
        assert(v@ =~= decimal(n as nat));
        v
    } else {
        let mut v: Vec<char> = decimal_chars(n / 10);
        v.push(digit_char((n % 10) as u8));
        v
    }
}

/// `n` in decimal, as `to_string` writes an unsigned number.
pub fn decimal_string(n: u64) -> (s: String)
    ensures
        s@ == decimal(n as nat),
{
    let v: Vec<char> = decimal_chars(n);
    string_of(v.as_slice())
}

/// `s` with spaces in front, so that it is at least `width` characters long.
pub open spec fn pad_left(s: Seq<char>, width: nat) -> Seq<char> {
    if s.len() < width {
        Seq::new((width - s.len()) as nat, |i: int| ' ') + s
    } else {
        s
    }
}

/// `n` in decimal, right-aligned in a field of `width` characters.
pub fn decimal_padded(n: u64, width: usize) -> (s: String)
    ensures
        s@ == pad_left(decimal(n as nat), width as nat),
{
    let v: Vec<char> = decimal_chars(n);
    let mut out: Vec<char> = Vec::new();
    if v.len() < width {
        let fill: usize = width - v.len();
        while out.len() < fill
            invariant
                out.len() <= fill,
                out@ =~= Seq::new(out@.len(), |i: int| ' '),
            decreases fill - out.len(),
        {
            out.push(' ');
        }
    }
    crate::text::append_chars(&mut out, &v);
    assert(out@ =~= pad_left(decimal(n as nat), width as nat));
    string_of(out.as_slice())
}

/// The digits of `s` after an optional plus sign.
pub open spec fn unsigned_digits(s: Seq<char>) -> Seq<char> {
    if s.len() > 0 && s[0] == '+' {
        s.skip(1)
    } else {
        s
    }
}

/// The 16-bit number that `s` writes, as `parse` reads it: an optional plus sign, then one or more
/// digits.
pub open spec fn number(s: Seq<char>) -> Option<u16> {
    let d = unsigned_digits(s);
    if d.len() > 0 && (forall|i: int| 0 <= i < d.len() ==> is_digit(#[trigger] d[i])) && value(d)
        <= 65535 {
        Some(value(d) as u16)
    } else {
        None
    }
}

/// Dropping digits at the end does not make a number larger.
proof fn lemma_value_grows(s: Seq<char>, n: int)
    requires
        0 <= n <= s.len(),
        forall|i: int| 0 <= i < s.len() ==> is_digit(#[trigger] s[i]),
    ensures
        value(s.take(n)) <= value(s),
    decreases s.len() - n,
{
    if n < s.len() {
        lemma_value_grows(s, n + 1);
        assert(s.take(n + 1).drop_last() =~= s.take(n));
        assert(value(s.take(n + 1)) >= value(s.take(n))) by {
            assert(s.take(n + 1).last() == s[n]);
        }
    } else {
        assert(s.take(n) =~= s);
    }
}

/// Reads a 16-bit number.
pub fn parse_number(s: &str) -> (r: Option<u16>)
    ensures
        r == number(s@),
{
    let v: Vec<char> = chars_of(s);
    let from: usize = if v.len() > 0 && v[0] == '+' {
        1
    } else {
        0
    };
    let ghost d = unsigned_digits(s@);
    assert(d =~= v@.skip(from as int));
    if from == v.len() {
        return None;
    }
    let mut n: u32 = 0;
    let mut i: usize = from;
    assert(d.take(0) =~= Seq::<char>::empty());
    while i < v.len()
        invariant
            from <= i <= v.len(),
            v@ == s@,
            d == unsigned_digits(s@),
            d == v@.skip(from as int),
            d.len() > 0,
            n <= 65535,
            n == value(d.take(i - from)),
            forall|j: int| 0 <= j < i - from ==> is_digit(#[trigger] d[j]),
        decreases v.len() - i,
    {
        let c: char = v[i];
        assert(c == d[i - from]);
        if c < '0' || '9' < c {
            assert(!is_digit(d[i - from]));
            return None;
        }
        assert(d.take(i - from + 1).drop_last() =~= d.take(i - from));
        n = n * 10 + (c as u32 - 48);
        assert(n == value(d.take(i - from + 1)));
        if n > 65535 {
            proof {
                if forall|j: int| 0 <= j < d.len() ==> is_digit(#[trigger] d[j]) {
                    lemma_value_grows(d, i - from + 1);
                }
            }
            return None;
        }
        i += 1;
    }
    assert(d.take(d.len() as int) =~= d);
    Some(n as u16)
}

/// What is written in decimal is read back: `number` undoes `decimal` on 16-bit numbers.
pub proof fn law_number_of_decimal(n: u16)
    ensures
        number(decimal(n as nat)) == Some(n),
{
    lemma_decimal(n as nat);
    let d = decimal(n as nat);
    assert(is_digit(d[0]));
    assert(unsigned_digits(d) == d);
}

/// `decimal` writes digits only, and `value` reads them back.
pub proof fn lemma_decimal(n: nat)
    ensures
        decimal(n).len() > 0,
        forall|i: int| 0 <= i < decimal(n).len() ==> is_digit(#[trigger] decimal(n)[i]),
        value(decimal(n)) == n,
    decreases n,
{
    if n < 10 {
        assert(decimal(n).drop_last() =~= Seq::<char>::empty());
        assert(value(decimal(n).drop_last()) == 0);
        assert(decimal(n).last() == digit(n));
        assert(digit(n) as nat == 48 + n);
    } else {
        lemma_decimal(n / 10);
        assert(decimal(n).drop_last() =~= decimal(n / 10));
        assert(digit(n % 10) as nat == 48 + n % 10);
    }
}

/// Whether a text is made of digits only.
pub open spec fn all_digits(s: Seq<char>) -> bool {
    forall|i: int| 0 <= i < s.len() ==> is_digit(#[trigger] s[i])
}

/// Whether a text writes the number `n` in decimal: digits only, no zero in front but for 0 itself,
/// and the number that the digits stand for.
pub open spec fn writes(s: Seq<char>, n: nat) -> bool {
    &&& s.len() > 0
    &&& all_digits(s)
    &&& s.len() > 1 ==> s[0] != '0'
    &&& value(s) == n
}

/// What `decimal` gives writes the number.
pub proof fn law_decimal_writes(n: nat)
    ensures
        writes(decimal(n), n),
    decreases n,
{
    lemma_decimal(n);
    if n >= 10 {
        law_decimal_writes(n / 10);
        let front = decimal(n / 10);
        assert(decimal(n)[0] == front[0]);
        if front.len() == 1 {
            assert(front.drop_last() =~= Seq::<char>::empty());
            assert(value(front.drop_last()) == 0);
            assert(is_digit(front[0]));
            assert(value(front) == front[0] as int - 48);
            if front[0] == '0' {
                assert(n / 10 == 0);
            }
        }
    }
}

/// The place value of a digit: each further digit counts the others ten times.
pub proof fn law_place_value(s: Seq<char>, c: char)
    requires
        is_digit(c),
    ensures
        value(s.push(c)) == 10 * value(s) + (c as int - '0' as int),
        value(Seq::<char>::empty()) == 0,
{
    assert(s.push(c).drop_last() =~= s);
}

/// A number is read from one or more digits with or without a plus sign in front, if it fits in 16
/// bits; from anything else none is.
pub proof fn law_number(d: Seq<char>)
    ensures
        d.len() > 0 && all_digits(d) ==> {
            &&& number(d) == number(seq!['+'] + d)
            &&& value(d) <= 65535 ==> number(d) == Some(value(d) as u16)
            &&& value(d) > 65535 ==> number(d) is None
        },
        d.len() == 0 ==> number(d) is None && number(seq!['+'] + d) is None,
        !all_digits(d) ==> number(seq!['+'] + d) is None && (d[0] != '+' ==> number(d) is None),
{
    let signed = seq!['+'] + d;
    assert(signed.skip(1) =~= d);
    assert(unsigned_digits(signed) == d);
    if d.len() > 0 && all_digits(d) {
        assert(is_digit(d[0]));
        assert(unsigned_digits(d) == d);
    }
}

/// A text that is padded ends in the text, has only spaces in front of it, and has the width unless
/// the text is longer.
pub proof fn law_pad_left(s: Seq<char>, width: nat)
    ensures
        ({
            let p = pad_left(s, width);
            let fill = p.len() - s.len();
            &&& p.len() == if s.len() < width {
                width
            } else {
                s.len()
            }
            &&& p.skip(fill) == s
            &&& forall|i: int| 0 <= i < fill ==> p[i] == ' '
        }),
{
    let p = pad_left(s, width);
    assert(p.skip(p.len() - s.len()) =~= s);
}

/// Whether a text is `head`, the number `n` in digits, and `tail`.
pub open spec fn framed(t: Seq<char>, head: Seq<char>, n: nat, tail: Seq<char>) -> bool {
    &&& t.len() >= head.len() + tail.len()
    &&& t.take(head.len() as int) == head
    &&& t.skip(t.len() - tail.len()) == tail
    &&& writes(t.subrange(head.len() as int, t.len() - tail.len()), n)
}

/// A number between two texts is framed by them.
pub proof fn lemma_framed(head: Seq<char>, n: nat, tail: Seq<char>)
    ensures
        framed(head + decimal(n) + tail, head, n, tail),
{
    law_decimal_writes(n);
    let t = head + decimal(n) + tail;
    assert(t.take(head.len() as int) =~= head);
    assert(t.skip(t.len() - tail.len()) =~= tail);
    assert(t.subrange(head.len() as int, t.len() - tail.len()) =~= decimal(n));
}

/// A number below a power of ten has no more digits than that power has noughts.
pub proof fn law_decimal_length(n: nat, k: nat)
    requires
        k > 0,
        n < vstd::arithmetic::power::pow(10, k),
    ensures
        decimal(n).len() <= k,
    decreases k,
{
    reveal(vstd::arithmetic::power::pow);
    if n >= 10 {
        if k == 1 {
            assert(vstd::arithmetic::power::pow(10, 0) == 1);
            assert(false);
        }
        assert(vstd::arithmetic::power::pow(10, k) == 10 * vstd::arithmetic::power::pow(
            10,
            (k - 1) as nat,
        ));
        law_decimal_length(n / 10, (k - 1) as nat);
    }
}

} // verus!
