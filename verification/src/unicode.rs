//! Text and its encodings: UTF-8, UTF-16 and letter case.

use vstd::prelude::*;
use vstd::utf8::*;

use crate::text::chars_of;

verus! {

// ---------------------------------------------------------------------------
// UTF-8
// ---------------------------------------------------------------------------

/// What `String::from_utf8_lossy` makes of bytes: ill-formed parts become U+FFFD.
pub uninterp spec fn utf8_lossy(bytes: Seq<u8>) -> Seq<char>;

/// Calls `String::from_utf8_lossy`: the result depends on the bytes alone, and well-formed bytes
/// are decoded as they stand.
#[verifier::external_body]
pub(crate) fn text_lossy(bytes: &[u8]) -> (s: String)
    ensures
        s@ == utf8_lossy(bytes@),
        valid_utf8(bytes@) ==> s@ == decode_utf8(bytes@),
{
    String::from_utf8_lossy(bytes).to_string()
}

/// Calls `String::from_utf8`: a string exactly when the bytes are well-formed UTF-8, and then the
/// characters that they encode.
#[verifier::external_body]
pub(crate) fn text_strict(bytes: &[u8]) -> (s: Option<String>)
    ensures
        s is Some <==> valid_utf8(bytes@),
        s matches Some(t) ==> t@ == decode_utf8(bytes@),
{
    String::from_utf8(bytes.to_vec()).ok()
}

// ---------------------------------------------------------------------------
// Letter case
// ---------------------------------------------------------------------------

/// `str::to_uppercase`.
pub uninterp spec fn uppercase(s: Seq<char>) -> Seq<char>;

/// `str::to_lowercase`.
pub uninterp spec fn lowercase(s: Seq<char>) -> Seq<char>;

/// The upper-case form of an ASCII letter; every other character stays.
pub open spec fn ascii_upper(c: char) -> char {
    if 'a' <= c <= 'z' {
        (c as int - 32) as char
    } else {
        c
    }
}

/// The lower-case form of an ASCII letter; every other character stays.
pub open spec fn ascii_lower(c: char) -> char {
    if 'A' <= c <= 'Z' {
        (c as int + 32) as char
    } else {
        c
    }
}

/// Calls `str::to_uppercase`: the result depends on the text alone, and on ASCII text every letter
/// is turned into its capital.
#[verifier::external_body]
pub(crate) fn to_upper(s: &str) -> (r: String)
    ensures
        r@ == uppercase(s@),
        is_ascii_chars(s@) ==> r@ == s@.map_values(|c: char| ascii_upper(c)),
{
    s.to_uppercase()
}

/// Calls `str::to_lowercase`: the result depends on the text alone, and on ASCII text every
/// capital is turned into its small letter.
#[verifier::external_body]
pub(crate) fn to_lower(s: &str) -> (r: String)
    ensures
        r@ == lowercase(s@),
        is_ascii_chars(s@) ==> r@ == s@.map_values(|c: char| ascii_lower(c)),
{
    s.to_lowercase()
}

/// `char::to_ascii_uppercase`.
pub fn char_upper(c: char) -> (r: char)
    ensures
        r == ascii_upper(c),
{
    if 'a' <= c && c <= 'z' {
        (c as u8 - 32) as char
    } else {
        c
    }
}

// ---------------------------------------------------------------------------
// UTF-16
// ---------------------------------------------------------------------------

/// `char::from_u32` gives a character exactly for the Unicode scalar values, and then the
/// character with that number.
pub assume_specification[ char::from_u32 ](n: u32) -> (r: Option<char>)
    ensures
        r is Some <==> (n <= 0xd7ff || 0xe000 <= n <= 0x10ffff),
        r matches Some(c) ==> c as u32 == n,
;

/// The one or two UTF-16 units of a character.
pub open spec fn units(c: char) -> Seq<u16> {
    let n = c as int;
    if n < 0x10000 {
        seq![n as u16]
    } else {
        seq![(0xd800 + (n - 0x10000) / 0x400) as u16, (0xdc00 + (n - 0x10000) % 0x400) as u16]
    }
}

/// A text in UTF-16.
pub open spec fn utf16(s: Seq<char>) -> Seq<u16>
    decreases s.len(),
{
    if s.len() == 0 {
        Seq::<u16>::empty()
    } else {
        utf16(s.drop_last()) + units(s.last())
    }
}

/// The text that UTF-16 units write; a surrogate without its partner becomes U+FFFD.
pub open spec fn utf16_lossy(v: Seq<u16>) -> Seq<char>
    decreases v.len(),
{
    if v.len() == 0 {
        Seq::<char>::empty()
    } else if v[0] < 0xd800 || 0xdfff < v[0] {
        seq![v[0] as char] + utf16_lossy(v.skip(1))
    } else if v[0] < 0xdc00 && v.len() >= 2 && 0xdc00 <= v[1] <= 0xdfff {
        seq![(0x10000 + (v[0] - 0xd800) * 0x400 + (v[1] - 0xdc00)) as char] + utf16_lossy(v.skip(2))
    } else {
        seq!['\u{fffd}'] + utf16_lossy(v.skip(1))
    }
}

/// A text in UTF-16 with a zero behind it, as the window system takes strings.
pub fn wide(s: &str) -> (v: Vec<u16>)
    ensures
        v@ == utf16(s@).push(0),
{
    let chars: Vec<char> = chars_of(s);
    let mut v: Vec<u16> = Vec::new();
    let mut i: usize = 0;
    assert(chars@.take(0) =~= Seq::<char>::empty());
    while i < chars.len()
        invariant
            i <= chars.len(),
            v@ == utf16(chars@.take(i as int)),
        decreases chars.len() - i,
    {
        let ghost before = v@;
        assert(chars@.take(i + 1).drop_last() =~= chars@.take(i as int));
        let c: char = chars[i];
        let n: u32 = c as u32;
        proof {
            char_is_scalar(c);
            char_u32_cast(c, n);
        }
        assert(n == c as int);
        if n < 0x10000 {
            v.push(n as u16);
        } else {
            v.push((0xd800 + (n - 0x10000) / 0x400) as u16);
            v.push((0xdc00 + (n - 0x10000) % 0x400) as u16);
        }
        assert(v@ =~= before + units(chars@[i as int]));
        i += 1;
    }
    assert(chars@.take(chars@.len() as int) =~= chars@);
    v.push(0);
    v
}

/// The text that UTF-16 units write, as `String::from_utf16_lossy` reads them.
pub fn wide_text(v: &[u16]) -> (s: String)
    ensures
        s@ == utf16_lossy(v@),
{
    let mut s: String = String::new();
    let mut i: usize = 0;
    assert(v@.skip(0) =~= v@);
    while i < v.len()
        invariant
            i <= v.len(),
            s@ + utf16_lossy(v@.skip(i as int)) == utf16_lossy(v@),
        decreases v.len() - i,
    {
        let ghost before = s@;
        let ghost rest = v@.skip(i as int);
        let a: u16 = v[i];
        assert(rest[0] == a);
        assert(rest.skip(1) =~= v@.skip(i + 1));
        let mut step: usize = 1;
        let mut n: u32 = 0xfffd;
        if a < 0xd800 || 0xdfff < a {
            n = a as u32;
        } else if a < 0xdc00 && i + 1 < v.len() && 0xdc00 <= v[i + 1] && v[i + 1] <= 0xdfff {
            assert(rest[1] == v@[i + 1]);
            assert(rest.skip(2) =~= v@.skip(i + 2));
            n = 0x10000 + (a as u32 - 0xd800) * 0x400 + (v[i + 1] as u32 - 0xdc00);
            step = 2;
        }
        let c: char = match char::from_u32(n) {
            Some(c) => c,
            None => '\u{fffd}',
        };
        proof {
            char_is_scalar(c);
            char_u32_cast(c, n);
        }
        s.push(c);
        assert(utf16_lossy(rest) =~= seq![c] + utf16_lossy(v@.skip(i + step)));
        assert(s@ + utf16_lossy(v@.skip(i + step)) =~= before + utf16_lossy(rest));
        i += step;
    }
    assert(s@ + utf16_lossy(v@.skip(v@.len() as int)) =~= s@);
    s
}

/// A text written in UTF-16 is read back as it was.
pub proof fn law_utf16_round_trip(s: Seq<char>)
    ensures
        utf16_lossy(utf16(s)) == s,
{
    lemma_utf16_tail(s, Seq::<u16>::empty());
    assert(utf16(s) + Seq::<u16>::empty() =~= utf16(s));
    assert(s + Seq::<char>::empty() =~= s);
}

/// What stands behind a text in UTF-16 does not change how the text is read.
proof fn lemma_utf16_tail(s: Seq<char>, tail: Seq<u16>)
    ensures
        utf16_lossy(utf16(s) + tail) == s + utf16_lossy(tail),
    decreases s.len(),
{
    if s.len() == 0 {
        assert(utf16(s) + tail =~= tail);
        assert(s + utf16_lossy(tail) =~= utf16_lossy(tail));
    } else {
        let front = s.drop_last();
        let c = s.last();
        let more = units(c) + tail;
        lemma_utf16_tail(front, more);
        assert(utf16(s) + tail =~= utf16(front) + more);
        assert(utf16_lossy(more) =~= seq![c] + utf16_lossy(tail)) by {
            char_is_scalar(c);
            char_u32_cast(c, c as u32);
            if (c as int) < 0x10000 {
                assert(more.skip(1) =~= tail);
            } else {
                assert(more.skip(2) =~= tail);
            }
        }
        assert(front + (seq![c] + utf16_lossy(tail)) =~= s + utf16_lossy(tail));
    }
}

/// A character is one unit, or else a high and a low surrogate that make it up; no unit of a character
/// that is one unit is a surrogate.
pub proof fn law_units(c: char)
    ensures
        ({
            let u = units(c);
            let n = c as int;
            &&& n < 0x10000 ==> u.len() == 1 && u[0] == n && !(0xd800 <= u[0] < 0xe000)
            &&& n >= 0x10000 ==> u.len() == 2 && 0xd800 <= u[0] < 0xdc00 && 0xdc00 <= u[1] < 0xe000 && n
                == 0x10000 + (u[0] - 0xd800) * 0x400 + (u[1] - 0xdc00)
        }),
{
}

/// A surrogate without its partner is replaced, and what stands behind it is read on.
pub proof fn law_lone_surrogate_is_replaced(u: u16, rest: Seq<u16>)
    requires
        0xd800 <= u < 0xe000,
        u < 0xdc00 ==> rest.len() == 0 || !(0xdc00 <= rest[0] < 0xe000),
    ensures
        utf16_lossy(seq![u] + rest) == seq!['\u{fffd}'] + utf16_lossy(rest),
{
    let all = seq![u] + rest;
    assert(all.skip(1) =~= rest);
    assert(rest.len() > 0 ==> all[1] == rest[0]);
}

/// Letters change by the distance between capital and small letters, and nothing else changes.
pub proof fn law_ascii_letters(c: char)
    ensures
        'a' <= c <= 'z' ==> ascii_upper(c) as int == c as int - 32 && ascii_lower(c) == c,
        'A' <= c <= 'Z' ==> ascii_lower(c) as int == c as int + 32 && ascii_upper(c) == c,
        !('a' <= c <= 'z') && !('A' <= c <= 'Z') ==> ascii_upper(c) == c && ascii_lower(c) == c,
{
}

/// The units of a text are those of its parts, one behind the other.
pub proof fn law_utf16_goes_on(a: Seq<char>, b: Seq<char>, c: char)
    ensures
        utf16(a + b) == utf16(a) + utf16(b),
        utf16(seq![c]) == units(c),
    decreases b.len(),
{
    assert(seq![c].drop_last() =~= Seq::<char>::empty());
    reveal_with_fuel(utf16, 2);
    assert(utf16(seq![c]) =~= units(c));
    if b.len() == 0 {
        assert(a + b =~= a);
        assert(utf16(a) + utf16(b) =~= utf16(a));
    } else {
        law_utf16_goes_on(a, b.drop_last(), c);
        assert((a + b).drop_last() =~= a + b.drop_last());
        assert(utf16(a + b) =~= utf16(a) + utf16(b));
    }
}

} // verus!
