//! Text as a sequence of characters: white space, trimming, splitting and joining.
//!
//! Every function here is stated over `Seq<char>`, the view of `str` and `String`.

use vstd::prelude::*;

verus! {

/// `String::push` appends one character at the end.
pub assume_specification[ String::push ](s: &mut String, c: char)
    ensures
        final(s)@ == old(s)@.push(c),
;

/// The views of a list of strings.
pub open spec fn texts(v: Seq<String>) -> Seq<Seq<char>> {
    v.map_values(|s: String| s@)
}

/// The views of a list of character runs.
pub open spec fn pieces(v: Seq<Vec<char>>) -> Seq<Seq<char>> {
    v.map_values(|p: Vec<char>| p@)
}

/// The characters of `s`, one by one.
pub fn chars_of(s: &str) -> (v: Vec<char>)
    ensures
        v@ == s@,
{
    let mut v: Vec<char> = Vec::new();
    for c in it: s.chars()
        invariant
            it.seq() == s@,
            v@ == s@.take(it.index()),
    {
        assert(s@.take(it.index() + 1) =~= s@.take(it.index()).push(c));
        v.push(c);
    }
    assert(s@.take(s@.len() as int) =~= s@);
    v
}

/// The string that a run of characters spells.
pub fn string_of(v: &[char]) -> (s: String)
    ensures
        s@ == v@,
{
    let mut s: String = String::new();
    let mut i: usize = 0;
    while i < v.len()
        invariant
            i <= v.len(),
            s@ == v@.take(i as int),
        decreases v.len() - i,
    {
        assert(v@.take(i + 1) =~= v@.take(i as int).push(v@[i as int]));
        s.push(v[i]);
        i += 1;
    }
    assert(v@.take(v@.len() as int) =~= v@);
    s
}

/// `s` from position `from` on, up to and not with position `to`.
pub fn part_of(v: &Vec<char>, from: usize, to: usize) -> (s: String)
    requires
        from <= to <= v.len(),
    ensures
        s@ == v@.subrange(from as int, to as int),
{
    string_of(&v.as_slice()[from..to])
}

/// Whether two strings hold the same characters.
pub fn same_text(a: &str, b: &str) -> (r: bool)
    ensures
        r == (a@ == b@),
{
    a.to_owned() == b.to_owned()
}

// ---------------------------------------------------------------------------
// White space and trimming
// ---------------------------------------------------------------------------

/// The characters with the Unicode property White_Space.
pub open spec fn is_space(c: char) -> bool {
    ||| '\u{9}' <= c <= '\u{d}'
    ||| c == ' '
    ||| c == '\u{85}'
    ||| c == '\u{a0}'
    ||| c == '\u{1680}'
    ||| '\u{2000}' <= c <= '\u{200a}'
    ||| c == '\u{2028}'
    ||| c == '\u{2029}'
    ||| c == '\u{202f}'
    ||| c == '\u{205f}'
    ||| c == '\u{3000}'
}

/// Whether `c` is white space.
pub fn space(c: char) -> (r: bool)
    ensures
        r == is_space(c),
{
    ('\u{9}' <= c && c <= '\u{d}') || c == ' ' || c == '\u{85}' || c == '\u{a0}' || c == '\u{1680}'
        || ('\u{2000}' <= c && c <= '\u{200a}') || c == '\u{2028}' || c == '\u{2029}'
        || c == '\u{202f}' || c == '\u{205f}' || c == '\u{3000}'
}

/// `s` without the white space that it begins with.
pub open spec fn trim_start(s: Seq<char>) -> Seq<char>
    decreases s.len(),
{
    if s.len() > 0 && is_space(s[0]) {
        trim_start(s.skip(1))
    } else {
        s
    }
}

/// How long `trim_start` can leave a text.
pub proof fn lemma_trim_start_len(s: Seq<char>)
    ensures
        trim_start(s).len() <= s.len(),
    decreases s.len(),
{
    if s.len() > 0 && is_space(s[0]) {
        lemma_trim_start_len(s.skip(1));
    }
}

/// `s` without the white space that it ends in.
pub open spec fn trim_end(s: Seq<char>) -> Seq<char>
    decreases s.len(),
{
    if s.len() > 0 && is_space(s.last()) {
        trim_end(s.drop_last())
    } else {
        s
    }
}

/// `s` without the white space at both ends.
pub open spec fn trim(s: Seq<char>) -> Seq<char> {
    trim_end(trim_start(s))
}

/// `s` without the characters `c` that it begins with.
pub open spec fn strip_start(s: Seq<char>, c: char) -> Seq<char>
    decreases s.len(),
{
    if s.len() > 0 && s[0] == c {
        strip_start(s.skip(1), c)
    } else {
        s
    }
}

/// `s` without the characters `c` that it ends in.
pub open spec fn strip_end(s: Seq<char>, c: char) -> Seq<char>
    decreases s.len(),
{
    if s.len() > 0 && s.last() == c {
        strip_end(s.drop_last(), c)
    } else {
        s
    }
}

/// How many characters of white space `v` begins with.
fn leading_spaces(v: &Vec<char>) -> (n: usize)
    ensures
        n <= v.len(),
        trim_start(v@) == v@.skip(n as int),
{
    let mut n: usize = 0;
    assert(v@.skip(0) =~= v@);
    while n < v.len() && space(v[n])
        invariant
            n <= v.len(),
            trim_start(v@) == trim_start(v@.skip(n as int)),
        decreases v.len() - n,
    {
        assert(v@.skip(n as int).skip(1) =~= v@.skip(n + 1));
        n += 1;
    }
    n
}

/// Where the white space at the end of `v` begins, when nothing before `from` counts.
fn trailing_spaces(v: &Vec<char>, from: usize) -> (n: usize)
    requires
        from <= v.len(),
    ensures
        from <= n <= v.len(),
        trim_end(v@.skip(from as int)) == v@.subrange(from as int, n as int),
{
    let mut n: usize = v.len();
    assert(v@.skip(from as int) =~= v@.subrange(from as int, n as int));
    while from < n && space(v[n - 1])
        invariant
            from <= n <= v.len(),
            trim_end(v@.skip(from as int)) == trim_end(v@.subrange(from as int, n as int)),
        decreases n,
    {
        assert(v@.subrange(from as int, n as int).drop_last() =~= v@.subrange(
            from as int,
            n - 1,
        ));
        n -= 1;
    }
    n
}

/// `str::trim_start`.
pub fn trimmed_start(s: &str) -> (r: String)
    ensures
        r@ == trim_start(s@),
{
    let v: Vec<char> = chars_of(s);
    let n: usize = leading_spaces(&v);
    let r: String = part_of(&v, n, v.len());
    assert(r@ =~= v@.skip(n as int));
    r
}

/// `str::trim_end`.
pub fn trimmed_end(s: &str) -> (r: String)
    ensures
        r@ == trim_end(s@),
{
    let v: Vec<char> = chars_of(s);
    let n: usize = trailing_spaces(&v, 0);
    assert(v@.skip(0) =~= v@);
    part_of(&v, 0, n)
}

/// `str::trim`.
pub fn trimmed(s: &str) -> (r: String)
    ensures
        r@ == trim(s@),
{
    let v: Vec<char> = chars_of(s);
    let from: usize = leading_spaces(&v);
    let to: usize = trailing_spaces(&v, from);
    part_of(&v, from, to)
}

/// `str::trim_start_matches` with one character.
pub fn stripped_start(s: &str, c: char) -> (r: String)
    ensures
        r@ == strip_start(s@, c),
{
    let v: Vec<char> = chars_of(s);
    let mut n: usize = 0;
    assert(v@.skip(0) =~= v@);
    while n < v.len() && v[n] == c
        invariant
            n <= v.len(),
            strip_start(v@, c) == strip_start(v@.skip(n as int), c),
        decreases v.len() - n,
    {
        assert(v@.skip(n as int).skip(1) =~= v@.skip(n + 1));
        n += 1;
    }
    let r: String = part_of(&v, n, v.len());
    assert(r@ =~= v@.skip(n as int));
    r
}

/// `str::trim_end_matches` with one character.
pub fn stripped_end(s: &str, c: char) -> (r: String)
    ensures
        r@ == strip_end(s@, c),
{
    let v: Vec<char> = chars_of(s);
    let mut n: usize = v.len();
    assert(v@.take(n as int) =~= v@);
    while 0 < n && v[n - 1] == c
        invariant
            n <= v.len(),
            strip_end(v@, c) == strip_end(v@.take(n as int), c),
        decreases n,
    {
        assert(v@.take(n as int).drop_last() =~= v@.take(n - 1));
        n -= 1;
    }
    let r: String = part_of(&v, 0, n);
    assert(r@ =~= v@.take(n as int));
    r
}

/// `s` with every `from` turned into `to`.
pub open spec fn replace(s: Seq<char>, from: char, to: char) -> Seq<char> {
    Seq::new(
        s.len(),
        |i: int|
            if s[i] == from {
                to
            } else {
                s[i]
            },
    )
}

/// `str::replace` of one character by another.
pub fn replaced(s: &str, from: char, to: char) -> (r: String)
    ensures
        r@ == replace(s@, from, to),
{
    let v: Vec<char> = chars_of(s);
    let mut r: String = String::new();
    let mut i: usize = 0;
    while i < v.len()
        invariant
            i <= v.len(),
            v@ == s@,
            r@ =~= replace(s@, from, to).take(i as int),
        decreases v.len() - i,
    {
        if v[i] == from {
            r.push(to);
        } else {
            r.push(v[i]);
        }
        i += 1;
    }
    assert(r@ =~= replace(s@, from, to));
    r
}

// ---------------------------------------------------------------------------
// Finding, splitting and joining
// ---------------------------------------------------------------------------

/// Whether `s` begins with `head`.
pub open spec fn begins_with(s: Seq<char>, head: Seq<char>) -> bool {
    head.len() <= s.len() && s.take(head.len() as int) == head
}

/// `str::starts_with`.
pub fn starts_with(s: &str, head: &str) -> (r: bool)
    ensures
        r == begins_with(s@, head@),
{
    let v: Vec<char> = chars_of(s);
    let h: Vec<char> = chars_of(head);
    if v.len() < h.len() {
        return false;
    }
    let mut i: usize = 0;
    while i < h.len()
        invariant
            i <= h.len() <= v.len(),
            v@ == s@,
            h@ == head@,
            forall|j: int| 0 <= j < i ==> v@[j] == h@[j],
        decreases h.len() - i,
    {
        if v[i] != h[i] {
            assert(s@.take(head@.len() as int)[i as int] != head@[i as int]);
            return false;
        }
        i += 1;
    }
    assert(s@.take(head@.len() as int) =~= head@);
    true
}

/// Whether `s` begins with the character `c`.
pub fn starts_with_char(s: &str, c: char) -> (r: bool)
    ensures
        r == (s@.len() > 0 && s@[0] == c),
{
    let v: Vec<char> = chars_of(s);
    v.len() > 0 && v[0] == c
}

/// Whether `s` ends in the character `c`.
pub fn ends_with_char(s: &str, c: char) -> (r: bool)
    ensures
        r == (s@.len() > 0 && s@.last() == c),
{
    let v: Vec<char> = chars_of(s);
    v.len() > 0 && v[v.len() - 1] == c
}

/// Where `c` first stands in `s`; the length of `s` if it does not.
pub open spec fn first_at<A>(s: Seq<A>, c: A) -> int
    decreases s.len(),
{
    if s.len() == 0 || s[0] == c {
        0
    } else {
        1 + first_at(s.skip(1), c)
    }
}

/// What `first_at` says, position by position.
pub proof fn lemma_first_at<A>(s: Seq<A>, c: A)
    ensures
        0 <= first_at(s, c) <= s.len(),
        first_at(s, c) < s.len() ==> s[first_at(s, c)] == c,
        forall|i: int| 0 <= i < first_at(s, c) ==> s[i] != c,
        first_at(s, c) < s.len() <==> s.contains(c),
    decreases s.len(),
{
    if s.len() > 0 && s[0] != c {
        lemma_first_at(s.skip(1), c);
        assert forall|i: int| 0 <= i < first_at(s, c) implies s[i] != c by {
            if i > 0 {
                assert(s.skip(1)[i - 1] == s[i]);
            }
        }
        if s.contains(c) {
            let k = choose|k: int| 0 <= k < s.len() && s[k] == c;
            assert(s.skip(1)[k - 1] == c);
        }
    }
}

/// Where `c` first stands in `v`; the length of `v` if it does not.
pub fn find_char(v: &Vec<char>, c: char) -> (n: usize)
    ensures
        n == first_at(v@, c),
        n <= v.len(),
{
    let mut n: usize = 0;
    proof {
        lemma_first_at(v@, c);
    }
    while n < v.len() && v[n] != c
        invariant
            n <= v.len(),
            forall|i: int| 0 <= i < n ==> v@[i] != c,
        decreases v.len() - n,
    {
        n += 1;
    }
    n
}

/// Where the byte `b` first stands in `v`; the length of `v` if it does not.
pub fn find_byte(v: &[u8], b: u8) -> (n: usize)
    ensures
        n == first_at(v@, b),
        n <= v.len(),
{
    let mut n: usize = 0;
    proof {
        lemma_first_at(v@, b);
    }
    while n < v.len() && v[n] != b
        invariant
            n <= v.len(),
            forall|i: int| 0 <= i < n ==> v@[i] != b,
        decreases v.len() - n,
    {
        n += 1;
    }
    n
}

/// Appends the bytes of `more` to `v`.
pub fn append_bytes(v: &mut Vec<u8>, more: &[u8])
    ensures
        final(v)@ == old(v)@ + more@,
{
    let mut i: usize = 0;
    while i < more.len()
        invariant
            i <= more.len(),
            v@ =~= old(v)@ + more@.take(i as int),
        decreases more.len() - i,
    {
        v.push(more[i]);
        i += 1;
    }
    assert(more@.take(more@.len() as int) =~= more@);
}

/// The pieces of `s` between the separators, as `str::split` gives them: one more than there are
/// separators.
pub open spec fn split(s: Seq<char>, sep: char) -> Seq<Seq<char>>
    decreases s.len(),
{
    if s.len() == 0 {
        seq![Seq::<char>::empty()]
    } else {
        let front = split(s.drop_last(), sep);
        if s.last() == sep {
            front.push(Seq::<char>::empty())
        } else {
            front.drop_last().push(front.last().push(s.last()))
        }
    }
}

/// The pieces with the separator between each two, as `join` on a slice of strings gives them.
pub open spec fn join(parts: Seq<Seq<char>>, sep: char) -> Seq<char>
    decreases parts.len(),
{
    if parts.len() == 0 {
        Seq::<char>::empty()
    } else if parts.len() == 1 {
        parts[0]
    } else {
        join(parts.drop_last(), sep).push(sep) + parts.last()
    }
}

/// `split` gives at least one piece, and no piece holds the separator.
pub proof fn lemma_split_pieces(s: Seq<char>, sep: char)
    ensures
        split(s, sep).len() > 0,
        forall|i: int| 0 <= i < split(s, sep).len() ==> !(#[trigger] split(s, sep)[i]).contains(sep),
    decreases s.len(),
{
    if s.len() > 0 {
        lemma_split_pieces(s.drop_last(), sep);
        let front = split(s.drop_last(), sep);
        let all = split(s, sep);
        assert forall|i: int| 0 <= i < all.len() implies !(#[trigger] all[i]).contains(sep) by {
            if i < front.len() - 1 || s.last() == sep {
                if i < front.len() {
                    assert(all[i] == front[i]);
                }
            } else {
                let piece = all[i];
                if piece.contains(sep) {
                    let k = choose|k: int| 0 <= k < piece.len() && piece[k] == sep;
                    assert(front.last()[k] == sep);
                    assert(front[front.len() - 1].contains(sep));
                }
            }
        }
    }
}

/// Splitting two texts with a separator between them gives the pieces of the one, then of the
/// other.
pub proof fn lemma_split_concat(a: Seq<char>, b: Seq<char>, sep: char)
    ensures
        split(a.push(sep) + b, sep) == split(a, sep) + split(b, sep),
    decreases b.len(),
{
    let whole = a.push(sep) + b;
    if b.len() == 0 {
        assert(whole.drop_last() =~= a);
        assert(whole.last() == sep);
    } else {
        lemma_split_concat(a, b.drop_last(), sep);
        lemma_split_pieces(b.drop_last(), sep);
        assert(whole.drop_last() =~= a.push(sep) + b.drop_last());
        assert(whole.last() == b.last());
        let left = split(a, sep);
        let right = split(b.drop_last(), sep);
        assert((left + right).drop_last() =~= left + right.drop_last());
        assert((left + right).last() == right.last());
    }
    assert(split(whole, sep) =~= split(a, sep) + split(b, sep));
}

/// A text without the separator is its own only piece.
pub proof fn lemma_split_whole(s: Seq<char>, sep: char)
    requires
        !s.contains(sep),
    ensures
        split(s, sep) == seq![s],
    decreases s.len(),
{
    if s.len() > 0 {
        assert(!s.drop_last().contains(sep)) by {
            if s.drop_last().contains(sep) {
                let k = choose|k: int| 0 <= k < s.drop_last().len() && s.drop_last()[k] == sep;
                assert(s[k] == sep);
            }
        }
        lemma_split_whole(s.drop_last(), sep);
        assert(s[s.len() - 1] != sep);
        assert(s.drop_last().push(s.last()) =~= s);
    } else {
        assert(s =~= Seq::<char>::empty());
    }
    assert(split(s, sep) =~= seq![s]);
}

/// Joining pieces and splitting the result gives the pieces back.
pub proof fn lemma_split_join(parts: Seq<Seq<char>>, sep: char)
    requires
        parts.len() > 0,
        forall|i: int| 0 <= i < parts.len() ==> !(#[trigger] parts[i]).contains(sep),
    ensures
        split(join(parts, sep), sep) == parts,
    decreases parts.len(),
{
    lemma_split_whole(parts.last(), sep);
    if parts.len() == 1 {
        assert(parts =~= seq![parts[0]]);
    } else {
        let front = parts.drop_last();
        assert forall|i: int| 0 <= i < front.len() implies !(#[trigger] front[i]).contains(sep) by {
            assert(front[i] == parts[i]);
        }
        lemma_split_join(front, sep);
        lemma_split_concat(join(front, sep), parts.last(), sep);
        assert(front + seq![parts.last()] =~= parts);
    }
}

/// The pieces of `v` between the separators.
pub fn split_at(v: &Vec<char>, sep: char) -> (parts: Vec<Vec<char>>)
    ensures
        pieces(parts@) == split(v@, sep),
{
    let mut parts: Vec<Vec<char>> = Vec::new();
    let mut piece: Vec<char> = Vec::new();
    let mut i: usize = 0;
    assert(v@.take(0) =~= Seq::<char>::empty());
    assert(pieces(parts@).push(piece@) =~= split(v@.take(0), sep));
    while i < v.len()
        invariant
            i <= v.len(),
            pieces(parts@).push(piece@) == split(v@.take(i as int), sep),
        decreases v.len() - i,
    {
        assert(v@.take(i + 1).drop_last() =~= v@.take(i as int));
        let ghost before = pieces(parts@);
        let ghost text = piece@;
        assert(before.push(text).drop_last() =~= before);
        if v[i] == sep {
            parts.push(piece);
            piece = Vec::new();
            assert(pieces(parts@) =~= before.push(text));
        } else {
            piece.push(v[i]);
        }
        assert(pieces(parts@).push(piece@) =~= split(v@.take(i + 1), sep));
        i += 1;
    }
    let ghost before = pieces(parts@);
    let ghost text = piece@;
    parts.push(piece);
    assert(pieces(parts@) =~= before.push(text));
    assert(v@.take(v@.len() as int) =~= v@);
    parts
}

/// The pieces with the separator between each two.
pub fn join_with(parts: &Vec<Vec<char>>, sep: char) -> (s: Vec<char>)
    ensures
        s@ == join(pieces(parts@), sep),
{
    let mut s: Vec<char> = Vec::new();
    let mut i: usize = 0;
    let ghost all = pieces(parts@);
    while i < parts.len()
        invariant
            i <= parts.len(),
            all == pieces(parts@),
            s@ == join(all.take(i as int), sep),
        decreases parts.len() - i,
    {
        let ghost before = s@;
        assert(all.take(i + 1).drop_last() =~= all.take(i as int));
        if i > 0 {
            s.push(sep);
        }
        let piece: &Vec<char> = &parts[i];
        assert(piece@ =~= all[i as int]);
        append_chars(&mut s, piece);
        assert(s@ =~= join(all.take(i + 1), sep));
        i += 1;
    }
    assert(all.take(parts.len() as int) =~= all);
    s
}

/// Appends the characters of `more` to `v`.
pub fn append_chars(v: &mut Vec<char>, more: &Vec<char>)
    ensures
        final(v)@ == old(v)@ + more@,
{
    let mut i: usize = 0;
    while i < more.len()
        invariant
            i <= more.len(),
            v@ =~= old(v)@ + more@.take(i as int),
        decreases more.len() - i,
    {
        v.push(more[i]);
        i += 1;
    }
    assert(more@.take(more@.len() as int) =~= more@);
}

/// The pieces of `s` between single characters of white space.
pub open spec fn space_split(s: Seq<char>) -> Seq<Seq<char>>
    decreases s.len(),
{
    if s.len() == 0 {
        seq![Seq::<char>::empty()]
    } else {
        let front = space_split(s.drop_last());
        if is_space(s.last()) {
            front.push(Seq::<char>::empty())
        } else {
            front.drop_last().push(front.last().push(s.last()))
        }
    }
}

/// The pieces that are not empty.
pub open spec fn not_empty(parts: Seq<Seq<char>>) -> Seq<Seq<char>>
    decreases parts.len(),
{
    if parts.len() == 0 {
        parts
    } else if parts.last().len() == 0 {
        not_empty(parts.drop_last())
    } else {
        not_empty(parts.drop_last()).push(parts.last())
    }
}

/// The words of `s`, as `str::split_whitespace` gives them.
pub open spec fn words(s: Seq<char>) -> Seq<Seq<char>> {
    not_empty(space_split(s))
}

/// `space_split` gives at least one piece.
proof fn lemma_space_split(s: Seq<char>)
    ensures
        space_split(s).len() > 0,
    decreases s.len(),
{
    if s.len() > 0 {
        lemma_space_split(s.drop_last());
    }
}

/// The words of `s`.
pub fn words_of(s: &str) -> (w: Vec<Vec<char>>)
    ensures
        pieces(w@) == words(s@),
{
    let v: Vec<char> = chars_of(s);
    let mut w: Vec<Vec<char>> = Vec::new();
    let mut piece: Vec<char> = Vec::new();
    let mut i: usize = 0;
    assert(v@.take(0) =~= Seq::<char>::empty());
    assert(pieces(w@) =~= not_empty(space_split(v@.take(0)).drop_last()));
    while i < v.len()
        invariant
            i <= v.len(),
            pieces(w@) == not_empty(space_split(v@.take(i as int)).drop_last()),
            piece@ == space_split(v@.take(i as int)).last(),
        decreases v.len() - i,
    {
        let ghost front = space_split(v@.take(i as int));
        proof {
            lemma_space_split(v@.take(i as int));
        }
        assert(v@.take(i + 1).drop_last() =~= v@.take(i as int));
        let ghost before = pieces(w@);
        let ghost text = piece@;
        if space(v[i]) {
            assert(space_split(v@.take(i + 1)).drop_last() =~= front);
            if piece.len() > 0 {
                w.push(piece);
                assert(pieces(w@) =~= before.push(text));
            }
            piece = Vec::new();
        } else {
            piece.push(v[i]);
            assert(space_split(v@.take(i + 1)).drop_last() =~= front.drop_last());
        }
        i += 1;
    }
    assert(v@.take(v@.len() as int) =~= v@);
    proof {
        lemma_space_split(v@);
    }
    let ghost before = pieces(w@);
    let ghost text = piece@;
    if piece.len() > 0 {
        w.push(piece);
        assert(pieces(w@) =~= before.push(text));
    }
    w
}

// ---------------------------------------------------------------------------
// Laws
// ---------------------------------------------------------------------------

/// Whether a text is white space only.
pub open spec fn all_spaces(s: Seq<char>) -> bool {
    forall|i: int| 0 <= i < s.len() ==> is_space(#[trigger] s[i])
}

/// Whether a text neither begins nor ends with white space.
pub open spec fn no_outer_spaces(s: Seq<char>) -> bool {
    s.len() > 0 ==> !is_space(s[0]) && !is_space(s.last())
}

/// White space in front of a text does not change what trimming its front leaves.
pub proof fn lemma_trim_front(front: Seq<char>, rest: Seq<char>)
    requires
        all_spaces(front),
    ensures
        trim_start(front + rest) == trim_start(rest),
    decreases front.len(),
{
    if front.len() == 0 {
        assert(front + rest =~= rest);
    } else {
        let tail = front.skip(1);
        assert(is_space(front[0]));
        assert forall|i: int| 0 <= i < tail.len() implies is_space(#[trigger] tail[i]) by {
            assert(is_space(front[i + 1]));
        }
        lemma_trim_front(tail, rest);
        assert((front + rest).skip(1) =~= tail + rest);
    }
}

/// White space behind a text does not change what trimming its end leaves.
pub proof fn law_trim_end(rest: Seq<char>, back: Seq<char>)
    requires
        all_spaces(back),
    ensures
        trim_end(rest + back) == trim_end(rest),
        rest.len() == 0 || !is_space(rest.last()) ==> trim_end(rest + back) == rest,
    decreases back.len(),
{
    if back.len() == 0 {
        assert(rest + back =~= rest);
    } else {
        let head = back.drop_last();
        assert(is_space(back[back.len() - 1]));
        assert forall|i: int| 0 <= i < head.len() implies is_space(#[trigger] head[i]) by {
            assert(is_space(back[i]));
        }
        law_trim_end(rest, head);
        assert((rest + back).drop_last() =~= rest + head);
    }
}

/// Trimming drops the white space around a text, and nothing else.
pub proof fn law_trim(front: Seq<char>, middle: Seq<char>, back: Seq<char>)
    requires
        all_spaces(front),
        no_outer_spaces(middle),
        all_spaces(back),
    ensures
        trim(front + middle + back) == middle,
        trim_start(front + middle) == middle,
{
    lemma_trim_front(front, middle);
    lemma_trim_front(front, middle + back);
    assert(front + middle + back =~= front + (middle + back));
    law_trim_end(middle, back);
    if middle.len() == 0 {
        assert(middle + back =~= back);
        let none = Seq::<char>::empty();
        lemma_trim_front(back, none);
        assert(back + none =~= back);
        assert(middle =~= none);
    } else {
        assert((middle + back)[0] == middle[0]);
    }
}

/// Stripping a character from the front drops all of it there, and nothing else.
pub proof fn law_strip_start(front: Seq<char>, rest: Seq<char>, c: char)
    requires
        forall|i: int| 0 <= i < front.len() ==> #[trigger] front[i] == c,
        rest.len() > 0 ==> rest[0] != c,
    ensures
        strip_start(front + rest, c) == rest,
    decreases front.len(),
{
    if front.len() == 0 {
        assert(front + rest =~= rest);
    } else {
        let fewer = front.skip(1);
        assert(front[0] == c);
        assert forall|i: int| 0 <= i < fewer.len() implies #[trigger] fewer[i] == c by {
            assert(front[i + 1] == c);
        }
        law_strip_start(fewer, rest, c);
        assert((front + rest).skip(1) =~= fewer + rest);
    }
}

/// Stripping a character from the end drops all of it there, and nothing else.
pub proof fn law_strip_end(rest: Seq<char>, back: Seq<char>, c: char)
    requires
        forall|i: int| 0 <= i < back.len() ==> #[trigger] back[i] == c,
        rest.len() > 0 ==> rest.last() != c,
    ensures
        strip_end(rest + back, c) == rest,
    decreases back.len(),
{
    if back.len() == 0 {
        assert(rest + back =~= rest);
    } else {
        let fewer = back.drop_last();
        assert(back[back.len() - 1] == c);
        assert forall|i: int| 0 <= i < fewer.len() implies #[trigger] fewer[i] == c by {
            assert(back[i] == c);
        }
        law_strip_end(rest, fewer, c);
        assert((rest + back).drop_last() =~= rest + fewer);
    }
}

/// A text begins with whatever is put in front of it, and with nothing else.
pub proof fn law_begins_with(s: Seq<char>, head: Seq<char>, tail: Seq<char>)
    ensures
        begins_with(head + tail, head),
        begins_with(s, head) ==> s == head + s.skip(head.len() as int),
{
    assert((head + tail).take(head.len() as int) =~= head);
    if begins_with(s, head) {
        assert(s =~= s.take(head.len() as int) + s.skip(head.len() as int));
    }
}

/// Pieces between white space, of two texts with white space between them.
proof fn lemma_space_split_concat(a: Seq<char>, sp: char, b: Seq<char>)
    requires
        is_space(sp),
    ensures
        space_split(a.push(sp) + b) == space_split(a) + space_split(b),
    decreases b.len(),
{
    let whole = a.push(sp) + b;
    if b.len() == 0 {
        assert(whole.drop_last() =~= a);
        assert(whole.last() == sp);
    } else {
        lemma_space_split_concat(a, sp, b.drop_last());
        lemma_space_split(b.drop_last());
        assert(whole.drop_last() =~= a.push(sp) + b.drop_last());
        assert(whole.last() == b.last());
        let left = space_split(a);
        let right = space_split(b.drop_last());
        assert((left + right).drop_last() =~= left + right.drop_last());
        assert((left + right).last() == right.last());
    }
    assert(space_split(whole) =~= space_split(a) + space_split(b));
}

proof fn lemma_not_empty_concat(a: Seq<Seq<char>>, b: Seq<Seq<char>>)
    ensures
        not_empty(a + b) == not_empty(a) + not_empty(b),
    decreases b.len(),
{
    if b.len() == 0 {
        assert(a + b =~= a);
        assert(not_empty(b) =~= Seq::<Seq<char>>::empty());
        assert(not_empty(a) + not_empty(b) =~= not_empty(a));
    } else {
        assert((a + b).drop_last() =~= a + b.drop_last());
        lemma_not_empty_concat(a, b.drop_last());
        assert(not_empty(a + b) =~= not_empty(a) + not_empty(b));
    }
}

/// The words of two texts with white space between them are those of the one, then those of the
/// other.
pub proof fn law_words_concat(a: Seq<char>, sp: char, b: Seq<char>)
    requires
        is_space(sp),
    ensures
        words(a.push(sp) + b) == words(a) + words(b),
{
    lemma_space_split_concat(a, sp, b);
    lemma_not_empty_concat(space_split(a), space_split(b));
}

/// A text without white space is its own only word, unless it is empty.
pub proof fn law_one_word(s: Seq<char>)
    requires
        forall|i: int| 0 <= i < s.len() ==> !is_space(#[trigger] s[i]),
    ensures
        words(s) == (if s.len() == 0 {
            Seq::<Seq<char>>::empty()
        } else {
            seq![s]
        }),
{
    lemma_one_piece(s);
    reveal_with_fuel(not_empty, 2);
    assert(seq![s].drop_last() =~= Seq::<Seq<char>>::empty());
    assert(words(s) =~= (if s.len() == 0 {
        Seq::<Seq<char>>::empty()
    } else {
        seq![s]
    }));
}

proof fn lemma_one_piece(s: Seq<char>)
    requires
        forall|i: int| 0 <= i < s.len() ==> !is_space(#[trigger] s[i]),
    ensures
        space_split(s) == seq![s],
    decreases s.len(),
{
    if s.len() > 0 {
        let front = s.drop_last();
        assert forall|i: int| 0 <= i < front.len() implies !is_space(#[trigger] front[i]) by {
            assert(!is_space(s[i]));
        }
        lemma_one_piece(front);
        assert(!is_space(s[s.len() - 1]));
        assert(front.push(s.last()) =~= s);
    } else {
        assert(s =~= Seq::<char>::empty());
    }
    assert(space_split(s) =~= seq![s]);
}

/// White space alone makes no words.
pub proof fn law_spaces_make_no_words(s: Seq<char>)
    requires
        all_spaces(s),
    ensures
        words(s) == Seq::<Seq<char>>::empty(),
    decreases s.len(),
{
    let none = Seq::<char>::empty();
    law_one_word(none);
    if s.len() > 0 {
        let front = s.drop_last();
        assert(is_space(s[s.len() - 1]));
        assert forall|i: int| 0 <= i < front.len() implies is_space(#[trigger] front[i]) by {
            assert(is_space(s[i]));
        }
        law_spaces_make_no_words(front);
        law_words_concat(front, s.last(), none);
        assert(front.push(s.last()) + none =~= s);
        assert(words(s) =~= Seq::<Seq<char>>::empty());
    } else {
        assert(s =~= none);
    }
}

/// Every character of a text is kept or replaced, each in its place.
pub proof fn law_replace(s: Seq<char>, from: char, to: char, i: int)
    requires
        0 <= i < s.len(),
    ensures
        replace(s, from, to).len() == s.len(),
        s[i] == from ==> replace(s, from, to)[i] == to,
        s[i] != from ==> replace(s, from, to)[i] == s[i],
{
}

/// Splitting a text and joining the pieces gives the text back.
pub proof fn law_join_split(s: Seq<char>, sep: char)
    ensures
        join(split(s, sep), sep) == s,
    decreases s.len(),
{
    if s.len() > 0 {
        let front = s.drop_last();
        let before = split(front, sep);
        let all = split(s, sep);
        law_join_split(front, sep);
        lemma_split_pieces(front, sep);
        if s.last() == sep {
            assert(all.drop_last() =~= before);
            assert(join(all, sep) =~= s);
        } else if before.len() == 1 {
            assert(all =~= seq![before[0].push(s.last())]);
            assert(join(all, sep) =~= s);
        } else {
            assert(all.drop_last() =~= before.drop_last());
            assert(join(all, sep) =~= join(before, sep).push(s.last()));
            assert(join(all, sep) =~= s);
        }
    }
}

/// A text with anything but white space in it is not trimmed to nothing.
pub proof fn law_trim_keeps_text(s: Seq<char>)
    requires
        exists|i: int| 0 <= i < s.len() && !is_space(#[trigger] s[i]),
    ensures
        trim(s).len() > 0,
    decreases s.len(),
{
    let i = choose|i: int| 0 <= i < s.len() && !is_space(#[trigger] s[i]);
    if is_space(s[0]) {
        let rest = s.skip(1);
        assert(rest[i - 1] == s[i]);
        law_trim_keeps_text(rest);
    } else {
        lemma_trim_end_keeps(s, 0);
        assert(trim_start(s) == s);
    }
}

/// What trimming the end leaves goes on beyond every character that is no white space.
proof fn lemma_trim_end_keeps(s: Seq<char>, i: int)
    requires
        0 <= i < s.len(),
        !is_space(s[i]),
    ensures
        trim_end(s).len() > i,
    decreases s.len(),
{
    if is_space(s.last()) {
        lemma_trim_end_keeps(s.drop_last(), i);
    }
}

/// White space is, by number: 9 to 13, 32, 133, 160, 5760, 8192 to 8202, 8232, 8233, 8239, 8287 and
/// 12288.
pub proof fn law_white_space(c: char)
    ensures
        ({
            let n = c as int;
            is_space(c) <==> 9 <= n < 14 || n == 32 || n == 133 || n == 160 || n == 5760 || 8192 <= n
                < 8203 || n == 8232 || n == 8233 || n == 8239 || n == 8287 || n == 12288
        }),
{
}

} // verus!
