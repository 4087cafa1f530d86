//! Paths with forward slashes: normal form, and what may be opened below a root folder.

use vstd::prelude::*;

use crate::text;
use crate::text::{append_chars, chars_of, join_with, replaced, split_at, string_of, stripped_start};

verus! {

// ---------------------------------------------------------------------------
// Normal form
// ---------------------------------------------------------------------------

/// The piece that names the folder itself.
pub open spec fn is_dot(part: Seq<char>) -> bool {
    part == seq!['.']
}

/// The piece that names the parent folder.
pub open spec fn is_dot_dot(part: Seq<char>) -> bool {
    part == seq!['.', '.']
}

/// Where one piece of a path leads from the folder `at`: an empty piece and `.` stay, `..` goes up
/// (and stays at the top), anything else goes down.
pub open spec fn step(at: Seq<Seq<char>>, part: Seq<char>) -> Seq<Seq<char>> {
    if part.len() == 0 || is_dot(part) {
        at
    } else if is_dot_dot(part) {
        if at.len() > 0 {
            at.drop_last()
        } else {
            at
        }
    } else {
        at.push(part)
    }
}

/// Where the pieces lead, one after the other, from the folder `at`.
pub open spec fn walk(at: Seq<Seq<char>>, parts: Seq<Seq<char>>) -> Seq<Seq<char>>
    decreases parts.len(),
{
    if parts.len() == 0 {
        at
    } else {
        step(walk(at, parts.drop_last()), parts.last())
    }
}

/// The absolute path of a folder, given the names on the way to it.
pub open spec fn rooted(names: Seq<Seq<char>>) -> Seq<char> {
    seq!['/'] + text::join(names, '/')
}

/// The normal form of a path: backslashes count as slashes, and the walk starts at the top.
pub open spec fn normal(path: Seq<char>) -> Seq<char> {
    rooted(walk(Seq::empty(), text::split(text::replace(path, '\\', '/'), '/')))
}

/// A name that a walk goes down by.
pub open spec fn is_name(part: Seq<char>) -> bool {
    &&& part.len() > 0
    &&& !is_dot(part)
    &&& !is_dot_dot(part)
    &&& !part.contains('/')
    &&& !part.contains('\\')
}

/// A list of names.
pub open spec fn all_names(parts: Seq<Seq<char>>) -> bool {
    forall|i: int| 0 <= i < parts.len() ==> is_name(#[trigger] parts[i])
}

/// Whether a path is in normal form: the top, or a slash and names with a slash between each two.
pub open spec fn is_normal(path: Seq<char>) -> bool {
    exists|names: Seq<Seq<char>>| #[trigger] all_names(names) && path == rooted(names)
}

/// No name is lost or added on the way: what a walk over slash-free pieces ends in are names.
pub proof fn lemma_walk_names(at: Seq<Seq<char>>, parts: Seq<Seq<char>>)
    requires
        all_names(at),
        forall|i: int|
            0 <= i < parts.len() ==> !(#[trigger] parts[i]).contains('/') && !parts[i].contains(
                '\\',
            ),
    ensures
        all_names(walk(at, parts)),
    decreases parts.len(),
{
    if parts.len() > 0 {
        let front = parts.drop_last();
        assert forall|i: int| 0 <= i < front.len() implies !(#[trigger] front[i]).contains('/')
            && !front[i].contains('\\') by {
            assert(front[i] == parts[i]);
        }
        lemma_walk_names(at, front);
        let here = walk(at, front);
        let next = step(here, parts.last());
        assert forall|i: int| 0 <= i < next.len() implies is_name(#[trigger] next[i]) by {
            if i < here.len() {
                assert(is_name(here[i]));
            } else {
                assert(next[i] == parts[parts.len() - 1]);
            }
        }
    }
}

/// Walking over two lists of pieces is walking over the one, then over the other.
pub proof fn lemma_walk_concat(at: Seq<Seq<char>>, a: Seq<Seq<char>>, b: Seq<Seq<char>>)
    ensures
        walk(at, a + b) == walk(walk(at, a), b),
    decreases b.len(),
{
    if b.len() == 0 {
        assert(a + b =~= a);
    } else {
        assert((a + b).drop_last() =~= a + b.drop_last());
        lemma_walk_concat(at, a, b.drop_last());
    }
}

/// Walking down by names appends them.
pub proof fn lemma_walk_down(at: Seq<Seq<char>>, names: Seq<Seq<char>>)
    requires
        all_names(names),
    ensures
        walk(at, names) == at + names,
    decreases names.len(),
{
    if names.len() == 0 {
        assert(at + names =~= at);
    } else {
        let front = names.drop_last();
        assert forall|i: int| 0 <= i < front.len() implies is_name(#[trigger] front[i]) by {
            assert(front[i] == names[i]);
        }
        lemma_walk_down(at, front);
        assert(is_name(names[names.len() - 1]));
        assert((at + front).push(names.last()) =~= at + names);
    }
}

/// The pieces of an absolute path in normal form are an empty one and its names; at the top, two
/// empty ones.
pub proof fn lemma_split_rooted(names: Seq<Seq<char>>)
    requires
        all_names(names),
    ensures
        text::split(rooted(names), '/') == seq![Seq::<char>::empty()] + (if names.len() == 0 {
            seq![Seq::<char>::empty()]
        } else {
            names
        }),
        walk(Seq::empty(), text::split(rooted(names), '/')) == names,
{
    let top = Seq::<char>::empty();
    let rest = text::join(names, '/');
    text::lemma_split_concat(top, rest, '/');
    assert(top.push('/') + rest =~= rooted(names));
    text::lemma_split_whole(top, '/');
    assert(walk(Seq::<Seq<char>>::empty(), seq![top]) == Seq::<Seq<char>>::empty()) by {
        reveal_with_fuel(walk, 2);
    }
    if names.len() == 0 {
        text::lemma_split_whole(rest, '/');
        lemma_walk_concat(Seq::empty(), seq![top], seq![top]);
        assert(names =~= Seq::<Seq<char>>::empty());
    } else {
        assert forall|i: int| 0 <= i < names.len() implies !(#[trigger] names[i]).contains('/') by {
            assert(is_name(names[i]));
        }
        text::lemma_split_join(names, '/');
        lemma_walk_concat(Seq::empty(), seq![top], names);
        lemma_walk_down(Seq::empty(), names);
        assert(Seq::<Seq<char>>::empty() + names =~= names);
    }
}

/// The pieces of a text that holds no backslash hold none.
pub proof fn lemma_pieces_without(s: Seq<char>, c: char)
    requires
        !s.contains(c),
    ensures
        forall|i: int|
            0 <= i < text::split(s, '/').len() ==> !(#[trigger] text::split(s, '/')[i]).contains(c),
    decreases s.len(),
{
    if s.len() > 0 {
        let front = s.drop_last();
        assert(!front.contains(c)) by {
            if front.contains(c) {
                let k = choose|k: int| 0 <= k < front.len() && front[k] == c;
                assert(s[k] == c);
            }
        }
        lemma_pieces_without(front, c);
        text::lemma_split_pieces(front, '/');
        let before = text::split(front, '/');
        let all = text::split(s, '/');
        assert forall|i: int| 0 <= i < all.len() implies !(#[trigger] all[i]).contains(c) by {
            if i < before.len() - 1 || s.last() == '/' {
                if i < before.len() {
                    assert(all[i] == before[i]);
                }
            } else {
                let piece = all[i];
                if piece.contains(c) {
                    let k = choose|k: int| 0 <= k < piece.len() && piece[k] == c;
                    assert(s[s.len() - 1] != c);
                    assert(before.last()[k] == c);
                    assert(before[before.len() - 1].contains(c));
                }
            }
        }
    }
}

/// No backslash is left where all were replaced.
pub proof fn lemma_replaced(s: Seq<char>)
    ensures
        !text::replace(s, '\\', '/').contains('\\'),
{
}

/// The normal form of any path is in normal form: it starts with a slash, and no piece of it is
/// empty, `.` or `..` or holds a backslash.
pub proof fn law_normal_is_normal(path: Seq<char>)
    ensures
        is_normal(normal(path)),
{
    let clean = text::replace(path, '\\', '/');
    lemma_replaced(path);
    lemma_pieces_without(clean, '\\');
    text::lemma_split_pieces(clean, '/');
    lemma_walk_names(Seq::empty(), text::split(clean, '/'));
}

/// A path in normal form holds no backslash.
pub proof fn lemma_rooted_without_backslash(names: Seq<Seq<char>>)
    requires
        all_names(names),
    ensures
        !rooted(names).contains('\\'),
    decreases names.len(),
{
    let rest = text::join(names, '/');
    if names.len() > 1 {
        let front = names.drop_last();
        assert forall|i: int| 0 <= i < front.len() implies is_name(#[trigger] front[i]) by {
            assert(front[i] == names[i]);
        }
        lemma_rooted_without_backslash(front);
        let before = text::join(front, '/');
        assert forall|k: int| 0 <= k < rest.len() implies rest[k] != '\\' by {
            if k < before.len() {
                assert(rooted(front)[k + 1] == before[k]);
            } else if k > before.len() {
                let last = names[names.len() - 1];
                assert(is_name(last));
                assert(last[k - before.len() - 1] == rest[k]);
            }
        }
    } else if names.len() == 1 {
        assert(is_name(names[0]));
    }
    assert forall|k: int| 0 <= k < rooted(names).len() implies rooted(names)[k] != '\\' by {
        if k > 0 {
            assert(rooted(names)[k] == rest[k - 1]);
        }
    }
}

/// A path in normal form is its own normal form; so normalising twice is normalising once.
pub proof fn law_normal_is_stable(path: Seq<char>)
    requires
        is_normal(path),
    ensures
        normal(path) == path,
{
    let names = choose|names: Seq<Seq<char>>| #[trigger] all_names(names) && path == rooted(names);
    lemma_rooted_without_backslash(names);
    assert(text::replace(path, '\\', '/') =~= path);
    lemma_split_rooted(names);
}

/// Walking on from the normal form of a path is walking on from the path.
pub proof fn law_normal_path_goes_on(a: Seq<char>, b: Seq<char>)
    ensures
        normal(normal(a).push('/') + b) == normal(a.push('/') + b),
{
    let top = Seq::<Seq<char>>::empty();
    let ca = text::replace(a, '\\', '/');
    let cb = text::replace(b, '\\', '/');
    let names = walk(top, text::split(ca, '/'));
    let middle = normal(a);
    lemma_replaced(a);
    lemma_pieces_without(ca, '\\');
    text::lemma_split_pieces(ca, '/');
    lemma_walk_names(top, text::split(ca, '/'));
    lemma_rooted_without_backslash(names);
    assert(text::replace(middle.push('/') + b, '\\', '/') =~= middle.push('/') + cb);
    assert(text::replace(a.push('/') + b, '\\', '/') =~= ca.push('/') + cb);
    text::lemma_split_concat(middle, cb, '/');
    text::lemma_split_concat(ca, cb, '/');
    lemma_walk_concat(top, text::split(middle, '/'), text::split(cb, '/'));
    lemma_walk_concat(top, text::split(ca, '/'), text::split(cb, '/'));
    lemma_split_rooted(names);
}

/// Whether `part` is the piece that names the parent folder.
fn dot_dot(part: &Vec<char>) -> (r: bool)
    ensures
        r == is_dot_dot(part@),
{
    let r: bool = part.len() == 2 && part[0] == '.' && part[1] == '.';
    assert(r ==> part@ =~= seq!['.', '.']);
    r
}

/// Walks over the pieces of `path`, from the folder `at`.
pub fn walk_path(at: Vec<Vec<char>>, path: &Vec<char>) -> (names: Vec<Vec<char>>)
    ensures
        text::pieces(names@) == walk(text::pieces(at@), text::split(path@, '/')),
{
    let parts: Vec<Vec<char>> = split_at(path, '/');
    let mut names: Vec<Vec<char>> = at;
    let ghost start = text::pieces(at@);
    let ghost all = text::pieces(parts@);
    let mut i: usize = 0;
    assert(all.take(0) =~= Seq::<Seq<char>>::empty());
    while i < parts.len()
        invariant
            i <= parts.len(),
            all == text::pieces(parts@),
            text::pieces(names@) == walk(start, all.take(i as int)),
        decreases parts.len() - i,
    {
        assert(all.take(i + 1).drop_last() =~= all.take(i as int));
        let part: &Vec<char> = &parts[i];
        assert(all.take(i + 1).last() == part@);
        let ghost before = text::pieces(names@);
        if part.len() == 0 || (part.len() == 1 && part[0] == '.') {
            assert(part.len() == 1 ==> part@ =~= seq!['.']);
        } else if dot_dot(part) {
            assert(!is_dot(part@));
            let gone: Option<Vec<char>> = names.pop();
            assert(text::pieces(names@) =~= step(before, part@));
        } else {
            assert(!is_dot(part@)) by {
                assert(part@.len() == 1 ==> part@[0] != '.');
                assert(seq!['.'].len() == 1 && seq!['.'][0] == '.');
            }
            let mut name: Vec<char> = Vec::new();
            append_chars(&mut name, part);
            assert(name@ =~= part@);
            names.push(name);
            assert(text::pieces(names@) =~= before.push(part@));
        }
        i += 1;
    }
    assert(all.take(parts.len() as int) =~= all);
    names
}

/// The absolute path of a folder, given the names on the way to it.
pub fn root_names(names: &Vec<Vec<char>>) -> (path: String)
    ensures
        path@ == rooted(text::pieces(names@)),
{
    let mut v: Vec<char> = Vec::new();
    v.push('/');
    let rest: Vec<char> = join_with(names, '/');
    append_chars(&mut v, &rest);
    assert(v@ =~= rooted(text::pieces(names@)));
    string_of(v.as_slice())
}

// ---------------------------------------------------------------------------
// What may be opened below a root folder
// ---------------------------------------------------------------------------

/// The platforms, by how they read paths.
#[derive(Clone, Copy, Debug, PartialEq, Eq, Structural)]
pub enum Platform {
    /// A letter and a colon in front name a drive, and a backslash separates names.
    Windows,
    /// Only a slash separates names, and there are no drives.
    Other,
}

/// Whether a path begins with a drive letter and a colon, so that on Windows it would not be taken
/// relative to the root folder.
pub open spec fn names_drive(rel: Seq<char>) -> bool {
    &&& rel.len() >= 2
    &&& ('a' <= rel[0] <= 'z' || 'A' <= rel[0] <= 'Z')
    &&& rel[1] == ':'
}

/// Whether a relative path could lead out of the root folder by its text: it goes up, or it names a
/// drive where there are drives.
pub open spec fn leads_out(rel: Seq<char>, platform: Platform) -> bool {
    (platform is Windows && names_drive(rel)) || exists|i: int|
        0 <= i < text::split(rel, '/').len() && is_dot_dot(#[trigger] text::split(rel, '/')[i])
}

/// The path below the root folder that a requested path stands for: slashes at the front are
/// dropped, and backslashes count as slashes.
pub open spec fn below_root(path: Seq<char>) -> Seq<char> {
    text::strip_start(text::replace(path, '\\', '/'), '/')
}

/// The path below the root folder that may be looked at for a requested path; nothing, if it leads
/// out.
pub open spec fn confined(path: Seq<char>, platform: Platform) -> Option<Seq<char>> {
    if leads_out(below_root(path), platform) {
        None
    } else {
        Some(below_root(path))
    }
}

/// Whether `rel` could lead out of the root folder by its text.
pub fn path_leads_out(rel: &str, platform: Platform) -> (r: bool)
    ensures
        r == leads_out(rel@, platform),
{
    let v: Vec<char> = chars_of(rel);
    if platform == Platform::Windows && v.len() >= 2 && (('a' <= v[0] && v[0] <= 'z') || ('A' <= v[0] && v[0] <= 'Z')) && v[1]
        == ':' {
        return true;
    }
    let parts: Vec<Vec<char>> = split_at(&v, '/');
    let ghost all = text::split(rel@, '/');
    let mut i: usize = 0;
    while i < parts.len()
        invariant
            i <= parts.len(),
            !(platform is Windows && names_drive(rel@)),
            text::pieces(parts@) == all,
            all == text::split(rel@, '/'),
            forall|j: int| 0 <= j < i ==> !is_dot_dot(#[trigger] all[j]),
        decreases parts.len() - i,
    {
        assert(all[i as int] == parts@[i as int]@);
        if dot_dot(&parts[i]) {
            return true;
        }
        i += 1;
    }
    false
}

/// The path below the root folder that may be looked at for a requested path.
pub fn confine(path: &str, platform: Platform) -> (r: Option<String>)
    ensures
        r is Some <==> confined(path@, platform) is Some,
        r matches Some(rel) ==> Some(rel@) == confined(path@, platform),
{
    let slashes: String = replaced(path, '\\', '/');
    let rel: String = stripped_start(slashes.as_str(), '/');
    if path_leads_out(rel.as_str(), platform) {
        None
    } else {
        Some(rel)
    }
}

/// What may be looked at never starts with a slash, holds no backslash, never goes up, and on Windows
/// names no drive.
pub proof fn law_confined_stays_below(path: Seq<char>, platform: Platform)
    ensures
        confined(path, platform) matches Some(rel) ==> {
            &&& rel.len() > 0 ==> rel[0] != '/'
            &&& !rel.contains('\\')
            &&& platform is Windows ==> !names_drive(rel)
            &&& forall|i: int|
                0 <= i < text::split(rel, '/').len() ==> !is_dot_dot(#[trigger] text::split(rel, '/')[i])
        },
{
    let clean = text::replace(path, '\\', '/');
    lemma_replaced(path);
    lemma_strip_start(clean, '/');
}

/// What `strip_start` leaves is the end of the text, and does not start with the character.
pub proof fn lemma_strip_start(s: Seq<char>, c: char)
    ensures
        text::strip_start(s, c).len() > 0 ==> text::strip_start(s, c)[0] != c,
        forall|d: char| text::strip_start(s, c).contains(d) ==> #[trigger] s.contains(d),
    decreases s.len(),
{
    if s.len() > 0 && s[0] == c {
        lemma_strip_start(s.skip(1), c);
        assert forall|d: char| text::strip_start(s, c).contains(d) implies #[trigger] s.contains(
            d,
        ) by {
            assert(s.skip(1).contains(d));
            let k = choose|k: int| 0 <= k < s.skip(1).len() && s.skip(1)[k] == d;
            assert(s[k + 1] == d);
        }
    }
}

/// Of a path in normal form only a drive letter on Windows is refused; what is looked at is otherwise
/// the path without its leading slash.
pub proof fn law_normal_path_confined(path: Seq<char>, platform: Platform)
    requires
        is_normal(path),
    ensures
        below_root(path) == path.skip(1),
        confined(path, platform) is None <==> platform is Windows && names_drive(path.skip(1)),
{
    let names = choose|names: Seq<Seq<char>>| #[trigger] all_names(names) && path == rooted(names);
    let rest = text::join(names, '/');
    lemma_rooted_without_backslash(names);
    assert(text::replace(path, '\\', '/') =~= path);
    assert(path.skip(1) =~= rest);
    if names.len() > 0 {
        assert forall|i: int| 0 <= i < names.len() implies !(#[trigger] names[i]).contains('/') by {
            assert(is_name(names[i]));
        }
        text::lemma_split_join(names, '/');
        lemma_join_head(names);
        assert(is_name(names[0]));
        assert(rest.len() > 0 && rest[0] == names[0][0]);
        assert(names[0].contains(names[0][0]));
        assert forall|i: int| 0 <= i < names.len() implies !is_dot_dot(#[trigger] names[i]) by {
            assert(is_name(names[i]));
        }
    } else {
        text::lemma_split_whole(rest, '/');
        assert(seq!['.', '.'].len() == 2);
    }
    assert(text::strip_start(path, '/') == rest) by {
        reveal_with_fuel(text::strip_start, 2);
    }
}

/// Joined pieces begin with the first piece.
pub proof fn lemma_join_head(parts: Seq<Seq<char>>)
    requires
        parts.len() > 0,
    ensures
        text::join(parts, '/').len() >= parts[0].len(),
        text::join(parts, '/').take(parts[0].len() as int) == parts[0],
        parts[0].len() > 0 ==> text::join(parts, '/')[0] == parts[0][0],
    decreases parts.len(),
{
    if parts.len() > 1 {
        lemma_join_head(parts.drop_last());
        assert(text::join(parts, '/').take(parts[0].len() as int) =~= text::join(
            parts.drop_last(),
            '/',
        ).take(parts[0].len() as int));
    } else {
        assert(parts[0].take(parts[0].len() as int) =~= parts[0]);
    }
}

/// Whether a part can be the name of a file or folder: it is not empty, neither one dot nor two, and
/// has no slash or backslash in it.
pub open spec fn is_plain(part: Seq<char>) -> bool {
    &&& part.len() > 0
    &&& !(part.len() == 1 && part[0] == '.')
    &&& !(part.len() == 2 && part[0] == '.' && part[1] == '.')
    &&& forall|i: int| 0 <= i < part.len() ==> #[trigger] part[i] != '/' && part[i] != '\\'
}

/// Names are the parts that can be one, so that a file such as `.profile` or `...` can be reached.
pub proof fn law_names_are_plain(part: Seq<char>)
    ensures
        is_name(part) <==> is_plain(part),
{
    assert(is_dot(part) <==> part.len() == 1 && part[0] == '.') by {
        if part.len() == 1 && part[0] == '.' {
            assert(part =~= seq!['.']);
        }
    }
    assert(is_dot_dot(part) <==> part.len() == 2 && part[0] == '.' && part[1] == '.') by {
        if part.len() == 2 && part[0] == '.' && part[1] == '.' {
            assert(part =~= seq!['.', '.']);
        }
    }
    if is_name(part) {
        assert forall|i: int| 0 <= i < part.len() implies #[trigger] part[i] != '/' && part[i]
            != '\\' by {
            assert(part.contains(part[i]));
        }
    }
}

/// The absolute path of a folder is a slash and the names with a slash between each two.
pub proof fn law_rooted(names: Seq<Seq<char>>, name: Seq<char>)
    ensures
        rooted(Seq::empty()) == seq!['/'],
        rooted(names.push(name)) == (if names.len() == 0 {
            seq!['/'] + name
        } else {
            rooted(names).push('/') + name
        }),
{
    assert(rooted(Seq::empty()) =~= seq!['/']);
    assert(names.push(name).drop_last() =~= names);
    if names.len() == 0 {
        assert(names.push(name)[0] == name);
    } else {
        assert(rooted(names.push(name)) =~= rooted(names).push('/') + name);
    }
}

/// What one more part does to a path: a name goes down by it, nothing and one dot stay, and two dots
/// go up or stay at the top.
pub proof fn law_normal_step(names: Seq<Seq<char>>, part: Seq<char>)
    requires
        all_names(names),
        forall|i: int| 0 <= i < part.len() ==> #[trigger] part[i] != '/' && part[i] != '\\',
    ensures
        ({
            let next = normal(rooted(names).push('/') + part);
            &&& is_plain(part) ==> next == rooted(names.push(part))
            &&& part.len() == 0 ==> next == rooted(names)
            &&& part.len() == 1 && part[0] == '.' ==> next == rooted(names)
            &&& part.len() == 2 && part[0] == '.' && part[1] == '.' ==> next == rooted(
                if names.len() == 0 {
                    names
                } else {
                    names.drop_last()
                },
            )
        }),
{
    let here = rooted(names);
    let whole = here.push('/') + part;
    law_names_are_plain(part);
    lemma_rooted_without_backslash(names);
    assert(text::replace(whole, '\\', '/') =~= whole);
    text::lemma_split_concat(here, part, '/');
    assert(!part.contains('/'));
    text::lemma_split_whole(part, '/');
    lemma_walk_concat(Seq::empty(), text::split(here, '/'), seq![part]);
    lemma_split_rooted(names);
    reveal_with_fuel(walk, 2);
    assert(seq![part].drop_last() =~= Seq::<Seq<char>>::empty());
    assert(part.len() == 1 && part[0] == '.' ==> part =~= seq!['.']);
    assert(part.len() == 2 && part[0] == '.' && part[1] == '.' ==> part =~= seq!['.', '.']);
    assert(seq!['.'].len() == 1);
}

/// Backslashes count as slashes, and a path of nothing or of a slash is the top.
pub proof fn law_normal_of_slashes(path: Seq<char>)
    ensures
        normal(path) == normal(text::replace(path, '\\', '/')),
        normal(Seq::empty()) == seq!['/'],
        normal(seq!['/']) == seq!['/'],
{
    let clean = text::replace(path, '\\', '/');
    assert(text::replace(clean, '\\', '/') =~= clean);
    let none = Seq::<char>::empty();
    let top = Seq::<Seq<char>>::empty();
    assert(text::replace(none, '\\', '/') =~= none);
    text::lemma_split_whole(none, '/');
    reveal_with_fuel(walk, 2);
    assert(seq![none].drop_last() =~= top);
    assert(rooted(top) =~= seq!['/']);
    assert(all_names(top));
    law_normal_is_stable(seq!['/']);
}

/// Of a path, slashes and backslashes in front are dropped, and what is left may be looked at with
/// slashes for backslashes, unless a part of it is two dots or, on Windows, it begins with a letter
/// and a colon.
pub proof fn law_confined(front: Seq<char>, rest: Seq<char>, platform: Platform)
    requires
        forall|i: int| 0 <= i < front.len() ==> #[trigger] front[i] == '/' || front[i] == '\\',
        rest.len() > 0 ==> rest[0] != '/' && rest[0] != '\\',
    ensures
        ({
            let clean = text::replace(rest, '\\', '/');
            let up = exists|i: int|
                0 <= i < text::split(clean, '/').len() && #[trigger] text::split(clean, '/')[i]
                    == seq!['.', '.'];
            let drive = rest.len() >= 2 && ('a' <= rest[0] <= 'z' || 'A' <= rest[0] <= 'Z')
                && rest[1] == ':';
            confined(front + rest, platform) == (if up || (platform is Windows && drive) {
                None
            } else {
                Some(clean)
            })
        }),
{
    let clean = text::replace(rest, '\\', '/');
    let head = text::replace(front, '\\', '/');
    assert(text::replace(front + rest, '\\', '/') =~= head + clean);
    assert forall|i: int| 0 <= i < head.len() implies #[trigger] head[i] == '/' by {
        assert(front[i] == '/' || front[i] == '\\');
    }
    text::law_strip_start(head, clean, '/');
    let pieces = text::split(clean, '/');
    if exists|i: int| 0 <= i < pieces.len() && #[trigger] pieces[i] == seq!['.', '.'] {
        let i = choose|i: int| 0 <= i < pieces.len() && #[trigger] pieces[i] == seq!['.', '.'];
        assert(is_dot_dot(pieces[i]));
    }
}

/// A path that names no drive; on Windows nothing, if it names one.
pub open spec fn allowed(path: Seq<char>, platform: Platform) -> Option<Seq<char>> {
    if platform is Windows && names_drive(path) {
        None
    } else {
        Some(path)
    }
}

/// The path of some names, with or without a slash in front, is allowed as it stands, but on Windows
/// not if it names a drive.
pub proof fn law_names_are_confined(names: Seq<Seq<char>>, platform: Platform)
    requires
        all_names(names),
    ensures
        confined(text::join(names, '/'), platform) == allowed(text::join(names, '/'), platform),
        confined(seq!['/'] + text::join(names, '/'), platform) == allowed(
            text::join(names, '/'),
            platform,
        ),
{
    let path = text::join(names, '/');
    let none = Seq::<char>::empty();
    let slash = seq!['/'];
    lemma_rooted_without_backslash(names);
    assert forall|k: int| 0 <= k < path.len() implies path[k] != '\\' by {
        assert(rooted(names)[k + 1] == path[k]);
    }
    let clean = text::replace(path, '\\', '/');
    assert(clean =~= path);
    assert(none + path =~= path);
    if names.len() == 0 {
        text::lemma_split_whole(path, '/');
        assert(text::split(clean, '/')[0].len() == 0);
    } else {
        lemma_join_head(names);
        assert(is_name(names[0]));
        assert(names[0].contains(names[0][0]));
        assert forall|i: int| 0 <= i < names.len() implies !(#[trigger] names[i]).contains('/') by {
            assert(is_name(names[i]));
        }
        text::lemma_split_join(names, '/');
    }
    assert forall|i: int| 0 <= i < text::split(clean, '/').len() implies #[trigger] text::split(
        clean,
        '/',
    )[i] != seq!['.', '.'] by {
        if names.len() > 0 {
            assert(is_name(names[i]));
        } else {
            assert(seq!['.', '.'].len() == 2);
        }
    }
    law_confined(none, path, platform);
    law_confined(slash, path, platform);
}

} // verus!
