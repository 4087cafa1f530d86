//! The page that the HTTP server shows for a folder.

use vstd::prelude::*;
use vstd::utf8::*;

use crate::common::Metadata;
use crate::httpd;
use crate::httpd::{html_escape, serve_content};
use crate::paths;
use crate::sizes;
use crate::sizes::format_size;
use crate::text;
use crate::text::{chars_of, ends_with_char, part_of, same_text};

verus! {

/// Something that lies in a folder.
pub struct FolderEntry {
    /// The bytes of its name, by which entries are ordered.
    pub key: Vec<u8>,
    /// Its name as text.
    pub name: String,
    /// What the disk says of it, if it says anything.
    pub meta: Option<Metadata>,
}

impl FolderEntry {
    pub open spec fn is_dir(self) -> bool {
        self.meta matches Some(m) && m.is_dir
    }
}

// ---------------------------------------------------------------------------
// Order
// ---------------------------------------------------------------------------

/// Whether `a` comes before `b` or is the same, byte by byte, the shorter one first.
pub open spec fn bytes_le(a: Seq<u8>, b: Seq<u8>) -> bool
    decreases a.len(),
{
    a.len() == 0 || (b.len() > 0 && (a[0] < b[0] || (a[0] == b[0] && bytes_le(a.skip(1), b.skip(1)))))
}

/// `s` with `e` in front of the first entry that it does not come after.
pub open spec fn insert_entry(e: FolderEntry, s: Seq<FolderEntry>) -> Seq<FolderEntry>
    decreases s.len(),
{
    if s.len() == 0 || bytes_le(e.key@, s[0].key@) {
        seq![e] + s
    } else {
        seq![s[0]] + insert_entry(e, s.skip(1))
    }
}

/// The entries by name; entries with the same name keep their order.
pub open spec fn by_name(s: Seq<FolderEntry>) -> Seq<FolderEntry>
    decreases s.len(),
{
    if s.len() == 0 {
        s
    } else {
        insert_entry(s[0], by_name(s.skip(1)))
    }
}

fn key_le(a: &Vec<u8>, b: &Vec<u8>) -> (r: bool)
    ensures
        r == bytes_le(a@, b@),
{
    let mut i: usize = 0;
    assert(a@.skip(0) =~= a@);
    assert(b@.skip(0) =~= b@);
    while i < a.len()
        invariant
            i <= a.len(),
            i <= b.len(),
            bytes_le(a@, b@) == bytes_le(a@.skip(i as int), b@.skip(i as int)),
        decreases a.len() - i,
    {
        assert(a@.skip(i as int).skip(1) =~= a@.skip(i + 1));
        if i == b.len() {
            return false;
        }
        assert(b@.skip(i as int).skip(1) =~= b@.skip(i + 1));
        if a[i] < b[i] {
            return true;
        }
        if a[i] > b[i] {
            return false;
        }
        i += 1;
    }
    true
}

/// Where `insert_entry` puts an entry.
proof fn lemma_insert_at(e: FolderEntry, s: Seq<FolderEntry>, n: int)
    requires
        0 <= n <= s.len(),
        forall|i: int| 0 <= i < n ==> !bytes_le(e.key@, (#[trigger] s[i]).key@),
        n < s.len() ==> bytes_le(e.key@, s[n].key@),
    ensures
        insert_entry(e, s) == s.insert(n, e),
    decreases n,
{
    if n == 0 {
        assert(seq![e] + s =~= s.insert(0, e));
    } else {
        assert(!bytes_le(e.key@, s[0].key@));
        let rest = s.skip(1);
        assert forall|i: int| 0 <= i < n - 1 implies !bytes_le(e.key@, (#[trigger] rest[i]).key@) by {
            assert(rest[i] == s[i + 1]);
        }
        lemma_insert_at(e, rest, n - 1);
        assert(seq![s[0]] + rest.insert(n - 1, e) =~= s.insert(n, e));
    }
}

/// The order of names is total.
proof fn lemma_le_total(a: Seq<u8>, b: Seq<u8>)
    ensures
        bytes_le(a, b) || bytes_le(b, a),
    decreases a.len(),
{
    if a.len() > 0 && b.len() > 0 {
        lemma_le_total(a.skip(1), b.skip(1));
    }
}

/// The order of names is transitive.
proof fn lemma_le_transitive(a: Seq<u8>, b: Seq<u8>, c: Seq<u8>)
    requires
        bytes_le(a, b),
        bytes_le(b, c),
    ensures
        bytes_le(a, c),
    decreases a.len(),
{
    if a.len() > 0 && a[0] == b[0] && b[0] == c[0] {
        lemma_le_transitive(a.skip(1), b.skip(1), c.skip(1));
    }
}

/// Whether every entry comes before all later ones, or has the same name.
pub open spec fn ordered(s: Seq<FolderEntry>) -> bool {
    forall|i: int, j: int|
        0 <= i < j < s.len() ==> bytes_le((#[trigger] s[i]).key@, (#[trigger] s[j]).key@)
}

/// Putting an entry in its place keeps the others, and keeps the order.
proof fn lemma_insert_keeps(e: FolderEntry, s: Seq<FolderEntry>)
    ensures
        insert_entry(e, s).to_multiset() == s.to_multiset().insert(e),
        ordered(s) ==> ordered(insert_entry(e, s)),
    decreases s.len(),
{
    broadcast use vstd::seq_lib::group_to_multiset_ensures;

    let out = insert_entry(e, s);
    if s.len() == 0 || bytes_le(e.key@, s[0].key@) {
        assert(seq![e] + s =~= s.insert(0, e));
        if ordered(s) {
            assert forall|i: int, j: int| 0 <= i < j < out.len() implies bytes_le(
                (#[trigger] out[i]).key@,
                (#[trigger] out[j]).key@,
            ) by {
                assert(out[j] == s[j - 1]);
                if i == 0 {
                    if j > 1 {
                        lemma_le_transitive(e.key@, s[0].key@, s[j - 1].key@);
                    }
                } else {
                    assert(out[i] == s[i - 1]);
                }
            }
        }
    } else {
        let rest = s.skip(1);
        let placed = insert_entry(e, rest);
        lemma_insert_keeps(e, rest);
        lemma_le_total(e.key@, s[0].key@);
        assert(rest.insert(0, s[0]) =~= s);
        assert(placed.insert(0, s[0]) =~= out);
        assert(out.to_multiset() =~= s.to_multiset().insert(e));
        if ordered(s) {
            assert forall|i: int, j: int| 0 <= i < j < rest.len() implies bytes_le(
                (#[trigger] rest[i]).key@,
                (#[trigger] rest[j]).key@,
            ) by {
                assert(rest[i] == s[i + 1] && rest[j] == s[j + 1]);
            }
            assert forall|i: int, j: int| 0 <= i < j < out.len() implies bytes_le(
                (#[trigger] out[i]).key@,
                (#[trigger] out[j]).key@,
            ) by {
                assert(out[j] == placed[j - 1]);
                if i > 0 {
                    assert(out[i] == placed[i - 1]);
                } else {
                    assert(placed.to_multiset().contains(placed[j - 1])) by {
                        assert(placed.contains(placed[j - 1]));
                    }
                    if placed[j - 1] != e {
                        assert(rest.to_multiset().contains(placed[j - 1]));
                        assert(rest.contains(placed[j - 1]));
                        let k = choose|k: int| 0 <= k < rest.len() && rest[k] == placed[j - 1];
                        assert(s[k + 1] == rest[k]);
                        assert(bytes_le(s[0].key@, s[k + 1].key@));
                    }
                }
            }
        }
    }
}

/// Putting entries in order loses none, adds none, and orders them.
pub proof fn law_by_name_orders(s: Seq<FolderEntry>)
    ensures
        by_name(s).to_multiset() == s.to_multiset(),
        ordered(by_name(s)),
    decreases s.len(),
{
    broadcast use vstd::seq_lib::group_to_multiset_ensures;

    if s.len() > 0 {
        law_by_name_orders(s.skip(1));
        lemma_insert_keeps(s[0], by_name(s.skip(1)));
        assert(s.skip(1).insert(0, s[0]) =~= s);
    }
}

/// Where an entry belongs among entries in order: in front of the first one that it does not come
/// after.
fn place_of(e: &FolderEntry, v: &Vec<FolderEntry>) -> (n: usize)
    requires
        ordered(v@),
    ensures
        n <= v.len(),
        forall|i: int| 0 <= i < n ==> !bytes_le(e.key@, (#[trigger] v@[i]).key@),
        n < v.len() ==> bytes_le(e.key@, v@[n as int].key@),
{
    let mut low: usize = 0;
    let mut high: usize = v.len();
    while low < high
        invariant
            low <= high <= v.len(),
            ordered(v@),
            forall|i: int| 0 <= i < low ==> !bytes_le(e.key@, (#[trigger] v@[i]).key@),
            high < v.len() ==> bytes_le(e.key@, v@[high as int].key@),
        decreases high - low,
    {
        let mid: usize = low + (high - low) / 2;
        if key_le(&e.key, &v[mid].key) {
            high = mid;
        } else {
            proof {
                assert forall|i: int| 0 <= i <= mid implies !bytes_le(
                    e.key@,
                    (#[trigger] v@[i]).key@,
                ) by {
                    if i < mid && bytes_le(e.key@, v@[i].key@) {
                        lemma_le_transitive(e.key@, v@[i].key@, v@[mid as int].key@);
                    }
                }
            }
            low = mid + 1;
        }
    }
    low
}

/// Puts the entries in order.
pub fn sort_entries(entries: Vec<FolderEntry>) -> (r: Vec<FolderEntry>)
    ensures
        r@ == by_name(entries@),
        r@.to_multiset() == entries@.to_multiset(),
        ordered(r@),
{
    proof {
        law_by_name_orders(entries@);
    }
    let ghost all = entries@;
    let mut left: Vec<FolderEntry> = entries;
    let mut out: Vec<FolderEntry> = Vec::new();
    assert(all.take(all.len() as int) =~= all);
    assert(all.skip(all.len() as int) =~= Seq::<FolderEntry>::empty());
    while left.len() > 0
        invariant
            left@.len() <= all.len(),
            left@ == all.take(left@.len() as int),
            out@ == by_name(all.skip(left@.len() as int)),
        decreases left.len(),
    {
        let ghost k = left@.len() - 1;
        let ghost before = out@;
        match left.pop() {
            Some(e) => {
                assert(e == all[k]);
                assert(left@ =~= all.take(k));
                proof {
                    law_by_name_orders(all.skip(k + 1));
                }
                let n: usize = place_of(&e, &out);
                proof {
                    lemma_insert_at(e, before, n as int);
                    assert(all.skip(k)[0] == e);
                    assert(all.skip(k).skip(1) =~= all.skip(k + 1));
                }
                out.insert(n, e);
            },
            None => {},
        }
    }
    assert(all.skip(0) =~= all);
    out
}

// ---------------------------------------------------------------------------
// The page
// ---------------------------------------------------------------------------

/// The path of the folder that a path other than the top lies in.
pub open spec fn parent_path(path: Seq<char>) -> Seq<char> {
    let n = httpd::last_at(path, '/');
    if n <= 0 {
        "/"@
    } else {
        path.take(n)
    }
}

/// What `last_at` says of a text with a separator in it and none behind it.
proof fn lemma_last_at(a: Seq<char>, b: Seq<char>, c: char)
    requires
        !b.contains(c),
    ensures
        httpd::last_at(a.push(c) + b, c) == a.len(),
    decreases b.len(),
{
    let all = a.push(c) + b;
    if b.len() == 0 {
        assert(all.last() == c);
    } else {
        assert(all.drop_last() =~= a.push(c) + b.drop_last());
        assert(b[b.len() - 1] != c);
        assert(!b.drop_last().contains(c)) by {
            if b.drop_last().contains(c) {
                let k = choose|k: int| 0 <= k < b.drop_last().len() && b.drop_last()[k] == c;
                assert(b[k] == c);
            }
        }
        lemma_last_at(a, b.drop_last(), c);
    }
}

/// The link to the parent folder leads up by one name.
pub proof fn law_parent_goes_up(names: Seq<Seq<char>>)
    requires
        paths::all_names(names),
        names.len() > 0,
    ensures
        parent_path(paths::rooted(names)) == paths::rooted(names.drop_last()),
{
    reveal_strlit("/");
    let front = names.drop_last();
    let last = names.last();
    assert(paths::is_name(names[names.len() - 1]));
    let path = paths::rooted(names);
    if names.len() == 1 {
        let top = Seq::<char>::empty();
        assert(path =~= top.push('/') + last);
        lemma_last_at(top, last, '/');
        assert(front =~= Seq::<Seq<char>>::empty());
        assert("/"@ =~= paths::rooted(front));
    } else {
        let up = paths::rooted(front);
        assert(path =~= up.push('/') + last);
        lemma_last_at(up, last, '/');
        assert(path.take(up.len() as int) =~= up);
    }
}

/// What stands behind the name of a folder, and of nothing else.
pub open spec fn folder_mark(e: FolderEntry) -> Seq<char> {
    if e.is_dir() {
        "/"@
    } else {
        ""@
    }
}

/// The link to an entry of the folder at `url_path`.
pub open spec fn entry_link(url_path: Seq<char>, e: FolderEntry) -> Seq<char> {
    url_path + (if url_path.len() > 0 && url_path.last() == '/' {
        Seq::empty()
    } else {
        "/"@
    }) + e.name@ + folder_mark(e)
}

/// The link to an entry leads to its name in the folder, if the name can be walked down by.
pub proof fn law_link_leads_to_entry(names: Seq<Seq<char>>, e: FolderEntry)
    requires
        paths::all_names(names),
        paths::is_name(e.name@),
    ensures
        paths::normal(entry_link(paths::rooted(names), e)) == paths::rooted(names.push(e.name@)),
{
    reveal_strlit("/");
    reveal_strlit("");
    let here = paths::rooted(names);
    let down = names.push(e.name@);
    let there = paths::rooted(down);
    let link = entry_link(here, e);
    assert(paths::all_names(down));
    assert(down.drop_last() =~= names);
    if names.len() > 0 {
        let last = names[names.len() - 1];
        assert(paths::is_name(last));
        assert(here.last() == last.last());
        assert(last[last.len() - 1] != '/') by {
            if last[last.len() - 1] == '/' {
                assert(last.contains('/'));
            }
        }
    }
    assert(here + (if here.last() == '/' {
        Seq::empty()
    } else {
        "/"@
    }) + e.name@ =~= there);
    paths::lemma_rooted_without_backslash(down);
    paths::lemma_split_rooted(down);
    if e.is_dir() {
        let end = Seq::<char>::empty();
        assert(link =~= there.push('/') + end);
        text::lemma_split_concat(there, end, '/');
        text::lemma_split_whole(end, '/');
        paths::lemma_walk_concat(Seq::empty(), text::split(there, '/'), seq![end]);
        assert(paths::walk(down, seq![end]) == down) by {
            reveal_with_fuel(paths::walk, 2);
        }
    } else {
        assert(link =~= there);
    }
    assert(text::replace(link, '\\', '/') =~= link);
}

/// The size that is shown for an entry.
pub open spec fn entry_size(e: FolderEntry) -> Seq<char> {
    match e.meta {
        Some(m) => if m.is_dir {
            "-"@
        } else {
            sizes::size_text(m.len as nat)
        },
        None => ""@,
    }
}

/// The row for an entry.
pub open spec fn entry_row(url_path: Seq<char>, e: FolderEntry) -> Seq<char> {
    "<tr><td><a href=\""@ + httpd::html_text(entry_link(url_path, e)) + "\">"@ + httpd::html_text(
        e.name@ + folder_mark(e),
    ) + "</a></td><td align=\"right\">"@ + entry_size(e) + "</td></tr>"@
}

/// The rows for entries, one after the other.
pub open spec fn entry_rows(url_path: Seq<char>, s: Seq<FolderEntry>) -> Seq<char>
    decreases s.len(),
{
    if s.len() == 0 {
        Seq::empty()
    } else {
        entry_rows(url_path, s.drop_last()) + entry_row(url_path, s.last())
    }
}

/// The row that leads to the parent folder; there is none at the top.
pub open spec fn parent_row(url_path: Seq<char>) -> Seq<char> {
    if url_path == "/"@ {
        Seq::empty()
    } else {
        "<tr><td><a href=\""@ + httpd::html_text(parent_path(url_path))
            + "\">../</a></td><td></td></tr>"@
    }
}

/// The beginning of the page of the folder at `url_path`.
pub open spec fn page_head(url_path: Seq<char>) -> Seq<char> {
    "<!DOCTYPE html><html><head><meta charset=\"utf-8\"><title>Index of "@ + httpd::html_text(
        url_path,
    )
        + "</title><style>body{font-family:sans-serif;margin:20px}a{text-decoration:none;color:#1565C0}a:hover{text-decoration:underline}table{border-collapse:collapse}td{padding:4px 16px}</style></head><body><h2>Index of "@
        + httpd::html_text(url_path) + "</h2><hr><table>"@
}

/// The page of the folder at `url_path` with these entries.
pub open spec fn folder_page(url_path: Seq<char>, entries: Seq<FolderEntry>) -> Seq<char> {
    page_head(url_path) + parent_row(url_path) + entry_rows(url_path, by_name(entries))
        + "</table><hr></body></html>"@
}

/// Whether `t` stands in a page for the text `s` and can be neither a tag nor the end of a link.
pub open spec fn stands_for(t: Seq<char>, s: Seq<char>) -> bool {
    httpd::html_shown(t) == s && httpd::is_inert(t)
}

/// Whether a row leads with `../` to the path `link`.
pub open spec fn leads_up(row: Seq<char>, link: Seq<char>) -> bool {
    let head = "<tr><td><a href=\""@;
    let tail = "\">../</a></td><td></td></tr>"@;
    let href = row.subrange(head.len() as int, row.len() - tail.len());
    row == head + href + tail && stands_for(href, link)
}

/// Whether a row has the link `link` under the words `label` and shows `size`.
pub open spec fn links_to(
    row: Seq<char>,
    href: Seq<char>,
    words: Seq<char>,
    link: Seq<char>,
    label: Seq<char>,
    size: Seq<char>,
) -> bool {
    &&& row == "<tr><td><a href=\""@ + href + "\">"@ + words + "</a></td><td align=\"right\">"@ + size
        + "</td></tr>"@
    &&& stands_for(href, link)
    &&& stands_for(words, label)
}

/// Whether a row shows the entry of the folder of `names`: its path and its name, both with a slash
/// behind them if it is a folder, and the size if it is something else.
pub open spec fn row_shows(
    row: Seq<char>,
    names: Seq<Seq<char>>,
    e: FolderEntry,
    href: Seq<char>,
    words: Seq<char>,
    size: Seq<char>,
) -> bool {
    let name = e.name@;
    let folder = e.meta is Some && e.meta->0.is_dir;
    let link = seq!['/'] + text::join(names.push(name), '/');
    &&& folder ==> links_to(row, href, words, link.push('/'), name.push('/'), size)
    &&& !folder ==> links_to(row, href, words, link, name, size)
    &&& size == if e.meta is None {
        Seq::<char>::empty()
    } else if e.meta->0.is_dir {
        seq!['-']
    } else {
        sizes::size_text(e.meta->0.len as nat)
    }
}

/// Whether a row shows the entry of the folder of `names`.
pub open spec fn is_row_of(row: Seq<char>, names: Seq<Seq<char>>, e: FolderEntry) -> bool {
    exists|href: Seq<char>, words: Seq<char>, size: Seq<char>| #[trigger]
        row_shows(row, names, e, href, words, size)
}

/// Whether a page is that of the folder of `names`, made of a title, a row that leads to the folder
/// above, and a row for each entry in the order of the names.
pub open spec fn shows_folder(
    html: Seq<char>,
    names: Seq<Seq<char>>,
    entries: Seq<FolderEntry>,
    title: Seq<char>,
    up: Seq<char>,
    rows: Seq<Seq<char>>,
    sorted: Seq<FolderEntry>,
) -> bool {
    &&& html
        == "<!DOCTYPE html><html><head><meta charset=\"utf-8\"><title>Index of "@ + title
        + "</title><style>body{font-family:sans-serif;margin:20px}a{text-decoration:none;color:#1565C0}a:hover{text-decoration:underline}table{border-collapse:collapse}td{padding:4px 16px}</style></head><body><h2>Index of "@
        + title + "</h2><hr><table>"@ + up + rows.flatten() + "</table><hr></body></html>"@
    &&& stands_for(title, paths::rooted(names))
    &&& names.len() == 0 ==> up.len() == 0
    &&& names.len() > 0 ==> leads_up(up, seq!['/'] + text::join(names.drop_last(), '/'))
    &&& sorted.to_multiset() == entries.to_multiset()
    &&& ordered(sorted)
    &&& rows.len() == sorted.len()
    &&& forall|i: int|
        0 <= i < rows.len() ==> is_row_of(#[trigger] rows[i], names, sorted[i])
}

/// The row of each entry.
pub open spec fn row_list(url_path: Seq<char>, s: Seq<FolderEntry>) -> Seq<Seq<char>> {
    Seq::new(s.len(), |i: int| entry_row(url_path, s[i]))
}

/// The rows of a page one behind the other.
proof fn lemma_rows(url_path: Seq<char>, s: Seq<FolderEntry>)
    ensures
        entry_rows(url_path, s) == row_list(url_path, s).flatten(),
    decreases s.len(),
{
    if s.len() == 0 {
        assert(row_list(url_path, s) =~= Seq::<Seq<char>>::empty());
    } else {
        let front = row_list(url_path, s.drop_last());
        lemma_rows(url_path, s.drop_last());
        assert(row_list(url_path, s) =~= front.push(entry_row(url_path, s.last())));
        front.lemma_flatten_push(entry_row(url_path, s.last()));
    }
}

/// The row of an entry shows it.
pub proof fn law_row_shows_entry(names: Seq<Seq<char>>, e: FolderEntry)
    requires
        paths::all_names(names),
    ensures
        row_shows(
            entry_row(paths::rooted(names), e),
            names,
            e,
            httpd::html_text(entry_link(paths::rooted(names), e)),
            httpd::html_text(e.name@ + folder_mark(e)),
            entry_size(e),
        ),
{
    reveal_strlit("/");
    reveal_strlit("");
    reveal_strlit("-");
    let here = paths::rooted(names);
    let link = entry_link(here, e);
    let label = e.name@ + folder_mark(e);
    httpd::law_page_shows_the_text(link);
    httpd::law_escaped_text_is_inert(link);
    httpd::law_page_shows_the_text(label);
    httpd::law_escaped_text_is_inert(label);
    let down = names.push(e.name@);
    let there = seq!['/'] + text::join(down, '/');
    assert(down.drop_last() =~= names);
    if names.len() > 0 {
        let last = names[names.len() - 1];
        assert(paths::is_name(last));
        assert(here.last() == last.last());
        assert(last[last.len() - 1] != '/') by {
            if last[last.len() - 1] == '/' {
                assert(last.contains('/'));
            }
        }
    }
    assert(here + (if here.last() == '/' {
        Seq::empty()
    } else {
        "/"@
    }) + e.name@ =~= there);
    assert("/"@ =~= seq!['/']);
    if e.is_dir() {
        assert(link =~= there.push('/'));
        assert(label =~= e.name@.push('/'));
    } else {
        assert(link =~= there);
        assert(label =~= e.name@);
    }
    assert("-"@ =~= seq!['-']);
    assert(""@ =~= Seq::<char>::empty());
}

/// The page of a folder shows where it is, leads to the folder above it by the row directly behind
/// the beginning of the table, except at the top, and has a row for each entry.
pub proof fn law_page_shows_folder(names: Seq<Seq<char>>, entries: Seq<FolderEntry>)
    requires
        paths::all_names(names),
    ensures
        exists|title: Seq<char>, up: Seq<char>, rows: Seq<Seq<char>>, sorted: Seq<FolderEntry>|
            #[trigger] shows_folder(
                folder_page(paths::rooted(names), entries),
                names,
                entries,
                title,
                up,
                rows,
                sorted,
            ),
{
    reveal_strlit("/");
    let here = paths::rooted(names);
    let html = folder_page(here, entries);
    let title = httpd::html_text(here);
    let up = parent_row(here);
    let sorted = by_name(entries);
    let rows = row_list(here, sorted);
    httpd::law_page_shows_the_text(here);
    httpd::law_escaped_text_is_inert(here);
    law_by_name_orders(entries);
    lemma_rows(here, sorted);
    if names.len() == 0 {
        assert(here =~= "/"@);
    } else {
        law_parent_goes_up(names);
        let above = paths::rooted(names.drop_last());
        httpd::law_page_shows_the_text(above);
        httpd::law_escaped_text_is_inert(above);
        let head = "<tr><td><a href=\""@;
        let tail = "\">../</a></td><td></td></tr>"@;
        paths::lemma_join_head(names);
        assert(paths::is_name(names[0]));
        assert(here.len() > 1);
        assert(up == head + httpd::html_text(above) + tail);
        assert(up.subrange(head.len() as int, up.len() - tail.len()) =~= httpd::html_text(above));
        assert(above =~= seq!['/'] + text::join(names.drop_last(), '/'));
    }
    assert forall|i: int| 0 <= i < rows.len() implies is_row_of(
        #[trigger] rows[i],
        names,
        sorted[i],
    ) by {
        law_row_shows_entry(names, sorted[i]);
        assert(rows[i] == entry_row(here, sorted[i]));
    }
    assert(sorted.to_multiset() == entries.to_multiset());
    assert(shows_folder(html, names, entries, title, up, rows, sorted));
}

/// Names are ordered by the first byte in which they differ; a name comes before every longer one that
/// it begins.
pub proof fn law_names_are_ordered_by_bytes(
    same: Seq<u8>,
    x: u8,
    y: u8,
    a: Seq<u8>,
    b: Seq<u8>,
)
    ensures
        x < y ==> bytes_le(same.push(x) + a, same.push(y) + b),
        x < y ==> !bytes_le(same.push(y) + b, same.push(x) + a),
        bytes_le(same, same.push(x) + a),
        !bytes_le(same.push(x) + a, same),
        bytes_le(same, same),
    decreases same.len(),
{
    let p = same.push(x) + a;
    let q = same.push(y) + b;
    if same.len() == 0 {
        assert(p[0] == x && q[0] == y);
    } else {
        let rest = same.skip(1);
        law_names_are_ordered_by_bytes(rest, x, y, a, b);
        assert(p.skip(1) =~= rest.push(x) + a);
        assert(q.skip(1) =~= rest.push(y) + b);
        assert(p[0] == same[0] && q[0] == same[0]);
    }
}

/// The path of the folder that a path lies in.
pub fn parent_of(path: &str) -> (r: String)
    ensures
        r@ == parent_path(path@),
{
    let v: Vec<char> = chars_of(path);
    let mut n: usize = v.len();
    assert(v@.take(n as int) =~= v@);
    while n > 0 && v[n - 1] != '/'
        invariant
            n <= v.len(),
            httpd::last_at(v@, '/') == httpd::last_at(v@.take(n as int), '/'),
        decreases n,
    {
        assert(v@.take(n as int).drop_last() =~= v@.take(n - 1));
        n -= 1;
    }
    assert(httpd::last_at(v@, '/') == n - 1);
    if n <= 1 {
        "/".to_owned()
    } else {
        let r: String = part_of(&v, 0, n - 1);
        assert(r@ =~= v@.take(n - 1));
        r
    }
}

fn build_row(url_path: &str, e: &FolderEntry) -> (row: String)
    ensures
        row@ == entry_row(url_path@, *e),
{
    let is_dir: bool = match &e.meta {
        Some(m) => m.is_dir,
        None => false,
    };
    let mark: &str = if is_dir {
        "/"
    } else {
        ""
    };
    let size: String = match &e.meta {
        Some(m) => if m.is_dir {
            "-".to_owned()
        } else {
            format_size(m.len)
        },
        None => "".to_owned(),
    };
    let mut link: String = url_path.to_owned();
    if ends_with_char(url_path, '/') {
        assert(link@ + Seq::<char>::empty() =~= link@);
    } else {
        link.append("/");
    }
    link.append(e.name.as_str());
    link.append(mark);
    let mut shown: String = e.name.clone();
    shown.append(mark);
    let href: String = html_escape(link.as_str());
    let label: String = html_escape(shown.as_str());
    let mut row: String = "<tr><td><a href=\"".to_owned();
    row.append(href.as_str());
    row.append("\">");
    row.append(label.as_str());
    row.append("</a></td><td align=\"right\">");
    row.append(size.as_str());
    row.append("</td></tr>");
    row
}

/// The page of the folder at `url_path` with these entries.
pub fn build_page(url_path: &str, entries: Vec<FolderEntry>) -> (html: String)
    requires
        paths::is_normal(url_path@),
    ensures
        html@ == folder_page(url_path@, entries@),
        forall|names: Seq<Seq<char>>| #[trigger]
            paths::all_names(names) && url_path@ == paths::rooted(names) ==> exists|
                title: Seq<char>,
                up: Seq<char>,
                rows: Seq<Seq<char>>,
                sorted: Seq<FolderEntry>,
            |
                #[trigger] shows_folder(html@, names, entries@, title, up, rows, sorted),
{
    proof {
        assert forall|names: Seq<Seq<char>>| #[trigger]
            paths::all_names(names) && url_path@ == paths::rooted(names) implies exists|
            title: Seq<char>,
            up: Seq<char>,
            rows: Seq<Seq<char>>,
            sorted: Seq<FolderEntry>,
        |
            #[trigger] shows_folder(
                folder_page(url_path@, entries@),
                names,
                entries@,
                title,
                up,
                rows,
                sorted,
            ) by {
            law_page_shows_folder(names, entries@);
        }
    }
    let escaped: String = html_escape(url_path);
    let mut html: String =
        "<!DOCTYPE html><html><head><meta charset=\"utf-8\"><title>Index of ".to_owned();
    html.append(escaped.as_str());
    html.append(
        "</title><style>body{font-family:sans-serif;margin:20px}a{text-decoration:none;color:#1565C0}a:hover{text-decoration:underline}table{border-collapse:collapse}td{padding:4px 16px}</style></head><body><h2>Index of ",
    );
    html.append(escaped.as_str());
    html.append("</h2><hr><table>");
    let ghost head = html@;
    assert(head == page_head(url_path@));
    if same_text(url_path, "/") {
        assert(head + parent_row(url_path@) =~= head);
    } else {
        let parent: String = parent_of(url_path);
        let escaped_parent: String = html_escape(parent.as_str());
        let mut row: String = "<tr><td><a href=\"".to_owned();
        row.append(escaped_parent.as_str());
        row.append("\">../</a></td><td></td></tr>");
        html.append(row.as_str());
    }
    let ghost start = html@;
    let sorted: Vec<FolderEntry> = sort_entries(entries);
    let mut i: usize = 0;
    assert(sorted@.take(0) =~= Seq::<FolderEntry>::empty());
    assert(start + entry_rows(url_path@, sorted@.take(0)) =~= start);
    while i < sorted.len()
        invariant
            i <= sorted.len(),
            html@ == start + entry_rows(url_path@, sorted@.take(i as int)),
        decreases sorted.len() - i,
    {
        assert(sorted@.take(i + 1).drop_last() =~= sorted@.take(i as int));
        let ghost before = html@;
        let row: String = build_row(url_path, &sorted[i]);
        html.append(row.as_str());
        assert(html@ =~= start + entry_rows(url_path@, sorted@.take(i + 1)));
        i += 1;
    }
    assert(sorted@.take(sorted@.len() as int) =~= sorted@);
    html.append("</table><hr></body></html>");
    html
}

/// What is sent for the folder at `url_path`. A folder that cannot be read is shown without
/// entries.
pub fn serve_directory(url_path: &str, entries: Option<Vec<FolderEntry>>, head_only: bool) -> (r: Vec<
    u8,
>)
    requires
        paths::is_normal(url_path@),
    ensures
        r@ == httpd::content_response(
            "text/html; charset=utf-8"@,
            encode_utf8(
                folder_page(
                    url_path@,
                    match entries {
                        Some(v) => v@,
                        None => Seq::empty(),
                    },
                ),
            ),
            head_only,
        ),
{
    let list: Vec<FolderEntry> = match entries {
        Some(v) => v,
        None => Vec::new(),
    };
    let html: String = build_page(url_path, list);
    serve_content("text/html; charset=utf-8", html.as_str().as_bytes(), head_only)
}

/// Entries with the same name keep their order.
pub proof fn law_same_names_keep_their_order(s: Seq<FolderEntry>, key: Seq<u8>)
    ensures
        by_name(s).filter(|e: FolderEntry| e.key@ == key) == s.filter(
            |e: FolderEntry| e.key@ == key,
        ),
    decreases s.len(),
{
    let same = |e: FolderEntry| e.key@ == key;
    if s.len() > 0 {
        let rest = s.skip(1);
        law_same_names_keep_their_order(rest, key);
        lemma_insert_filter(s[0], by_name(rest), key);
        assert(s =~= seq![s[0]] + rest);
        Seq::filter_distributes_over_add(seq![s[0]], rest, same);
    }
}

/// Putting an entry in its place puts it in front of all entries with the same name.
proof fn lemma_insert_filter(e: FolderEntry, s: Seq<FolderEntry>, key: Seq<u8>)
    ensures
        ({
            let same = |x: FolderEntry| x.key@ == key;
            insert_entry(e, s).filter(same) == seq![e].filter(same) + s.filter(same)
        }),
    decreases s.len(),
{
    let same = |x: FolderEntry| x.key@ == key;
    if s.len() == 0 || bytes_le(e.key@, s[0].key@) {
        Seq::filter_distributes_over_add(seq![e], s, same);
    } else {
        let head = seq![s[0]];
        let rest = s.skip(1);
        lemma_insert_filter(e, rest, key);
        Seq::filter_distributes_over_add(head, insert_entry(e, rest), same);
        Seq::filter_distributes_over_add(head, rest, same);
        assert(s =~= head + rest);
        law_names_are_ordered_by_bytes(e.key@, 0, 0, Seq::empty(), Seq::empty());
        assert(e.key@ != s[0].key@);
        lemma_filter_one(e, key);
        lemma_filter_one(s[0], key);
        assert(insert_entry(e, s).filter(same) =~= seq![e].filter(same) + s.filter(same));
    }
}

proof fn lemma_filter_one(e: FolderEntry, key: Seq<u8>)
    ensures
        seq![e].filter(|x: FolderEntry| x.key@ == key) == if e.key@ == key {
            seq![e]
        } else {
            Seq::<FolderEntry>::empty()
        },
{
    reveal_with_fuel(Seq::filter, 2);
    assert(seq![e].drop_last() =~= Seq::<FolderEntry>::empty());
    assert(seq![e].last() == e);
    assert(Seq::<FolderEntry>::empty().push(e) =~= seq![e]);
}

} // verus!
