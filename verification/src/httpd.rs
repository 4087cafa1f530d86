//! The HTTP server: requests, responses and folder pages.

use vstd::prelude::*;
use vstd::utf8::*;

use crate::common;
use crate::common::{is_within_root, CanonicalPath, PathFacts};
use crate::digits;
use crate::digits::decimal_string;
use crate::lines::LineBuffer;
use crate::paths;
use crate::paths::{confine, root_names, walk_path, Platform};
use crate::text;
use crate::text::{
    append_bytes, chars_of, find_byte, part_of, replaced, same_text, split_at, string_of, trimmed,
    words_of,
};
use crate::unicode;
use crate::unicode::{text_lossy, to_lower};

verus! {

/// A line of a request is refused when more of its bytes than this are there without its line break.
pub const MAX_REQUEST_LINE: usize = 8192;

/// How the server is set up.
pub struct HttpConfig {
    pub root_dir: String,
    pub port: u16,
    pub bind_addr: String,
}

impl Clone for HttpConfig {
    fn clone(&self) -> (r: Self)
        ensures
            r == *self,
    {
        HttpConfig {
            root_dir: self.root_dir.clone(),
            port: self.port,
            bind_addr: self.bind_addr.clone(),
        }
    }
}

// ---------------------------------------------------------------------------
// Responses
// ---------------------------------------------------------------------------

/// The header of a response.
pub open spec fn header_text(
    status: u16,
    status_text: Seq<char>,
    content_type: Seq<char>,
    length: nat,
) -> Seq<char> {
    "HTTP/1.1 "@ + digits::decimal(status as nat) + " "@ + status_text + "\r\nContent-Type: "@
        + content_type + "\r\nContent-Length: "@ + digits::decimal(length)
        + "\r\nConnection: close\r\n\r\n"@
}

/// A whole response: the header, then the body.
pub open spec fn response_bytes(
    status: u16,
    status_text: Seq<char>,
    content_type: Seq<char>,
    body: Seq<u8>,
) -> Seq<u8> {
    encode_utf8(header_text(status, status_text, content_type, body.len())) + body
}

/// Whether `h` is the header of a response with `code` and `size` for its two numbers.
pub open spec fn is_header(
    h: Seq<char>,
    status: nat,
    status_text: Seq<char>,
    content_type: Seq<char>,
    length: nat,
    code: Seq<char>,
    size: Seq<char>,
) -> bool {
    &&& h == "HTTP/1.1 "@ + code + " "@ + status_text + "\r\nContent-Type: "@ + content_type
        + "\r\nContent-Length: "@ + size + "\r\nConnection: close\r\n\r\n"@
    &&& digits::writes(code, status)
    &&& digits::writes(size, length)
}

/// The header of a response tells the status, the type and the length of the body.
pub proof fn law_header(status: u16, status_text: Seq<char>, content_type: Seq<char>, length: nat)
    ensures
        exists|code: Seq<char>, size: Seq<char>| #[trigger]
            is_header(
                header_text(status, status_text, content_type, length),
                status as nat,
                status_text,
                content_type,
                length,
                code,
                size,
            ),
{
    digits::law_decimal_writes(status as nat);
    digits::law_decimal_writes(length);
    assert(is_header(
        header_text(status, status_text, content_type, length),
        status as nat,
        status_text,
        content_type,
        length,
        digits::decimal(status as nat),
        digits::decimal(length),
    ));
}

/// A response is a header that tells the length of the body, and then the body.
pub proof fn law_response(
    status: u16,
    status_text: Seq<char>,
    content_type: Seq<char>,
    body: Seq<u8>,
)
    ensures
        exists|h: Seq<char>, code: Seq<char>, size: Seq<char>| #[trigger]
            is_header(h, status as nat, status_text, content_type, body.len(), code, size)
                && response_bytes(status, status_text, content_type, body) == encode_utf8(h) + body,
        exists|h: Seq<char>, code: Seq<char>, size: Seq<char>| #[trigger]
            is_header(h, 200, "OK"@, content_type, body.len(), code, size)
                && content_response(content_type, body, false) == encode_utf8(h) + body
                && content_response(content_type, body, true) == encode_utf8(h),
{
    law_header(status, status_text, content_type, body.len());
    law_header(200, "OK"@, content_type, body.len());
    let h = encode_utf8(header_text(200, "OK"@, content_type, body.len()));
    assert(h + Seq::<u8>::empty() =~= h);
}

/// The header of a response.
pub fn build_header(status: u16, status_text: &str, content_type: &str, length: usize) -> (s: String)
    ensures
        s@ == header_text(status, status_text@, content_type@, length as nat),
        exists|code: Seq<char>, size: Seq<char>| #[trigger]
            is_header(
                s@,
                status as nat,
                status_text@,
                content_type@,
                length as nat,
                code,
                size,
            ),
{
    proof {
        law_header(status, status_text@, content_type@, length as nat);
    }
    let mut s: String = "HTTP/1.1 ".to_owned();
    let code: String = decimal_string(status as u64);
    s.append(code.as_str());
    s.append(" ");
    s.append(status_text);
    s.append("\r\nContent-Type: ");
    s.append(content_type);
    s.append("\r\nContent-Length: ");
    let size: String = decimal_string(length as u64);
    s.append(size.as_str());
    s.append("\r\nConnection: close\r\n\r\n");
    s
}

/// A whole response: the header, then the body.
pub fn build_response(status: u16, status_text: &str, content_type: &str, body: &[u8]) -> (r: Vec<u8>)
    ensures
        r@ == response_bytes(status, status_text@, content_type@, body@),
{
    let header: String = build_header(status, status_text, content_type, body.len());
    let mut r: Vec<u8> = Vec::new();
    append_bytes(&mut r, header.as_str().as_bytes());
    append_bytes(&mut r, body);
    assert(r@ =~= response_bytes(status, status_text@, content_type@, body@));
    r
}

/// A response whose body is a text.
pub open spec fn text_response(
    status: u16,
    status_text: Seq<char>,
    content_type: Seq<char>,
    body: Seq<char>,
) -> Seq<u8> {
    response_bytes(status, status_text, content_type, encode_utf8(body))
}

fn build_text_response(status: u16, status_text: &str, content_type: &str, body: &str) -> (r: Vec<u8>)
    ensures
        r@ == text_response(status, status_text@, content_type@, body@),
{
    build_response(status, status_text, content_type, body.as_bytes())
}

/// What is sent for content that was found: the header, and the body unless only the header was
/// asked for.
pub open spec fn content_response(content_type: Seq<char>, body: Seq<u8>, head_only: bool) -> Seq<
    u8,
> {
    encode_utf8(header_text(200, "OK"@, content_type, body.len())) + if head_only {
        Seq::empty()
    } else {
        body
    }
}

/// What is sent for content that was found.
pub fn serve_content(content_type: &str, body: &[u8], head_only: bool) -> (r: Vec<u8>)
    ensures
        r@ == content_response(content_type@, body@, head_only),
{
    let header: String = build_header(200, "OK", content_type, body.len());
    let mut r: Vec<u8> = Vec::new();
    append_bytes(&mut r, header.as_str().as_bytes());
    if !head_only {
        append_bytes(&mut r, body);
    }
    assert(r@ =~= content_response(content_type@, body@, head_only));
    r
}

/// The answer to HEAD is the header of the answer to GET: the one is the beginning of the other,
/// and what is left is the body.
pub proof fn law_head_is_the_header_of_get(content_type: Seq<char>, body: Seq<u8>)
    ensures
        content_response(content_type, body, false) == content_response(content_type, body, true)
            + body,
        content_response(content_type, body, false) == response_bytes(
            200,
            "OK"@,
            content_type,
            body,
        ),
{
    let header = encode_utf8(header_text(200, "OK"@, content_type, body.len()));
    assert(header + Seq::<u8>::empty() =~= header);
}

// ---------------------------------------------------------------------------
// Reading a request
// ---------------------------------------------------------------------------

/// What reading a line came to.
pub enum Input {
    /// A line, or what there was of it at the end of the input.
    Line(String),
    /// The end of the input.
    End,
    /// A line that is too long, or a failure.
    Failed,
}

/// Starts a line of a request. A line that comes to its end in the chunk that passes the limit is
/// taken.
pub fn new_line() -> (b: LineBuffer)
    ensures
        b.buf@ == Seq::<u8>::empty(),
        b.limit == MAX_REQUEST_LINE,
        b.limit == 8192,
        !b.exact,
{
    LineBuffer::new(MAX_REQUEST_LINE, false)
}

/// The text of a line that was read; a line that was ended by a line break keeps it.
pub fn line_text(line: Vec<u8>, ended: bool) -> (s: String)
    ensures
        s@ == unicode::utf8_lossy(
            if ended {
                line@.push(10)
            } else {
                line@
            },
        ),
        !ended && valid_utf8(line@) ==> s@ == decode_utf8(line@),
        ended && valid_utf8(line@.push(10)) ==> s@ == decode_utf8(line@.push(10)),
{
    let mut bytes: Vec<u8> = line;
    if ended {
        bytes.push(10);
    }
    text_lossy(bytes.as_slice())
}

/// What follows the first line of a request.
pub enum FirstStep {
    /// Read the header lines, then act on this request line.
    Headers(String),
    /// Close the connection.
    Close,
    /// Send this response and close.
    Respond(Vec<u8>),
}

/// What follows the first line of a request.
pub fn on_request_line(input: Input) -> (r: FirstStep)
    ensures
        match input {
            Input::Line(line) => r == FirstStep::Headers(line),
            Input::End => r is Close,
            Input::Failed => r matches FirstStep::Respond(b) && b@ == text_response(
                414,
                "URI Too Long"@,
                "text/plain"@,
                "URI Too Long"@,
            ),
        },
{
    match input {
        Input::Line(line) => FirstStep::Headers(line),
        Input::End => FirstStep::Close,
        Input::Failed => FirstStep::Respond(
            build_text_response(414, "URI Too Long", "text/plain", "URI Too Long"),
        ),
    }
}

/// What follows a header line.
pub enum HeaderStep {
    /// Read the next header line.
    More,
    /// The headers are over.
    Over,
    /// Send this response and close.
    Respond(Vec<u8>),
}

/// What follows a header line: an empty one ends the headers, as does the end of the input.
pub fn on_header(input: &Input) -> (r: HeaderStep)
    ensures
        match *input {
            Input::Line(line) => if text::trim(line@).len() == 0 {
                r is Over
            } else {
                r is More
            },
            Input::End => r is Over,
            Input::Failed => r matches HeaderStep::Respond(b) && b@ == text_response(
                431,
                "Request Header Fields Too Large"@,
                "text/plain"@,
                "Header too large"@,
            ),
        },
{
    match input {
        Input::Line(line) => {
            let rest: String = trimmed(line.as_str());
            if rest.as_str().is_empty() {
                HeaderStep::Over
            } else {
                HeaderStep::More
            }
        },
        Input::End => HeaderStep::Over,
        Input::Failed => HeaderStep::Respond(
            build_text_response(
                431,
                "Request Header Fields Too Large",
                "text/plain",
                "Header too large",
            ),
        ),
    }
}

/// What a request line asks for.
pub enum Wanted {
    /// A path, as it stands in the request, or only the header of the answer.
    Path { raw_path: String, head_only: bool },
    /// Nothing that is served; this is the response.
    Nothing(Vec<u8>),
}

/// What a request line asks for: it needs two words, and the first must be GET or HEAD.
pub fn parse_request_line(line: &str) -> (r: Wanted)
    ensures
        ({
            let w = text::words(line@);
            if w.len() < 2 {
                r matches Wanted::Nothing(b) && b@ == text_response(
                    400,
                    "Bad Request"@,
                    "text/plain"@,
                    "Bad Request"@,
                )
            } else if w[0] != "GET"@ && w[0] != "HEAD"@ {
                r matches Wanted::Nothing(b) && b@ == text_response(
                    405,
                    "Method Not Allowed"@,
                    "text/plain"@,
                    "Method Not Allowed"@,
                )
            } else {
                r matches Wanted::Path { raw_path, head_only } && raw_path@ == w[1] && head_only == (
                w[0] == "HEAD"@)
            }
        }),
{
    let w: Vec<Vec<char>> = words_of(line);
    let ghost all = text::words(line@);
    assert(all.len() == w@.len());
    if w.len() < 2 {
        return Wanted::Nothing(
            build_text_response(400, "Bad Request", "text/plain", "Bad Request"),
        );
    }
    assert(all[0] == w@[0]@ && all[1] == w@[1]@);
    let method: String = string_of(w[0].as_slice());
    let head_only: bool = same_text(method.as_str(), "HEAD");
    if !head_only && !same_text(method.as_str(), "GET") {
        return Wanted::Nothing(
            build_text_response(
                405,
                "Method Not Allowed",
                "text/plain",
                "Method Not Allowed",
            ),
        );
    }
    let raw_path: String = string_of(w[1].as_slice());
    Wanted::Path { raw_path, head_only }
}

// ---------------------------------------------------------------------------
// Paths in requests
// ---------------------------------------------------------------------------

/// The bytes of a requested path up to the query.
pub open spec fn path_bytes(s: Seq<char>) -> Seq<u8> {
    encode_utf8(s).take(text::first_at(encode_utf8(s), 63u8))
}

/// The value of a hexadecimal digit.
pub open spec fn hex_digit(b: u8) -> Option<u8> {
    if 48 <= b <= 57 {
        Some((b - 48) as u8)
    } else if 65 <= b <= 70 {
        Some((b - 55) as u8)
    } else if 97 <= b <= 102 {
        Some((b - 87) as u8)
    } else {
        None
    }
}

/// The byte that the two characters after a percent sign stand for: two hexadecimal digits, or a
/// plus sign and one digit.
pub open spec fn escape_value(a: u8, b: u8) -> Option<u8> {
    match (hex_digit(a), hex_digit(b)) {
        (Some(x), Some(y)) => Some((x * 16 + y) as u8),
        (None, Some(y)) => if a == 43 {
            Some(y)
        } else {
            None
        },
        _ => None,
    }
}

/// Whether the bytes begin with a percent sign and what it stands for.
pub open spec fn begins_with_escape(b: Seq<u8>) -> bool {
    b.len() > 2 && b[0] == 37 && escape_value(b[1], b[2]) is Some
}

/// The bytes with every escape replaced by the byte that it stands for; a percent sign that begins
/// no escape stays.
pub open spec fn unescape_bytes(b: Seq<u8>) -> Seq<u8>
    decreases b.len(),
{
    if b.len() == 0 {
        b
    } else if begins_with_escape(b) {
        seq![escape_value(b[1], b[2])->0] + unescape_bytes(b.skip(3))
    } else {
        seq![b[0]] + unescape_bytes(b.skip(1))
    }
}

/// Whether no two bytes after a percent sign cut a character in two.
pub open spec fn cuts_no_character(b: Seq<u8>) -> bool
    decreases b.len(),
{
    b.len() > 0 ==> {
        &&& b[0] == 37 && b.len() > 3 ==> !is_continuation_byte(b[3])
        &&& if begins_with_escape(b) {
            cuts_no_character(b.skip(3))
        } else {
            cuts_no_character(b.skip(1))
        }
    }
}

fn hex(b: u8) -> (r: Option<u8>)
    ensures
        r == hex_digit(b),
        r matches Some(v) ==> v < 16,
{
    if 48 <= b && b <= 57 {
        Some(b - 48)
    } else if 65 <= b && b <= 70 {
        Some(b - 55)
    } else if 97 <= b && b <= 102 {
        Some(b - 87)
    } else {
        None
    }
}

fn escape(a: u8, b: u8) -> (r: Option<u8>)
    ensures
        r == escape_value(a, b),
{
    match (hex(a), hex(b)) {
        (Some(x), Some(y)) => Some(x * 16 + y),
        (None, Some(y)) => if a == 43 {
            Some(y)
        } else {
            None
        },
        _ => None,
    }
}

/// The escape that `b` holds at `i`, if it holds one.
fn escape_at(b: &[u8], i: usize) -> (r: Option<u8>)
    requires
        i < b.len(),
    ensures
        r is Some <==> begins_with_escape(b@.skip(i as int)),
        r matches Some(v) ==> Some(v) == escape_value(b@[i + 1], b@[i + 2]),
{
    if b[i] == 37 && b.len() - i > 2 {
        escape(b[i + 1], b[i + 2])
    } else {
        None
    }
}

/// Whether a requested path can be decoded: no two bytes after a percent sign cut a character in
/// two.
pub fn can_decode(s: &str) -> (r: bool)
    ensures
        r == cuts_no_character(path_bytes(s@)),
{
    let all: &[u8] = s.as_bytes();
    let n: usize = find_byte(all, 63);
    let b: &[u8] = &all[0..n];
    assert(b@ =~= path_bytes(s@));
    let mut i: usize = 0;
    assert(b@.skip(0) =~= b@);
    while i < b.len()
        invariant
            i <= b.len(),
            b@ == path_bytes(s@),
            cuts_no_character(b@) == cuts_no_character(b@.skip(i as int)),
        decreases b.len() - i,
    {
        let ghost rest = b@.skip(i as int);
        assert(rest.skip(1) =~= b@.skip(i + 1));
        if b[i] == 37 && b.len() - i > 3 && 0x80 <= b[i + 3] && b[i + 3] <= 0xbf {
            assert(rest[3] == b@[i + 3]);
            return false;
        }
        assert(rest.len() > 3 ==> rest[3] == b@[i + 3]);
        match escape_at(b, i) {
            Some(v) => {
                assert(rest.skip(3) =~= b@.skip(i + 3));
                i += 3;
            },
            None => {
                i += 1;
            },
        }
    }
    true
}

/// The text of a requested path: up to the query, with escapes decoded.
pub fn url_decode(s: &str) -> (r: String)
    requires
        cuts_no_character(path_bytes(s@)),
    ensures
        r@ == unicode::utf8_lossy(unescape_bytes(path_bytes(s@))),
        valid_utf8(unescape_bytes(path_bytes(s@))) ==> r@ == decode_utf8(
            unescape_bytes(path_bytes(s@)),
        ),
{
    let all: &[u8] = s.as_bytes();
    let n: usize = find_byte(all, 63);
    let b: &[u8] = &all[0..n];
    assert(b@ =~= path_bytes(s@));
    let mut out: Vec<u8> = Vec::new();
    let mut i: usize = 0;
    assert(b@.skip(0) =~= b@);
    assert(out@ + unescape_bytes(b@) =~= unescape_bytes(b@));
    while i < b.len()
        invariant
            i <= b.len(),
            out@ + unescape_bytes(b@.skip(i as int)) == unescape_bytes(b@),
        decreases b.len() - i,
    {
        let ghost rest = b@.skip(i as int);
        let ghost before = out@;
        match escape_at(b, i) {
            Some(v) => {
                out.push(v);
                assert(rest.skip(3) =~= b@.skip(i + 3));
                assert(out@ + unescape_bytes(b@.skip(i + 3)) =~= before + unescape_bytes(rest));
                i += 3;
            },
            None => {
                out.push(b[i]);
                assert(rest.skip(1) =~= b@.skip(i + 1));
                assert(out@ + unescape_bytes(b@.skip(i + 1)) =~= before + unescape_bytes(rest));
                i += 1;
            },
        }
    }
    assert(b@.skip(b@.len() as int) =~= Seq::<u8>::empty());
    assert(out@ =~= unescape_bytes(b@));
    text_lossy(out.as_slice())
}

/// Bytes without a percent sign stay as they are, and cut no character.
proof fn lemma_no_escapes(b: Seq<u8>)
    requires
        !b.contains(37u8),
    ensures
        unescape_bytes(b) == b,
        cuts_no_character(b),
    decreases b.len(),
{
    if b.len() > 0 {
        assert(b[0] != 37);
        assert(!b.skip(1).contains(37u8)) by {
            if b.skip(1).contains(37u8) {
                let k = choose|k: int| 0 <= k < b.skip(1).len() && b.skip(1)[k] == 37u8;
                assert(b[k + 1] == 37u8);
            }
        }
        lemma_no_escapes(b.skip(1));
        assert(seq![b[0]] + b.skip(1) =~= b);
    }
}

/// A path that holds no percent sign and no question mark can be decoded, and stands for itself.
pub proof fn law_plain_path_is_itself(s: Seq<char>)
    requires
        !encode_utf8(s).contains(37u8),
        !encode_utf8(s).contains(63u8),
    ensures
        cuts_no_character(path_bytes(s)),
        valid_utf8(unescape_bytes(path_bytes(s))),
        decode_utf8(unescape_bytes(path_bytes(s))) == s,
{
    text::lemma_first_at(encode_utf8(s), 63u8);
    assert(path_bytes(s) =~= encode_utf8(s));
    lemma_no_escapes(encode_utf8(s));
    encode_utf8_valid_utf8(s);
    encode_utf8_decode_utf8(s);
}

/// Whether the triple `i` of `e` is an escape for `byte`: a percent sign and two hexadecimal digits,
/// each in capital or small letters.
pub open spec fn is_escape_for(e: Seq<u8>, i: int, byte: u8) -> bool {
    &&& e[3 * i] == 37
    &&& hex_digit(e[3 * i + 1]) == Some((byte / 16) as u8)
    &&& hex_digit(e[3 * i + 2]) == Some((byte % 16) as u8)
}

/// Whether `e` writes each of the bytes `b` as an escape.
pub open spec fn escapes(e: Seq<u8>, b: Seq<u8>) -> bool {
    &&& e.len() == 3 * b.len()
    &&& forall|i: int| 0 <= i < b.len() ==> #[trigger] is_escape_for(e, i, b[i])
}

/// Whatever is written in escapes can be decoded, and stands for itself.
pub proof fn law_escapes_are_decoded(e: Seq<u8>, b: Seq<u8>)
    requires
        escapes(e, b),
    ensures
        cuts_no_character(e),
        unescape_bytes(e) == b,
    decreases b.len(),
{
    if b.len() > 0 {
        let tail = e.skip(3);
        let rest = b.skip(1);
        assert(is_escape_for(e, 0, b[0]));
        assert forall|i: int| 0 <= i < rest.len() implies #[trigger] is_escape_for(
            tail,
            i,
            rest[i],
        ) by {
            assert(is_escape_for(e, i + 1, b[i + 1]));
            assert(tail[3 * i] == e[3 * (i + 1)]);
            assert(tail[3 * i + 1] == e[3 * (i + 1) + 1]);
            assert(tail[3 * i + 2] == e[3 * (i + 1) + 2]);
        }
        law_escapes_are_decoded(tail, rest);
        if b.len() > 1 {
            assert(is_escape_for(e, 1, b[1]));
        }
        assert(escape_value(e[1], e[2]) == Some(b[0]));
        assert(seq![b[0]] + rest =~= b);
    }
}

/// The normal form of a requested path.
pub fn normalize_path(path: &str) -> (r: String)
    ensures
        r@ == paths::normal(path@),
        paths::is_normal(r@),
{
    let clean: String = replaced(path, '\\', '/');
    let v: Vec<char> = chars_of(clean.as_str());
    let top: Vec<Vec<char>> = Vec::new();
    assert(text::pieces(top@) =~= Seq::<Seq<char>>::empty());
    let names: Vec<Vec<char>> = walk_path(top, &v);
    proof {
        paths::law_normal_is_normal(path@);
    }
    root_names(&names)
}

/// The path below the root folder that a requested path stands for; nothing, if it leads out of
/// the root folder.
pub fn resolve_path(url_path: &str, platform: Platform) -> (r: Option<String>)
    ensures
        r is Some <==> paths::confined(url_path@, platform) is Some,
        r matches Some(rel) ==> Some(rel@) == paths::confined(url_path@, platform),
{
    confine(url_path, platform)
}

// ---------------------------------------------------------------------------
// Answering a request
// ---------------------------------------------------------------------------

/// What a requested path leads to before the disk is looked at.
pub struct Route {
    /// The entry for the log.
    pub log: String,
    /// The normal form of the path.
    pub clean: String,
    /// The path to look at below the root folder; nothing, if it leads out of the root folder.
    pub rel: Option<String>,
}

/// What a decoded path leads to.
pub open spec fn is_route(
    r: Route,
    decoded: Seq<char>,
    head_only: bool,
    platform: Platform,
) -> bool {
    let clean = paths::normal(decoded);
    &&& r.clean@ == clean
    &&& r.log@ == (if head_only {
        "HEAD "@
    } else {
        "GET "@
    }) + clean
    &&& r.rel is Some <==> paths::confined(clean, platform) is Some
    &&& r.rel matches Some(rel) ==> Some(rel@) == paths::confined(clean, platform)
}

/// What a decoded path leads to.
pub fn route_decoded(decoded: &str, head_only: bool, platform: Platform) -> (r: Route)
    ensures
        is_route(r, decoded@, head_only, platform),
        paths::is_normal(r.clean@),
{
    let clean: String = normalize_path(decoded);
    let mut log: String = if head_only {
        "HEAD ".to_owned()
    } else {
        "GET ".to_owned()
    };
    log.append(clean.as_str());
    let rel: Option<String> = resolve_path(clean.as_str(), platform);
    Route { log, clean, rel }
}

/// What a path in a request leads to.
pub fn route(raw_path: &str, head_only: bool, platform: Platform) -> (r: Route)
    requires
        cuts_no_character(path_bytes(raw_path@)),
    ensures
        is_route(
            r,
            unicode::utf8_lossy(unescape_bytes(path_bytes(raw_path@))),
            head_only,
            platform,
        ),
        valid_utf8(unescape_bytes(path_bytes(raw_path@))) ==> is_route(
            r,
            decode_utf8(unescape_bytes(path_bytes(raw_path@))),
            head_only,
            platform,
        ),
        paths::is_normal(r.clean@),
{
    let decoded: String = url_decode(raw_path);
    route_decoded(decoded.as_str(), head_only, platform)
}

/// The response for a path that may not be looked at.
pub open spec fn forbidden() -> Seq<u8> {
    text_response(403, "Forbidden"@, "text/html"@, "<h1>403 Forbidden</h1>"@)
}

/// The response for a path where nothing is.
pub open spec fn not_found() -> Seq<u8> {
    text_response(404, "Not Found"@, "text/html"@, "<h1>404 Not Found</h1>"@)
}

/// The response for a path that may not be looked at.
pub fn build_forbidden() -> (r: Vec<u8>)
    ensures
        r@ == forbidden(),
{
    build_text_response(403, "Forbidden", "text/html", "<h1>403 Forbidden</h1>")
}

/// What is served.
pub enum Serving {
    /// The file at this path below the root folder, as content of this type.
    File(String, &'static str),
    /// The page of the folder.
    Folder,
    /// This response.
    Respond(Vec<u8>),
}

/// The path of the index page of a folder.
pub open spec fn index_of(rel: Seq<char>) -> Seq<char> {
    if rel.len() == 0 {
        "index.html"@
    } else {
        rel + "/index.html"@
    }
}

/// The path of the index page of a folder.
pub fn index_path(rel: &str) -> (r: String)
    ensures
        r@ == index_of(rel@),
{
    if rel.is_empty() {
        "index.html".to_owned()
    } else {
        let mut r: String = rel.to_owned();
        r.append("/index.html");
        r
    }
}

/// What is served for the path `rel` below the root folder, given what the disk says of it and
/// whether its index page is a file. `root_extension` is the extension of the root folder itself, which
/// counts if it turns out to be a file.
pub fn choose_serving(
    rel: &str,
    root_extension: &str,
    root: &Option<CanonicalPath>,
    facts: &PathFacts,
    index_is_file: bool,
    platform: Platform,
) -> (r: Serving)
    requires
        starts_with_name(rel@),
    ensures
        if !common::within_root(*root, *facts) {
            r matches Serving::Respond(b) && b@ == forbidden()
        } else if facts.is_dir() {
            if index_is_file {
                r matches Serving::File(path, kind) && path@ == index_of(rel@) && is_type_of(
                    kind@,
                    index_of(rel@),
                    platform,
                )
            } else {
                r is Folder
            }
        } else if facts.is_file() {
            r matches Serving::File(path, kind) && path@ == rel@ && if rel@.len() == 0 {
                is_type_for(kind@, root_extension@)
            } else {
                is_type_of(kind@, rel@, platform)
            }
        } else {
            r matches Serving::Respond(b) && b@ == not_found()
        },
{
    if !is_within_root(root, facts) {
        return Serving::Respond(build_forbidden());
    }
    if facts.dir() {
        if index_is_file {
            proof {
                reveal_strlit("index.html");
                reveal_strlit("/index.html");
            }
            let index: String = index_path(rel);
            let kind: &'static str = guess_content_type(index.as_str(), platform);
            Serving::File(index, kind)
        } else {
            Serving::Folder
        }
    } else if facts.file() {
        let kind: &'static str = if rel.is_empty() {
            type_for(root_extension)
        } else {
            guess_content_type(rel, platform)
        };
        Serving::File(rel.to_owned(), kind)
    } else {
        Serving::Respond(
            build_text_response(404, "Not Found", "text/html", "<h1>404 Not Found</h1>"),
        )
    }
}

// ---------------------------------------------------------------------------
// Content types
// ---------------------------------------------------------------------------

/// Where `c` last stands in `s`; -1 if it does not.
pub open spec fn last_at(s: Seq<char>, c: char) -> int
    decreases s.len(),
{
    if s.len() == 0 {
        -1
    } else if s.last() == c {
        s.len() - 1
    } else {
        last_at(s.drop_last(), c)
    }
}

/// The last piece of a path that is neither empty nor `.`; nothing, if there is none.
pub open spec fn last_piece(parts: Seq<Seq<char>>) -> Seq<char>
    decreases parts.len(),
{
    if parts.len() == 0 {
        Seq::empty()
    } else if parts.last().len() == 0 || paths::is_dot(parts.last()) {
        last_piece(parts.drop_last())
    } else {
        parts.last()
    }
}

/// The extension of a file name: what follows its last dot, unless the name begins with that dot.
pub open spec fn extension(name: Seq<char>) -> Seq<char> {
    if paths::is_dot_dot(name) || last_at(name, '.') <= 0 {
        Seq::empty()
    } else {
        name.skip(last_at(name, '.') + 1)
    }
}

/// Whether a path does not begin with a slash or a backslash, as a path below a root folder does not.
pub open spec fn starts_with_name(path: Seq<char>) -> bool {
    path.len() > 0 ==> path[0] != '/' && path[0] != '\\'
}

/// Whether a path begins with two slashes or backslashes, which on Windows name no folder but a share
/// or a device.
pub open spec fn names_share(path: Seq<char>) -> bool {
    &&& path.len() >= 2
    &&& path[0] == '/' || path[0] == '\\'
    &&& path[1] == '/' || path[1] == '\\'
}

/// The pieces of a path: on Windows the drive is cut off first, and backslashes count as slashes.
pub open spec fn path_pieces(path: Seq<char>, platform: Platform) -> Seq<Seq<char>> {
    if platform is Windows {
        let rest = if paths::names_drive(path) {
            path.skip(2)
        } else {
            path
        };
        text::split(text::replace(rest, '\\', '/'), '/')
    } else {
        text::split(path, '/')
    }
}

/// The extension of the file that a path names.
pub open spec fn path_extension(path: Seq<char>, platform: Platform) -> Seq<char> {
    extension(last_piece(path_pieces(path, platform)))
}

/// The content type for an extension in small letters.
pub open spec fn content_type(ext: Seq<char>) -> Seq<char> {
    if ext == "html"@ || ext == "htm"@ {
        "text/html; charset=utf-8"@
    } else if ext == "css"@ {
        "text/css"@
    } else if ext == "js"@ {
        "application/javascript"@
    } else if ext == "json"@ {
        "application/json"@
    } else if ext == "txt"@ || ext == "log"@ || ext == "md"@ {
        "text/plain; charset=utf-8"@
    } else if ext == "xml"@ {
        "application/xml"@
    } else if ext == "png"@ {
        "image/png"@
    } else if ext == "jpg"@ || ext == "jpeg"@ {
        "image/jpeg"@
    } else if ext == "gif"@ {
        "image/gif"@
    } else if ext == "svg"@ {
        "image/svg+xml"@
    } else if ext == "ico"@ {
        "image/x-icon"@
    } else if ext == "pdf"@ {
        "application/pdf"@
    } else if ext == "zip"@ {
        "application/zip"@
    } else if ext == "woff"@ {
        "font/woff"@
    } else if ext == "woff2"@ {
        "font/woff2"@
    } else {
        "application/octet-stream"@
    }
}

/// The content type for an extension in small letters.
pub fn content_type_for(ext: &str) -> (r: &'static str)
    ensures
        r@ == content_type(ext@),
{
    if same_text(ext, "html") || same_text(ext, "htm") {
        "text/html; charset=utf-8"
    } else if same_text(ext, "css") {
        "text/css"
    } else if same_text(ext, "js") {
        "application/javascript"
    } else if same_text(ext, "json") {
        "application/json"
    } else if same_text(ext, "txt") || same_text(ext, "log") || same_text(ext, "md") {
        "text/plain; charset=utf-8"
    } else if same_text(ext, "xml") {
        "application/xml"
    } else if same_text(ext, "png") {
        "image/png"
    } else if same_text(ext, "jpg") || same_text(ext, "jpeg") {
        "image/jpeg"
    } else if same_text(ext, "gif") {
        "image/gif"
    } else if same_text(ext, "svg") {
        "image/svg+xml"
    } else if same_text(ext, "ico") {
        "image/x-icon"
    } else if same_text(ext, "pdf") {
        "application/pdf"
    } else if same_text(ext, "zip") {
        "application/zip"
    } else if same_text(ext, "woff") {
        "font/woff"
    } else if same_text(ext, "woff2") {
        "font/woff2"
    } else {
        "application/octet-stream"
    }
}

/// The extension of a file name.
pub fn file_extension(name: &Vec<char>) -> (r: String)
    ensures
        r@ == extension(name@),
{
    let mut n: usize = name.len();
    assert(name@.take(n as int) =~= name@);
    while n > 0 && name[n - 1] != '.'
        invariant
            n <= name.len(),
            last_at(name@, '.') == last_at(name@.take(n as int), '.'),
        decreases n,
    {
        assert(name@.take(n as int).drop_last() =~= name@.take(n - 1));
        n -= 1;
    }
    assert(last_at(name@, '.') == n - 1);
    let dot_dot: bool = name.len() == 2 && name[0] == '.' && name[1] == '.';
    assert(dot_dot == paths::is_dot_dot(name@)) by {
        if dot_dot {
            assert(name@ =~= seq!['.', '.']);
        }
    }
    if dot_dot || n <= 1 {
        let r: String = String::new();
        r
    } else {
        let r: String = part_of(name, n, name.len());
        assert(r@ =~= name@.skip(n as int));
        r
    }
}

/// The pieces of a path.
fn pieces_of_path(path: &str, platform: Platform) -> (parts: Vec<Vec<char>>)
    ensures
        text::pieces(parts@) == path_pieces(path@, platform),
{
    let v: Vec<char> = chars_of(path);
    if platform == Platform::Windows {
        let drive: bool = v.len() >= 2 && (('a' <= v[0] && v[0] <= 'z') || ('A' <= v[0] && v[0]
            <= 'Z')) && v[1] == ':';
        let rest: String = if drive {
            part_of(&v, 2, v.len())
        } else {
            path.to_owned()
        };
        assert(drive ==> rest@ =~= path@.skip(2));
        let slashes: String = replaced(rest.as_str(), '\\', '/');
        split_at(&chars_of(slashes.as_str()), '/')
    } else {
        split_at(&v, '/')
    }
}

/// The extension of the file that a path names.
pub fn extension_of_path(path: &str, platform: Platform) -> (r: String)
    requires
        platform is Windows ==> !names_share(path@),
    ensures
        r@ == path_extension(path@, platform),
{
    let parts: Vec<Vec<char>> = pieces_of_path(path, platform);
    let ghost all = text::pieces(parts@);
    let mut n: usize = parts.len();
    assert(all.take(n as int) =~= all);
    while n > 0 && (parts[n - 1].len() == 0 || (parts[n - 1].len() == 1 && parts[n - 1][0] == '.'))
        invariant
            n <= parts.len(),
            all == text::pieces(parts@),
            last_piece(all) == last_piece(all.take(n as int)),
        decreases n,
    {
        assert(all.take(n as int).drop_last() =~= all.take(n - 1));
        assert(all.take(n as int).last() == parts@[n - 1]@);
        assert(parts@[n - 1]@.len() == 1 ==> parts@[n - 1]@ =~= seq!['.']);
        n -= 1;
    }
    if n == 0 {
        let r: String = String::new();
        assert(last_piece(all).len() == 0);
        assert(last_piece(all) =~= Seq::<char>::empty());
        r
    } else {
        assert(all.take(n as int).last() == parts@[n - 1]@);
        assert(!paths::is_dot(parts@[n - 1]@)) by {
            assert(seq!['.'].len() == 1 && seq!['.'][0] == '.');
        }
        file_extension(&parts[n - 1])
    }
}

/// Whether `kind` is the content type for an extension in any letters.
pub open spec fn is_type_for(kind: Seq<char>, ext: Seq<char>) -> bool {
    &&& kind == content_type(unicode::lowercase(ext))
    &&& is_ascii_chars(ext) ==> kind == content_type(
        ext.map_values(|c: char| unicode::ascii_lower(c)),
    )
}

/// Whether `kind` is the content type for the file that a path names.
pub open spec fn is_type_of(kind: Seq<char>, path: Seq<char>, platform: Platform) -> bool {
    is_type_for(kind, path_extension(path, platform))
}

/// Whether `ext` is the word `word` of small letters and digits, with each letter small or capital.
pub open spec fn spells(ext: Seq<char>, word: Seq<char>) -> bool {
    &&& ext.len() == word.len()
    &&& forall|i: int|
        #![trigger ext[i]]
        #![trigger word[i]]
        0 <= i < word.len() ==> ext[i] == word[i] || ('a' <= word[i] && word[i] <= 'z' && ext[i] as int
            + 32 == word[i] as int)
}

/// Whether `ext` spells none of the extensions with a content type of their own.
pub open spec fn is_unlisted(ext: Seq<char>) -> bool {
    &&& !spells(ext, "html"@)
    &&& !spells(ext, "htm"@)
    &&& !spells(ext, "css"@)
    &&& !spells(ext, "js"@)
    &&& !spells(ext, "json"@)
    &&& !spells(ext, "txt"@)
    &&& !spells(ext, "log"@)
    &&& !spells(ext, "md"@)
    &&& !spells(ext, "xml"@)
    &&& !spells(ext, "png"@)
    &&& !spells(ext, "jpg"@)
    &&& !spells(ext, "jpeg"@)
    &&& !spells(ext, "gif"@)
    &&& !spells(ext, "svg"@)
    &&& !spells(ext, "ico"@)
    &&& !spells(ext, "pdf"@)
    &&& !spells(ext, "zip"@)
    &&& !spells(ext, "woff"@)
    &&& !spells(ext, "woff2"@)
}

/// Whether `kind` is the content type that is listed for an extension, or else the one for data of an
/// unknown kind.
pub open spec fn is_listed(kind: Seq<char>, ext: Seq<char>) -> bool {
    &&& spells(ext, "html"@) ==> kind == "text/html; charset=utf-8"@
    &&& spells(ext, "htm"@) ==> kind == "text/html; charset=utf-8"@
    &&& spells(ext, "css"@) ==> kind == "text/css"@
    &&& spells(ext, "js"@) ==> kind == "application/javascript"@
    &&& spells(ext, "json"@) ==> kind == "application/json"@
    &&& spells(ext, "txt"@) ==> kind == "text/plain; charset=utf-8"@
    &&& spells(ext, "log"@) ==> kind == "text/plain; charset=utf-8"@
    &&& spells(ext, "md"@) ==> kind == "text/plain; charset=utf-8"@
    &&& spells(ext, "xml"@) ==> kind == "application/xml"@
    &&& spells(ext, "png"@) ==> kind == "image/png"@
    &&& spells(ext, "jpg"@) ==> kind == "image/jpeg"@
    &&& spells(ext, "jpeg"@) ==> kind == "image/jpeg"@
    &&& spells(ext, "gif"@) ==> kind == "image/gif"@
    &&& spells(ext, "svg"@) ==> kind == "image/svg+xml"@
    &&& spells(ext, "ico"@) ==> kind == "image/x-icon"@
    &&& spells(ext, "pdf"@) ==> kind == "application/pdf"@
    &&& spells(ext, "zip"@) ==> kind == "application/zip"@
    &&& spells(ext, "woff"@) ==> kind == "font/woff"@
    &&& spells(ext, "woff2"@) ==> kind == "font/woff2"@
    &&& is_unlisted(ext) && is_ascii_chars(ext) ==> kind == "application/octet-stream"@
}

/// A text spells a word exactly if it is the word in small letters.
proof fn lemma_spells(ext: Seq<char>, word: Seq<char>)
    requires
        forall|i: int|
            0 <= i < word.len() ==> ('a' <= #[trigger] word[i] && word[i] <= 'z') || ('0' <= word[i]
                && word[i] <= '9'),
    ensures
        spells(ext, word) <==> is_ascii_chars(ext) && ext.map_values(
            |c: char| unicode::ascii_lower(c),
        ) == word,
{
    let small = ext.map_values(|c: char| unicode::ascii_lower(c));
    if spells(ext, word) {
        assert forall|i: int| 0 <= i < ext.len() implies #[trigger] small[i] == word[i] by {
            assert(ext[i] == word[i] || ext[i] as int + 32 == word[i] as int);
        }
        assert(small =~= word);
        assert forall|i: int| 0 <= i < ext.len() implies (#[trigger] ext[i] as int) < 128 by {
            assert(ext[i] == word[i] || ext[i] as int + 32 == word[i] as int);
        }
        assert(is_ascii_chars(ext));
    }
    if is_ascii_chars(ext) && small == word {
        assert forall|i: int|
            #![trigger ext[i]]
            #![trigger word[i]]
            0 <= i < word.len() implies ext[i] == word[i] || ('a' <= word[i] && word[i] <= 'z'
            && ext[i] as int + 32 == word[i] as int) by {
            assert(small[i] == unicode::ascii_lower(ext[i]));
        }
    }
}

/// Every extension gets the content type that is listed for it, in small and in capital letters.
pub proof fn law_types_are_listed(kind: Seq<char>, ext: Seq<char>)
    requires
        is_type_for(kind, ext),
    ensures
        is_listed(kind, ext),
{
    reveal_strlit("html");
    reveal_strlit("htm");
    reveal_strlit("css");
    reveal_strlit("js");
    reveal_strlit("json");
    reveal_strlit("txt");
    reveal_strlit("log");
    reveal_strlit("md");
    reveal_strlit("xml");
    reveal_strlit("png");
    reveal_strlit("jpg");
    reveal_strlit("jpeg");
    reveal_strlit("gif");
    reveal_strlit("svg");
    reveal_strlit("ico");
    reveal_strlit("pdf");
    reveal_strlit("zip");
    reveal_strlit("woff");
    reveal_strlit("woff2");
    assert("html"@[0] == 'h' && "html"@[1] == 't' && "html"@[2] == 'm' && "html"@[3] == 'l');
    assert("htm"@[0] == 'h' && "htm"@[1] == 't' && "htm"@[2] == 'm');
    assert("css"@[0] == 'c' && "css"@[1] == 's' && "css"@[2] == 's');
    assert("js"@[0] == 'j' && "js"@[1] == 's');
    assert("json"@[0] == 'j' && "json"@[1] == 's' && "json"@[2] == 'o' && "json"@[3] == 'n');
    assert("txt"@[0] == 't' && "txt"@[1] == 'x' && "txt"@[2] == 't');
    assert("log"@[0] == 'l' && "log"@[1] == 'o' && "log"@[2] == 'g');
    assert("md"@[0] == 'm' && "md"@[1] == 'd');
    assert("xml"@[0] == 'x' && "xml"@[1] == 'm' && "xml"@[2] == 'l');
    assert("png"@[0] == 'p' && "png"@[1] == 'n' && "png"@[2] == 'g');
    assert("jpg"@[0] == 'j' && "jpg"@[1] == 'p' && "jpg"@[2] == 'g');
    assert("jpeg"@[0] == 'j' && "jpeg"@[1] == 'p' && "jpeg"@[2] == 'e' && "jpeg"@[3] == 'g');
    assert("gif"@[0] == 'g' && "gif"@[1] == 'i' && "gif"@[2] == 'f');
    assert("svg"@[0] == 's' && "svg"@[1] == 'v' && "svg"@[2] == 'g');
    assert("ico"@[0] == 'i' && "ico"@[1] == 'c' && "ico"@[2] == 'o');
    assert("pdf"@[0] == 'p' && "pdf"@[1] == 'd' && "pdf"@[2] == 'f');
    assert("zip"@[0] == 'z' && "zip"@[1] == 'i' && "zip"@[2] == 'p');
    assert("woff"@[0] == 'w' && "woff"@[1] == 'o' && "woff"@[2] == 'f' && "woff"@[3] == 'f');
    assert("woff2"@[0] == 'w' && "woff2"@[1] == 'o' && "woff2"@[2] == 'f');
    assert("woff2"@[3] == 'f' && "woff2"@[4] == '2');
    lemma_spells(ext, "html"@);
    lemma_spells(ext, "htm"@);
    lemma_spells(ext, "css"@);
    lemma_spells(ext, "js"@);
    lemma_spells(ext, "json"@);
    lemma_spells(ext, "txt"@);
    lemma_spells(ext, "log"@);
    lemma_spells(ext, "md"@);
    lemma_spells(ext, "xml"@);
    lemma_spells(ext, "png"@);
    lemma_spells(ext, "jpg"@);
    lemma_spells(ext, "jpeg"@);
    lemma_spells(ext, "gif"@);
    lemma_spells(ext, "svg"@);
    lemma_spells(ext, "ico"@);
    lemma_spells(ext, "pdf"@);
    lemma_spells(ext, "zip"@);
    lemma_spells(ext, "woff"@);
    lemma_spells(ext, "woff2"@);
}

/// Whether a path names a file in the folder `dir` whose name is `base`, a dot and `ext`.
pub open spec fn names_file(
    path: Seq<char>,
    dir: Seq<char>,
    base: Seq<char>,
    ext: Seq<char>,
    platform: Platform,
) -> bool {
    &&& path == dir + base.push('.') + ext
    &&& dir.len() > 0 ==> dir.last() == '/' || (platform is Windows && dir.last() == '\\')
    &&& base.len() > 0
    &&& !base.contains('/') && !ext.contains('/') && !ext.contains('.')
    &&& platform is Windows ==> !base.contains('\\') && !ext.contains('\\')
        && !paths::names_drive(path)
}

/// The pieces of a path end in the name that stands last.
proof fn lemma_last_name(dir: Seq<char>, name: Seq<char>, platform: Platform)
    requires
        dir.len() > 0 ==> dir.last() == '/' || (platform is Windows && dir.last() == '\\'),
        !name.contains('/'),
        platform is Windows ==> !name.contains('\\') && !paths::names_drive(dir + name),
    ensures
        path_pieces(dir + name, platform).len() > 0,
        path_pieces(dir + name, platform).last() == name,
{
    let path = dir + name;
    let clean = if platform is Windows {
        text::replace(path, '\\', '/')
    } else {
        path
    };
    if dir.len() == 0 {
        assert(path =~= name);
        if platform is Windows {
            assert forall|i: int| 0 <= i < name.len() implies name[i] != '\\' by {
                assert(name.contains(name[i]));
            }
            assert(clean =~= name);
        }
        text::lemma_split_whole(name, '/');
    } else {
        let front = clean.take(dir.len() - 1);
        assert forall|i: int| 0 <= i < name.len() implies name[i] != '\\' || !(platform is Windows) by {
            assert(name.contains(name[i]));
        }
        assert(path[dir.len() - 1] == dir.last());
        assert(clean =~= front.push('/') + name);
        text::lemma_split_concat(front, name, '/');
        text::lemma_split_whole(name, '/');
    }
}

/// Where a separator stands last, if none stands behind it.
proof fn lemma_last_place(a: Seq<char>, b: Seq<char>, c: char)
    requires
        !b.contains(c),
    ensures
        last_at(a.push(c) + b, c) == a.len(),
    decreases b.len(),
{
    let all = a.push(c) + b;
    if b.len() == 0 {
        assert(all.last() == c);
    } else {
        assert(all.drop_last() =~= a.push(c) + b.drop_last());
        assert(b.contains(b[b.len() - 1]));
        assert(!b.drop_last().contains(c)) by {
            if b.drop_last().contains(c) {
                let k = b.drop_last().index_of(c);
                assert(b[k] == c);
            }
        }
        lemma_last_place(a, b.drop_last(), c);
    }
}

/// The file of a name, a dot and an extension gets the content type that is listed for the extension.
pub proof fn law_type_of_file(
    kind: Seq<char>,
    path: Seq<char>,
    dir: Seq<char>,
    base: Seq<char>,
    ext: Seq<char>,
    platform: Platform,
)
    requires
        is_type_of(kind, path, platform),
        names_file(path, dir, base, ext, platform),
    ensures
        is_listed(kind, ext),
{
    let name = base.push('.') + ext;
    assert(path =~= dir + name);
    assert(!name.contains('/')) by {
        if name.contains('/') {
            let k = name.index_of('/');
            if k < base.len() {
                assert(base[k] == '/');
            } else {
                assert(ext[k - base.len() - 1] == '/');
            }
        }
    }
    assert(platform is Windows ==> !name.contains('\\')) by {
        if name.contains('\\') {
            let k = name.index_of('\\');
            if k < base.len() {
                assert(base[k] == '\\');
            } else {
                assert(ext[k - base.len() - 1] == '\\');
            }
        }
    }
    lemma_last_name(dir, name, platform);
    lemma_last_place(base, ext, '.');
    assert(seq!['.'].len() == 1);
    assert(last_piece(path_pieces(path, platform)) == name);
    assert(name.skip(base.len() as int + 1) =~= ext);
    if paths::is_dot_dot(name) {
        assert(name.len() == 2);
        assert(ext =~= Seq::<char>::empty());
    }
    assert(path_extension(path, platform) == ext);
    law_types_are_listed(kind, ext);
}

/// Whether a path names a file in the folder `dir` whose name has no dot but for one in front.
pub open spec fn names_plain_file(
    path: Seq<char>,
    dir: Seq<char>,
    name: Seq<char>,
    platform: Platform,
) -> bool {
    &&& path == dir + name
    &&& dir.len() > 0 ==> dir.last() == '/' || (platform is Windows && dir.last() == '\\')
    &&& name.len() > 0 && name != seq!['.']
    &&& !name.contains('/') && !name.skip(1).contains('.')
    &&& platform is Windows ==> !name.contains('\\') && !paths::names_drive(path)
}

/// A file without an extension is data of an unknown kind.
pub proof fn law_type_of_plain_file(
    kind: Seq<char>,
    path: Seq<char>,
    dir: Seq<char>,
    name: Seq<char>,
    platform: Platform,
)
    requires
        is_type_of(kind, path, platform),
        names_plain_file(path, dir, name, platform),
    ensures
        kind == "application/octet-stream"@,
{
    lemma_last_name(dir, name, platform);
    assert(last_piece(path_pieces(path, platform)) == name);
    lemma_last_in_front(name, '.');
    let ext = path_extension(path, platform);
    assert(ext =~= Seq::<char>::empty());
    reveal_strlit("html");
    reveal_strlit("htm");
    reveal_strlit("css");
    reveal_strlit("js");
    reveal_strlit("json");
    reveal_strlit("txt");
    reveal_strlit("log");
    reveal_strlit("md");
    reveal_strlit("xml");
    reveal_strlit("png");
    reveal_strlit("jpg");
    reveal_strlit("jpeg");
    reveal_strlit("gif");
    reveal_strlit("svg");
    reveal_strlit("ico");
    reveal_strlit("pdf");
    reveal_strlit("zip");
    reveal_strlit("woff");
    reveal_strlit("woff2");
    law_types_are_listed(kind, ext);
}

/// What stands nowhere behind the first place stands there or nowhere.
proof fn lemma_last_in_front(s: Seq<char>, c: char)
    requires
        s.len() > 0,
        !s.skip(1).contains(c),
    ensures
        last_at(s, c) <= 0,
    decreases s.len(),
{
    if s.len() == 1 {
        assert(last_at(s.drop_last(), c) == -1);
    } else {
        assert(s.skip(1)[s.len() - 2] == s.last());
        let front = s.drop_last();
        assert(!front.skip(1).contains(c)) by {
            if front.skip(1).contains(c) {
                let k = front.skip(1).index_of(c);
                assert(s.skip(1)[k] == front.skip(1)[k]);
            }
        }
        lemma_last_in_front(front, c);
    }
}

/// The content type for an extension in any letters.
pub fn type_for(ext: &str) -> (r: &'static str)
    ensures
        is_type_for(r@, ext@),
        is_listed(r@, ext@),
{
    let small: String = to_lower(ext);
    let r: &'static str = content_type_for(small.as_str());
    proof {
        law_types_are_listed(r@, ext@);
    }
    r
}

/// The content type for the file that a path names.
pub fn guess_content_type(path: &str, platform: Platform) -> (r: &'static str)
    requires
        platform is Windows ==> !names_share(path@),
    ensures
        is_type_of(r@, path@, platform),
        forall|dir: Seq<char>, base: Seq<char>, ext: Seq<char>| #[trigger]
            names_file(path@, dir, base, ext, platform) ==> is_listed(r@, ext),
        forall|dir: Seq<char>, name: Seq<char>| #[trigger]
            names_plain_file(path@, dir, name, platform) ==> r@ == "application/octet-stream"@,
{
    let ext: String = extension_of_path(path, platform);
    let r: &'static str = type_for(ext.as_str());
    proof {
        assert forall|dir: Seq<char>, base: Seq<char>, ext: Seq<char>| #[trigger]
            names_file(path@, dir, base, ext, platform) implies is_listed(r@, ext) by {
            law_type_of_file(r@, path@, dir, base, ext, platform);
        }
        assert forall|dir: Seq<char>, name: Seq<char>| #[trigger]
            names_plain_file(path@, dir, name, platform) implies r@
            == "application/octet-stream"@ by {
            law_type_of_plain_file(r@, path@, dir, name, platform);
        }
    }
    r
}

// ---------------------------------------------------------------------------
// Text in pages
// ---------------------------------------------------------------------------

/// What stands for a character in a page.
pub open spec fn html_char(c: char) -> Seq<char> {
    if c == '&' {
        seq!['&', 'a', 'm', 'p', ';']
    } else if c == '<' {
        seq!['&', 'l', 't', ';']
    } else if c == '>' {
        seq!['&', 'g', 't', ';']
    } else if c == '"' {
        seq!['&', 'q', 'u', 'o', 't', ';']
    } else if c == '\'' {
        seq!['&', '#', 'x', '2', '7', ';']
    } else {
        seq![c]
    }
}

/// What stands for a text in a page.
pub open spec fn html_text(s: Seq<char>) -> Seq<char>
    decreases s.len(),
{
    if s.len() == 0 {
        s
    } else {
        html_char(s[0]) + html_text(s.skip(1))
    }
}

/// Whether a text holds nothing that could end an attribute or begin a tag.
pub open spec fn is_inert(s: Seq<char>) -> bool {
    forall|i: int|
        #![trigger s[i]]
        0 <= i < s.len() ==> s[i] != '<' && s[i] != '>' && s[i] != '"' && s[i] != '\''
}

/// What stands for a text in a page.
pub fn html_escape(s: &str) -> (r: String)
    ensures
        r@ == html_text(s@),
        html_shown(r@) == s@,
        is_inert(r@),
{
    proof {
        reveal_strlit("&amp;");
        reveal_strlit("&lt;");
        reveal_strlit("&gt;");
        reveal_strlit("&quot;");
        reveal_strlit("&#x27;");
    }
    proof {
        law_page_shows_the_text(s@);
        law_escaped_text_is_inert(s@);
    }
    let v: Vec<char> = chars_of(s);
    let mut out: String = String::new();
    let mut i: usize = 0;
    assert(v@.skip(0) =~= v@);
    assert(out@ + html_text(v@) =~= html_text(v@));
    while i < v.len()
        invariant
            i <= v.len(),
            "&amp;"@ =~= html_char('&'),
            "&lt;"@ =~= html_char('<'),
            "&gt;"@ =~= html_char('>'),
            "&quot;"@ =~= html_char('"'),
            "&#x27;"@ =~= html_char('\''),
            out@ + html_text(v@.skip(i as int)) == html_text(v@),
        decreases v.len() - i,
    {
        let ghost before = out@;
        let ghost rest = v@.skip(i as int);
        let c: char = v[i];
        if c == '&' {
            out.append("&amp;");
        } else if c == '<' {
            out.append("&lt;");
        } else if c == '>' {
            out.append("&gt;");
        } else if c == '"' {
            out.append("&quot;");
        } else if c == '\'' {
            out.append("&#x27;");
        } else {
            out.push(c);
        }
        assert(out@ =~= before + html_char(c));
        assert(rest[0] == c);
        assert(rest.skip(1) =~= v@.skip(i + 1));
        assert(out@ + html_text(v@.skip(i + 1)) =~= before + html_text(rest));
        i += 1;
    }
    assert(v@.skip(v@.len() as int) =~= Seq::<char>::empty());
    assert(out@ =~= html_text(v@));
    out
}

/// The text that a page shows for what stands in it.
pub open spec fn html_shown(s: Seq<char>) -> Seq<char>
    decreases s.len(),
{
    if s.len() == 0 {
        s
    } else if text::begins_with(s, seq!['&', 'a', 'm', 'p', ';']) {
        seq!['&'] + html_shown(s.skip(5))
    } else if text::begins_with(s, seq!['&', 'l', 't', ';']) {
        seq!['<'] + html_shown(s.skip(4))
    } else if text::begins_with(s, seq!['&', 'g', 't', ';']) {
        seq!['>'] + html_shown(s.skip(4))
    } else if text::begins_with(s, seq!['&', 'q', 'u', 'o', 't', ';']) {
        seq!['"'] + html_shown(s.skip(6))
    } else if text::begins_with(s, seq!['&', '#', 'x', '2', '7', ';']) {
        seq!['\''] + html_shown(s.skip(6))
    } else {
        seq![s[0]] + html_shown(s.skip(1))
    }
}

/// A page shows exactly the text that was put into it.
pub proof fn law_page_shows_the_text(s: Seq<char>)
    ensures
        html_shown(html_text(s)) == s,
    decreases s.len(),
{
    if s.len() > 0 {
        let c = s[0];
        let rest = html_text(s.skip(1));
        let all = html_text(s);
        law_page_shows_the_text(s.skip(1));
        assert(seq![c] + s.skip(1) =~= s);
        lemma_begins(html_char(c), rest, html_char('&'));
        lemma_begins(html_char(c), rest, html_char('<'));
        lemma_begins(html_char(c), rest, html_char('>'));
        lemma_begins(html_char(c), rest, html_char('"'));
        lemma_begins(html_char(c), rest, html_char('\''));
        assert(all.skip(html_char(c).len() as int) =~= rest);
        assert(all[0] == html_char(c)[0]);
    }
}

/// Whether a text begins with `head` shows in its first characters.
proof fn lemma_begins(first: Seq<char>, rest: Seq<char>, head: Seq<char>)
    ensures
        text::begins_with(first + rest, head) ==> forall|i: int|
            0 <= i < head.len() && i < first.len() ==> #[trigger] head[i] == first[i],
        first == head ==> text::begins_with(first + rest, head),
{
    let all = first + rest;
    if text::begins_with(all, head) {
        assert forall|i: int| 0 <= i < head.len() && i < first.len() implies #[trigger] head[i]
            == first[i] by {
            assert(all.take(head.len() as int)[i] == all[i]);
        }
    }
    if first == head {
        assert(all.take(head.len() as int) =~= head);
    }
}

/// A text that was put into a page holds no character that begins or ends a tag or an attribute.
pub proof fn law_escaped_text_is_inert(s: Seq<char>)
    ensures
        forall|i: int| #![trigger html_text(s)[i]]
            0 <= i < html_text(s).len() ==> html_text(s)[i] != '<' && html_text(s)[i] != '>'
                && html_text(s)[i] != '"' && html_text(s)[i] != '\'',
    decreases s.len(),
{
    if s.len() > 0 {
        law_escaped_text_is_inert(s.skip(1));
        let first = html_char(s[0]);
        let rest = html_text(s.skip(1));
        assert forall|i: int| #![trigger html_text(s)[i]] 0 <= i < html_text(s).len() implies
            html_text(s)[i] != '<' && html_text(s)[i] != '>' && html_text(s)[i] != '"'
            && html_text(s)[i] != '\'' by {
            if i < first.len() {
                assert(html_text(s)[i] == first[i]);
            } else {
                assert(html_text(s)[i] == rest[i - first.len()]);
            }
        }
    }
}

// ---------------------------------------------------------------------------
// Laws of requested paths
// ---------------------------------------------------------------------------

/// The query is dropped: the path ends in front of the first question mark.
pub proof fn law_query_is_dropped(s: Seq<char>, path: Seq<u8>, query: Seq<u8>)
    requires
        !path.contains(63u8),
    ensures
        encode_utf8(s) == path.push(63u8) + query ==> path_bytes(s) == path,
        encode_utf8(s) == path ==> path_bytes(s) == path,
{
    let all = encode_utf8(s);
    text::lemma_first_at(all, 63u8);
    let n = text::first_at(all, 63u8);
    if all == path.push(63u8) + query {
        assert(all[path.len() as int] == 63u8);
        assert(all.contains(63u8));
        if n < path.len() {
            assert(path[n] == all[n]);
        }
        assert(all.take(n) =~= path);
    }
    if all == path {
        assert(all.take(n) =~= path);
    }
}

/// The hexadecimal digits are 0 to 9, A to F and a to f.
pub proof fn law_hex_digits(b: u8)
    ensures
        hex_digit(b) matches Some(v) ==> v < 16 && (b == 48 + v && v < 10 || b == 55 + v && v >= 10
            || b == 87 + v && v >= 10),
        hex_digit(b) is Some <==> 48 <= b < 58 || 65 <= b < 71 || 97 <= b < 103,
{
}

/// A percent sign and two hexadecimal digits stand for one byte.
pub proof fn law_escape_stands_for_byte(x: u8, y: u8, rest: Seq<u8>)
    requires
        48 <= x < 58 || 65 <= x < 71 || 97 <= x < 103,
        48 <= y < 58 || 65 <= y < 71 || 97 <= y < 103,
    ensures
        ({
            let high = if x < 58 {
                x - 48
            } else if x < 71 {
                x - 55
            } else {
                x - 87
            };
            let low = if y < 58 {
                y - 48
            } else if y < 71 {
                y - 55
            } else {
                y - 87
            };
            let out = unescape_bytes(seq![37u8, x, y] + rest);
            &&& out.len() == 1 + unescape_bytes(rest).len()
            &&& out[0] == high * 16 + low
            &&& out.skip(1) == unescape_bytes(rest)
        }),
{
    let all = seq![37u8, x, y] + rest;
    assert(all.skip(3) =~= rest);
    assert(all[0] == 37 && all[1] == x && all[2] == y);
    let out = unescape_bytes(all);
    assert(out.skip(1) =~= unescape_bytes(rest));
}

/// A byte that is no percent sign stays, and so does a percent sign with something else behind it than
/// two hexadecimal digits or a plus sign and one such digit.
pub proof fn law_other_bytes_stay(b: u8, rest: Seq<u8>)
    requires
        b != 37 || rest.len() < 2 || hex_digit(rest[1]) is None || (hex_digit(rest[0]) is None
            && rest[0] != 43),
    ensures
        unescape_bytes(seq![b] + rest) == seq![b] + unescape_bytes(rest),
        unescape_bytes(Seq::empty()) == Seq::<u8>::empty(),
{
    let all = seq![b] + rest;
    assert(all.skip(1) =~= rest);
    assert(all[0] == b);
    assert(rest.len() >= 2 ==> all[1] == rest[0] && all[2] == rest[1]);
}

/// A path of ASCII characters can always be decoded.
pub proof fn law_ascii_path_can_be_decoded(b: Seq<u8>)
    requires
        forall|i: int| 0 <= i < b.len() ==> #[trigger] b[i] < 128,
    ensures
        cuts_no_character(b),
    decreases b.len(),
{
    if b.len() > 0 {
        assert(b.len() > 3 ==> b[3] < 128);
        assert forall|i: int| 0 <= i < b.skip(1).len() implies #[trigger] b.skip(1)[i] < 128 by {
            assert(b.skip(1)[i] == b[i + 1]);
        }
        law_ascii_path_can_be_decoded(b.skip(1));
        if b.len() >= 3 {
            assert forall|i: int| 0 <= i < b.skip(3).len() implies #[trigger] b.skip(3)[i] < 128 by {
                assert(b.skip(3)[i] == b[i + 3]);
            }
            law_ascii_path_can_be_decoded(b.skip(3));
        }
    }
}

/// The index page of a folder is the file `index.html` in it.
pub proof fn law_index_lies_in_folder(names: Seq<Seq<char>>)
    requires
        paths::all_names(names),
    ensures
        index_of(text::join(names, '/')) == text::join(names.push("index.html"@), '/'),
{
    reveal_strlit("index.html");
    reveal_strlit("/index.html");
    let page = "index.html"@;
    assert("/index.html"@ =~= seq!['/'] + page);
    let down = names.push(page);
    assert(down.drop_last() =~= names);
    if names.len() > 0 {
        paths::lemma_join_head(names);
        assert(paths::is_name(names[0]));
        assert(index_of(text::join(names, '/')) =~= text::join(down, '/'));
    }
}

/// The index page of a folder is served as a page.
pub proof fn law_index_is_a_page(rel: Seq<char>, kind: Seq<char>, platform: Platform)
    requires
        is_type_of(kind, index_of(rel), platform),
        platform is Windows ==> !paths::names_drive(rel),
    ensures
        kind == "text/html; charset=utf-8"@,
{
    reveal_strlit("index.html");
    reveal_strlit("/index.html");
    reveal_strlit("index");
    reveal_strlit("html");
    let base = "index"@;
    let ext = "html"@;
    let dir = if rel.len() == 0 {
        rel
    } else {
        rel.push('/')
    };
    let path = index_of(rel);
    assert(path =~= dir + base.push('.') + ext);
    assert(rel.len() >= 2 ==> path[0] == rel[0] && path[1] == rel[1]);
    assert(rel.len() == 1 ==> path[1] == '/');
    assert(rel.len() == 0 ==> path[1] == 'n');
    assert(names_file(path, dir, base, ext, platform));
    law_type_of_file(kind, path, dir, base, ext, platform);
    assert(spells(ext, "html"@));
}

/// A percent sign, a plus sign and one hexadecimal digit stand for the byte of that digit.
pub proof fn law_signed_escape(y: u8, rest: Seq<u8>)
    requires
        48 <= y < 58,
    ensures
        unescape_bytes(seq![37u8, 43u8, y] + rest) == seq![(y - 48) as u8] + unescape_bytes(rest),
{
    let all = seq![37u8, 43u8, y] + rest;
    assert(all.skip(3) =~= rest);
    assert(all[0] == 37 && all[1] == 43 && all[2] == y);
}

/// A path cannot be decoded where the two bytes behind a percent sign cut a character in two.
pub proof fn law_cut_character(front: Seq<u8>, x: u8, y: u8, z: u8, rest: Seq<u8>)
    requires
        !front.contains(37u8),
        0x80 <= z < 0xc0,
    ensures
        !cuts_no_character(front + (seq![37u8, x, y, z] + rest)),
    decreases front.len(),
{
    let tail = seq![37u8, x, y, z] + rest;
    let all = front + tail;
    if front.len() == 0 {
        assert(all =~= tail);
        assert(all[3] == z && all[0] == 37);
    } else {
        let less = front.skip(1);
        assert(all[0] == front[0] && front.contains(front[0]));
        assert(!less.contains(37u8)) by {
            if less.contains(37u8) {
                let k = less.index_of(37u8);
                assert(front[k + 1] == 37u8);
            }
        }
        law_cut_character(less, x, y, z, rest);
        assert(all.skip(1) =~= less + tail);
    }
}

/// Whether a response has this status, this type and this text for its body.
pub open spec fn is_text_response(
    r: Seq<u8>,
    status: nat,
    status_text: Seq<char>,
    content_type: Seq<char>,
    body: Seq<char>,
) -> bool {
    exists|h: Seq<char>, code: Seq<char>, size: Seq<char>| #[trigger]
        is_header(h, status, status_text, content_type, encode_utf8(body).len(), code, size) && r
            == encode_utf8(h) + encode_utf8(body)
}

/// What may not be looked at and what is not there are answered by a page with their status.
pub proof fn law_refusals()
    ensures
        is_text_response(forbidden(), 403, "Forbidden"@, "text/html"@, "<h1>403 Forbidden</h1>"@),
        is_text_response(not_found(), 404, "Not Found"@, "text/html"@, "<h1>404 Not Found</h1>"@),
{
    law_text_response(403, "Forbidden"@, "text/html"@, "<h1>403 Forbidden</h1>"@);
    law_text_response(404, "Not Found"@, "text/html"@, "<h1>404 Not Found</h1>"@);
}

/// A response with a text is a header that tells its length in bytes, and then the text in UTF-8.
pub proof fn law_text_response(
    status: u16,
    status_text: Seq<char>,
    content_type: Seq<char>,
    body: Seq<char>,
)
    ensures
        is_text_response(
            text_response(status, status_text, content_type, body),
            status as nat,
            status_text,
            content_type,
            body,
        ),
{
    law_response(status, status_text, content_type, encode_utf8(body));
}

/// On Windows a drive in front of a path does not change the content type, nor do slashes behind it.
pub proof fn law_drive_and_slash_do_not_matter(path: Seq<char>, letter: char, platform: Platform)
    requires
        'a' <= letter <= 'z' || 'A' <= letter <= 'Z',
        !paths::names_drive(path),
    ensures
        path_extension(seq![letter, ':'] + path, Platform::Windows) == path_extension(
            path,
            Platform::Windows,
        ),
        path.len() != 1 ==> path_extension(path.push('/'), platform) == path_extension(path, platform),
{
    let whole = seq![letter, ':'] + path;
    assert(whole[0] == letter && whole[1] == ':');
    assert(whole.skip(2) =~= path);
    let none = Seq::<char>::empty();
    let more = path.push('/');
    if path.len() != 1 {
        assert(paths::names_drive(more) == paths::names_drive(path)) by {
            if path.len() >= 2 {
                assert(more[0] == path[0] && more[1] == path[1]);
            }
        }
        let clean = if platform is Windows {
            text::replace(path, '\\', '/')
        } else {
            path
        };
        let clean_more = if platform is Windows {
            text::replace(more, '\\', '/')
        } else {
            more
        };
        assert(clean_more =~= clean.push('/') + none);
        text::lemma_split_concat(clean, none, '/');
        text::lemma_split_whole(none, '/');
        let parts = path_pieces(path, platform);
        assert(path_pieces(more, platform) == parts + seq![none]);
        assert((parts + seq![none]).drop_last() =~= parts);
        assert((parts + seq![none]).last() == none);
    }
}

} // verus!
