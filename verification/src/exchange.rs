//! One request to the HTTP server and its answer, step by step.
//!
//! An exchange never touches the disk or the network. Each step asks for one thing, and what came of
//! it is handed back.

use vstd::prelude::*;
use vstd::utf8::*;

use crate::common;
use crate::common::{CanonicalPath, PathFacts};
use crate::httpd;
use crate::httpd::{
    build_forbidden, can_decode, choose_serving, on_header, on_request_line, parse_request_line, route,
    serve_content, FirstStep, HeaderStep, Input, Route, Serving, Wanted,
};
use crate::pages;
use crate::pages::{serve_directory, FolderEntry};
use crate::paths;
use crate::paths::Platform;
use crate::text;
use crate::unicode;

verus! {

/// Where an exchange stands.
pub enum Exchange {
    /// The request line is to come.
    First,
    /// This was the request line, and header lines are to come.
    Headers(String),
    /// What the disk says of a path is to come.
    Looking { rel: String, clean: String, head_only: bool },
    /// The content of a file is to come.
    Reading { content_type: &'static str, head_only: bool },
    /// The entries of a folder are to come.
    Listing { clean: String, head_only: bool },
    /// The answer is given.
    Over,
}

/// What an exchange wants done.
pub enum HttpAction {
    /// Read the next line, and report it with `on_line`.
    ReadLine,
    /// Add the first text to the log, look at the second, a path below the root folder, and report
    /// it with `on_looked`.
    Look(String, String),
    /// Read the file at this path below the root folder, and report it with `on_content`.
    ReadFile(String),
    /// Read the entries of the folder that was looked at, and report them with `on_entries`.
    ReadFolder,
    /// Add the text to the log, if there is one, send the bytes and close the connection.
    Send(Option<String>, Vec<u8>),
    /// Close the connection.
    Close,
}

/// Whether the action is to send these bytes and nothing else.
pub open spec fn answers(act: HttpAction, response: Seq<u8>) -> bool {
    act matches HttpAction::Send(log, bytes) && log is None && bytes@ == response
}

/// Whether `r` is the answer for content that was found: a header with the status 200, the type and the
/// length of the content, and then the content, unless only the header was asked for.
pub open spec fn is_delivery(r: Seq<u8>, kind: Seq<char>, body: Seq<u8>, head_only: bool) -> bool {
    exists|h: Seq<char>, code: Seq<char>, size: Seq<char>| #[trigger]
        httpd::is_header(h, 200, "OK"@, kind, body.len(), code, size) && if head_only {
            r == encode_utf8(h)
        } else {
            r == encode_utf8(h) + body
        }
}

/// Whether the action is to send content that was found, and nothing else.
pub open spec fn delivers(act: HttpAction, kind: Seq<char>, body: Seq<u8>, head_only: bool) -> bool {
    act matches HttpAction::Send(log, bytes) && log is None && is_delivery(
        bytes@,
        kind,
        body,
        head_only,
    )
}

/// Content is delivered behind a header, and only the header where nothing else was asked for.
pub proof fn law_delivers(kind: Seq<char>, body: Seq<u8>, head_only: bool)
    ensures
        is_delivery(httpd::content_response(kind, body, head_only), kind, body, head_only),
{
    httpd::law_response(200, "OK"@, kind, body);
}

/// Whether a line ends the headers.
pub open spec fn ends_headers(input: Input) -> bool {
    match input {
        Input::Line(line) => text::trim(line@).len() == 0,
        Input::End => true,
        Input::Failed => false,
    }
}

/// Whether a request line asks for a path with GET or HEAD.
pub open spec fn asks_for_path(line: Seq<char>) -> bool {
    let w = text::words(line);
    w.len() >= 2 && (w[0] == "GET"@ || w[0] == "HEAD"@)
}

/// Whether a request line asks for the header of the answer only.
pub open spec fn asks_for_head(line: Seq<char>) -> bool {
    text::words(line)[0] == "HEAD"@
}

/// What a path in a request leads to: it is logged in normal form, then it is looked at, or refused
/// if it leads out of the root folder.
pub open spec fn routed(
    decoded: Seq<char>,
    head_only: bool,
    platform: Platform,
    post: Exchange,
    act: HttpAction,
) -> bool {
    let clean = paths::normal(decoded);
    let entry = (if head_only {
        "HEAD "@
    } else {
        "GET "@
    }) + clean;
    match paths::confined(clean, platform) {
        Some(path) => {
            &&& act matches HttpAction::Look(log, rel)
            &&& log@ == entry
            &&& rel@ == path
            &&& post matches Exchange::Looking { rel: r, clean: c, head_only: h }
            &&& r@ == path
            &&& c@ == clean
            &&& h == head_only
        },
        None => {
            &&& act matches HttpAction::Send(log, bytes)
            &&& log matches Some(l)
            &&& l@ == entry
            &&& bytes@ == httpd::forbidden()
            &&& post is Over
        },
    }
}

/// What follows the last header line, by the request line.
pub open spec fn requested(
    line: Seq<char>,
    platform: Platform,
    post: Exchange,
    act: HttpAction,
) -> bool {
    let w = text::words(line);
    if w.len() < 2 {
        &&& post is Over
        &&& answers(
            act,
            httpd::text_response(400, "Bad Request"@, "text/plain"@, "Bad Request"@),
        )
    } else if !asks_for_path(line) {
        &&& post is Over
        &&& answers(
            act,
            httpd::text_response(
                405,
                "Method Not Allowed"@,
                "text/plain"@,
                "Method Not Allowed"@,
            ),
        )
    } else {
        let bytes = httpd::unescape_bytes(httpd::path_bytes(w[1]));
        &&& routed(unicode::utf8_lossy(bytes), asks_for_head(line), platform, post, act)
        &&& valid_utf8(bytes) ==> routed(
            decode_utf8(bytes),
            asks_for_head(line),
            platform,
            post,
            act,
        )
    }
}

/// What follows a line.
pub open spec fn line_outcome(
    pre: Exchange,
    input: Input,
    platform: Platform,
    post: Exchange,
    act: HttpAction,
) -> bool {
    match pre {
        Exchange::First => match input {
            Input::Line(line) => post == Exchange::Headers(line) && act is ReadLine,
            Input::End => post is Over && act is Close,
            Input::Failed => post is Over && answers(
                act,
                httpd::text_response(
                    414,
                    "URI Too Long"@,
                    "text/plain"@,
                    "URI Too Long"@,
                ),
            ),
        },
        Exchange::Headers(line) => if ends_headers(input) {
            requested(line@, platform, post, act)
        } else if input is Failed {
            post is Over && answers(
                act,
                httpd::text_response(
                    431,
                    "Request Header Fields Too Large"@,
                    "text/plain"@,
                    "Header too large"@,
                ),
            )
        } else {
            post == pre && act is ReadLine
        },
        _ => true,
    }
}

/// What follows a look at the disk. `root_extension` is the extension of the root folder itself.
pub open spec fn looked_outcome(
    pre: Exchange,
    root_extension: Seq<char>,
    root: Option<CanonicalPath>,
    facts: PathFacts,
    index_is_file: bool,
    platform: Platform,
    post: Exchange,
    act: HttpAction,
) -> bool {
    pre matches Exchange::Looking { rel, clean, head_only } ==> {
        if !common::within_root(root, facts) {
            post is Over && answers(act, httpd::forbidden())
        } else if facts.is_dir() && !index_is_file {
            post == Exchange::Listing { clean, head_only } && act is ReadFolder
        } else if facts.is_dir() || facts.is_file() {
            let path = if facts.is_dir() {
                httpd::index_of(rel@)
            } else {
                rel@
            };
            &&& act matches HttpAction::ReadFile(p)
            &&& p@ == path
            &&& post matches Exchange::Reading { content_type, head_only: h }
            &&& h == head_only
            &&& if path.len() == 0 {
                httpd::is_type_for(content_type@, root_extension)
            } else {
                httpd::is_type_of(content_type@, path, platform)
            }
        } else {
            post is Over && answers(act, httpd::not_found())
        }
    }
}

impl Exchange {
    /// Starts an exchange, with the request line to be read.
    pub fn new() -> (r: (Exchange, HttpAction))
        ensures
            r.0 is First,
            r.1 is ReadLine,
    {
        (Exchange::First, HttpAction::ReadLine)
    }

    /// Whether a line is to come.
    pub open spec fn wants_line(self) -> bool {
        self is First || self is Headers
    }

    /// Whether the fields fit together: the path of a folder page is in normal form, and the path that
    /// is looked at begins with no slash.
    pub open spec fn wf(self) -> bool {
        match self {
            Exchange::Looking { rel, clean, .. } => paths::is_normal(clean@)
                && httpd::starts_with_name(rel@),
            Exchange::Listing { clean, .. } => paths::is_normal(clean@),
            _ => true,
        }
    }

    /// Whether a line can be taken in: if it is the last one of a request for a path, the path can be
    /// decoded.
    pub open spec fn takes(self, input: Input) -> bool {
        self matches Exchange::Headers(line) ==> (ends_headers(input) && asks_for_path(line@)
            ==> httpd::cuts_no_character(httpd::path_bytes(text::words(line@)[1])))
    }

    /// Whether a line can be taken in.
    pub fn can_take(&self, input: &Input) -> (r: bool)
        ensures
            r == self.takes(*input),
    {
        match self {
            Exchange::Headers(line) => {
                match on_header(input) {
                    HeaderStep::Over => match parse_request_line(line.as_str()) {
                        Wanted::Path { raw_path, head_only } => can_decode(raw_path.as_str()),
                        Wanted::Nothing(_) => true,
                    },
                    _ => true,
                }
            },
            _ => true,
        }
    }

    /// Takes in a line of the request.
    pub fn on_line(&mut self, input: Input, platform: Platform) -> (act: HttpAction)
        requires
            old(self).wants_line(),
            old(self).takes(input),
        ensures
            final(self).wf(),
            line_outcome(*old(self), input, platform, *final(self), act),
    {
        let mut request: String = String::new();
        match self {
            Exchange::Headers(line) => {
                match on_header(&input) {
                    HeaderStep::More => {
                        return HttpAction::ReadLine;
                    },
                    HeaderStep::Respond(bytes) => {
                        *self = Exchange::Over;
                        return HttpAction::Send(None, bytes);
                    },
                    HeaderStep::Over => {
                        request = line.clone();
                    },
                }
            },
            _ => {
                match on_request_line(input) {
                    FirstStep::Headers(line) => {
                        *self = Exchange::Headers(line);
                        return HttpAction::ReadLine;
                    },
                    FirstStep::Close => {
                        *self = Exchange::Over;
                        return HttpAction::Close;
                    },
                    FirstStep::Respond(bytes) => {
                        *self = Exchange::Over;
                        return HttpAction::Send(None, bytes);
                    },
                }
            },
        }
        match parse_request_line(request.as_str()) {
            Wanted::Nothing(bytes) => {
                *self = Exchange::Over;
                HttpAction::Send(None, bytes)
            },
            Wanted::Path { raw_path, head_only } => {
                let r: Route = route(raw_path.as_str(), head_only, platform);
                proof {
                    paths::law_confined_stays_below(r.clean@, platform);
                }
                match r.rel {
                    Some(rel) => {
                        *self = Exchange::Looking { rel: rel.clone(), clean: r.clean, head_only };
                        HttpAction::Look(r.log, rel)
                    },
                    None => {
                        *self = Exchange::Over;
                        HttpAction::Send(Some(r.log), build_forbidden())
                    },
                }
            },
        }
    }

    /// Takes in what the disk says of the path, and whether its index page is a file.
    pub fn on_looked(
        &mut self,
        root_extension: &str,
        root: &Option<CanonicalPath>,
        facts: &PathFacts,
        index_is_file: bool,
        platform: Platform,
    ) -> (act: HttpAction)
        requires
            *old(self) is Looking,
            old(self).wf(),
        ensures
            final(self).wf(),
            looked_outcome(
                *old(self),
                root_extension@,
                *root,
                *facts,
                index_is_file,
                platform,
                *final(self),
                act,
            ),
    {
        match self {
            Exchange::Looking { rel, clean, head_only } => {
                let head: bool = *head_only;
                match choose_serving(
                    rel.as_str(),
                    root_extension,
                    root,
                    facts,
                    index_is_file,
                    platform,
                ) {
                    Serving::File(path, content_type) => {
                        proof {
                            reveal_strlit("index.html");
                            reveal_strlit("/index.html");
                        }
                        *self = Exchange::Reading { content_type, head_only: head };
                        HttpAction::ReadFile(path)
                    },
                    Serving::Folder => {
                        let page: String = clean.clone();
                        *self = Exchange::Listing { clean: page, head_only: head };
                        HttpAction::ReadFolder
                    },
                    Serving::Respond(bytes) => {
                        *self = Exchange::Over;
                        HttpAction::Send(None, bytes)
                    },
                }
            },
            _ => HttpAction::Close,
        }
    }

    /// Takes in the content of the file; without it the connection is closed.
    pub fn on_content(&mut self, content: Option<Vec<u8>>) -> (act: HttpAction)
        requires
            *old(self) is Reading,
        ensures
            *final(self) is Over,
            match content {
                Some(body) => *old(self) matches Exchange::Reading { content_type, head_only }
                    ==> answers(act, httpd::content_response(content_type@, body@, head_only)),
                None => act is Close,
            },
            *old(self) matches Exchange::Reading { content_type, head_only } ==> (content is Some
                ==> delivers(act, content_type@, content->0@, head_only)),
    {
        proof {
            match (&*self, &content) {
                (Exchange::Reading { content_type, head_only }, Some(body)) => {
                    law_delivers(content_type@, body@, *head_only);
                },
                _ => {},
            }
        }
        let mut act: HttpAction = HttpAction::Close;
        match (&*self, content) {
            (Exchange::Reading { content_type, head_only }, Some(body)) => {
                act = HttpAction::Send(None, serve_content(content_type, body.as_slice(), *head_only));
            },
            _ => {},
        }
        *self = Exchange::Over;
        act
    }

    /// Takes in the entries of the folder, if it could be read.
    pub fn on_entries(&mut self, entries: Option<Vec<FolderEntry>>) -> (act: HttpAction)
        requires
            *old(self) is Listing,
            old(self).wf(),
        ensures
            *final(self) is Over,
            *old(self) matches Exchange::Listing { clean, head_only } ==> answers(
                act,
                httpd::content_response(
                    "text/html; charset=utf-8"@,
                    encode_utf8(
                        pages::folder_page(
                            clean@,
                            match entries {
                                Some(v) => v@,
                                None => Seq::empty(),
                            },
                        ),
                    ),
                    head_only,
                ),
            ),
            *old(self) matches Exchange::Listing { clean, head_only } ==> delivers(
                act,
                "text/html; charset=utf-8"@,
                encode_utf8(
                    pages::folder_page(
                        clean@,
                        if entries is Some {
                            entries->0@
                        } else {
                            Seq::empty()
                        },
                    ),
                ),
                head_only,
            ),
    {
        let mut act: HttpAction = HttpAction::Close;
        proof {
            match &*self {
                Exchange::Listing { clean, head_only } => {
                    law_delivers(
                        "text/html; charset=utf-8"@,
                        encode_utf8(
                            pages::folder_page(
                                clean@,
                                match &entries {
                                    Some(v) => v@,
                                    None => Seq::empty(),
                                },
                            ),
                        ),
                        *head_only,
                    );
                },
                _ => {},
            }
        }
        match &*self {
            Exchange::Listing { clean, head_only } => {
                act = HttpAction::Send(None, serve_directory(clean.as_str(), entries, *head_only));
            },
            _ => {},
        }
        *self = Exchange::Over;
        act
    }
}

// ---------------------------------------------------------------------------
// Laws
// ---------------------------------------------------------------------------

/// Until the last header line has come, nothing is looked at and nothing is logged; and an answer or
/// the end of the connection is always the end of the exchange.
pub proof fn law_answer_ends_the_exchange(
    pre: Exchange,
    input: Input,
    platform: Platform,
    post: Exchange,
    act: HttpAction,
)
    requires
        pre.wants_line(),
        line_outcome(pre, input, platform, post, act),
    ensures
        act is Send || act is Close <==> post is Over,
        act is Look ==> pre is Headers && ends_headers(input),
        act matches HttpAction::Send(Some(log), _) ==> pre is Headers && ends_headers(input),
{
}

/// What an exchange wants to look at lies below the root folder by its text: it starts with no
/// slash, holds no backslash, never goes up, and on Windows names no drive.
pub proof fn law_request_looks_below_the_root(
    pre: Exchange,
    input: Input,
    platform: Platform,
    post: Exchange,
    act: HttpAction,
)
    requires
        pre.wants_line(),
        line_outcome(pre, input, platform, post, act),
    ensures
        act matches HttpAction::Look(log, rel) ==> {
            &&& rel@.len() > 0 ==> rel@[0] != '/'
            &&& !rel@.contains('\\')
            &&& platform is Windows ==> !paths::names_drive(rel@)
            &&& forall|i: int|
                0 <= i < text::split(rel@, '/').len() ==> !paths::is_dot_dot(
                    #[trigger] text::split(rel@, '/')[i],
                )
        },
{
    if pre is Headers {
        let raw_path = text::words(pre->Headers_0@)[1];
        let decoded = unicode::utf8_lossy(httpd::unescape_bytes(httpd::path_bytes(raw_path)));
        paths::law_confined_stays_below(paths::normal(decoded), platform);
    }
}

/// What is not within the root folder is answered with a refusal, and neither read nor listed.
pub proof fn law_request_outside_is_forbidden(
    pre: Exchange,
    root_extension: Seq<char>,
    root: Option<CanonicalPath>,
    facts: PathFacts,
    index_is_file: bool,
    platform: Platform,
    post: Exchange,
    act: HttpAction,
)
    requires
        pre is Looking,
        looked_outcome(pre, root_extension, root, facts, index_is_file, platform, post, act),
        !common::within_root(root, facts),
    ensures
        post is Over,
        answers(act, httpd::forbidden()),
{
}

/// A request for a path without escapes, in normal form and on Windows without a drive, is looked at
/// under that path.
pub proof fn law_plain_request_is_looked_at(
    line: Seq<char>,
    path: Seq<char>,
    platform: Platform,
    post: Exchange,
    act: HttpAction,
)
    requires
        asks_for_path(line),
        text::words(line)[1] == path,
        paths::is_normal(path),
        platform is Windows ==> !paths::names_drive(path.skip(1)),
        !encode_utf8(path).contains(37u8),
        !encode_utf8(path).contains(63u8),
        requested(line, platform, post, act),
    ensures
        act matches HttpAction::Look(log, rel) && rel@ == path.skip(1),
{
    httpd::law_plain_path_is_itself(path);
    paths::law_normal_is_stable(path);
    paths::law_normal_path_confined(path, platform);
}

/// The first word of a request line is the method and the second one the path, whatever white space
/// and further words stand behind them.
pub proof fn law_request_line(method: Seq<char>, path: Seq<char>, rest: Seq<char>)
    requires
        method.len() > 0,
        path.len() > 0,
        forall|i: int| 0 <= i < method.len() ==> !text::is_space(#[trigger] method[i]),
        forall|i: int| 0 <= i < path.len() ==> !text::is_space(#[trigger] path[i]),
    ensures
        ({
            let line = method.push(' ') + (path.push(' ') + rest);
            &&& text::words(line).len() >= 2
            &&& text::words(line)[0] == method
            &&& text::words(line)[1] == path
            &&& (asks_for_path(line) <==> method == "GET"@ || method == "HEAD"@)
            &&& (asks_for_head(line) <==> method == "HEAD"@)
        }),
{
    assert(text::is_space(' '));
    let line = method.push(' ') + (path.push(' ') + rest);
    text::law_words_concat(method, ' ', path.push(' ') + rest);
    text::law_words_concat(path, ' ', rest);
    text::law_one_word(method);
    text::law_one_word(path);
    assert(text::words(line) == seq![method] + (seq![path] + text::words(rest)));
}

/// A request for the path of some names, however it is escaped, is logged with its method and looked
/// at under these names. On Windows the path of a drive is refused.
pub proof fn law_request_looks_for_names(
    line: Seq<char>,
    names: Seq<Seq<char>>,
    platform: Platform,
    post: Exchange,
    act: HttpAction,
)
    requires
        requested(line, platform, post, act),
        asks_for_path(line),
        paths::all_names(names),
        httpd::unescape_bytes(httpd::path_bytes(text::words(line)[1])) == encode_utf8(
            seq!['/'] + text::join(names, '/'),
        ),
    ensures
        ({
            let rel = text::join(names, '/');
            let log = (if text::words(line)[0] == "HEAD"@ {
                "HEAD "@
            } else {
                "GET "@
            }) + (seq!['/'] + rel);
            if platform is Windows && paths::names_drive(rel) {
                &&& act is Send
                &&& act->Send_0 is Some
                &&& act->Send_0->0@ == log
                &&& act->Send_1@ == httpd::forbidden()
            } else {
                &&& act is Look
                &&& act->Look_0@ == log
                &&& act->Look_1@ == rel
                &&& post matches Exchange::Looking { rel: same, clean, head_only }
                &&& same@ == rel
                &&& clean@ == seq!['/'] + rel
                &&& head_only == (text::words(line)[0] == "HEAD"@)
            }
        }),
{
    let rel = text::join(names, '/');
    let path = seq!['/'] + rel;
    assert(paths::rooted(names) =~= path);
    encode_utf8_valid_utf8(path);
    encode_utf8_decode_utf8(path);
    paths::law_normal_is_stable(path);
    paths::law_normal_path_confined(path, platform);
    assert(path.skip(1) =~= rel);
}

/// What is found within the root folder is served: a folder by its index page or else by its own page,
/// a file by itself, and nothing else.
pub proof fn law_what_is_served(
    pre: Exchange,
    root_extension: Seq<char>,
    root: Option<CanonicalPath>,
    facts: PathFacts,
    index_is_file: bool,
    platform: Platform,
    post: Exchange,
    act: HttpAction,
    names: Seq<Seq<char>>,
)
    requires
        looked_outcome(pre, root_extension, root, facts, index_is_file, platform, post, act),
        pre is Looking,
        common::within_root(root, facts),
        paths::all_names(names),
        pre->rel@ == text::join(names, '/'),
        facts.meta is Some,
        !(facts.meta->0.is_dir && facts.meta->0.is_file),
        platform is Windows ==> !paths::names_drive(pre->rel@),
    ensures
        act is ReadFolder <==> facts.meta->0.is_dir && !index_is_file,
        act is ReadFile <==> facts.meta->0.is_file || (facts.meta->0.is_dir && index_is_file),
        facts.meta->0.is_dir && index_is_file ==> {
            &&& act->ReadFile_0@ == text::join(names.push("index.html"@), '/')
            &&& post is Reading
            &&& post->content_type@ == "text/html; charset=utf-8"@
        },
        facts.meta->0.is_file ==> act->ReadFile_0@ == text::join(names, '/') && post is Reading,
        facts.meta->0.is_file ==> forall|dir: Seq<char>, base: Seq<char>, ext: Seq<char>| #[trigger]
            httpd::names_file(text::join(names, '/'), dir, base, ext, platform)
                ==> httpd::is_listed(post->content_type@, ext),
{
    let rel = pre->rel@;
    reveal_strlit("index.html");
    reveal_strlit("/index.html");
    httpd::law_index_lies_in_folder(names);
    if facts.meta->0.is_dir && index_is_file {
        httpd::law_index_is_a_page(rel, post->content_type@, platform);
    }
    if facts.meta->0.is_file {
        assert forall|dir: Seq<char>, base: Seq<char>, ext: Seq<char>| #[trigger]
            httpd::names_file(rel, dir, base, ext, platform) implies httpd::is_listed(
            post->content_type@,
            ext,
        ) by {
            httpd::law_type_of_file(post->content_type@, rel, dir, base, ext, platform);
        }
    }
}

/// Whether the action is to send a response with this status and text and nothing else.
pub open spec fn refuses(
    act: HttpAction,
    status: nat,
    status_text: Seq<char>,
    body: Seq<char>,
) -> bool {
    act matches HttpAction::Send(log, bytes) && log is None && httpd::is_text_response(
        bytes@,
        status,
        status_text,
        "text/plain"@,
        body,
    )
}

/// A request line or a header that is too long, a request line of fewer than two words and a method
/// other than GET and HEAD are each answered with their own status, and that ends the exchange.
pub proof fn law_bad_requests(
    pre: Exchange,
    input: Input,
    platform: Platform,
    post: Exchange,
    act: HttpAction,
)
    requires
        pre.wants_line(),
        line_outcome(pre, input, platform, post, act),
    ensures
        pre is First && input is Failed ==> post is Over && refuses(
            act,
            414,
            "URI Too Long"@,
            "URI Too Long"@,
        ),
        pre is First && input is End ==> post is Over && act is Close,
        pre is Headers && input is Failed ==> post is Over && refuses(
            act,
            431,
            "Request Header Fields Too Large"@,
            "Header too large"@,
        ),
        pre is Headers && ends_headers(input) ==> ({
            let w = text::words(pre->Headers_0@);
            &&& w.len() < 2 ==> post is Over && refuses(act, 400, "Bad Request"@, "Bad Request"@)
            &&& w.len() >= 2 && w[0] != "GET"@ && w[0] != "HEAD"@ ==> post is Over && refuses(
                act,
                405,
                "Method Not Allowed"@,
                "Method Not Allowed"@,
            )
        }),
{
    httpd::law_text_response(414, "URI Too Long"@, "text/plain"@, "URI Too Long"@);
    httpd::law_text_response(
        431,
        "Request Header Fields Too Large"@,
        "text/plain"@,
        "Header too large"@,
    );
    httpd::law_text_response(400, "Bad Request"@, "text/plain"@, "Bad Request"@);
    httpd::law_text_response(405, "Method Not Allowed"@, "text/plain"@, "Method Not Allowed"@);
}

/// A line of nothing but white space ends the headers, and so does the end of the input; a line with
/// anything else does not.
pub proof fn law_headers_end(line: String)
    ensures
        text::all_spaces(line@) ==> ends_headers(Input::Line(line)),
        (exists|i: int| 0 <= i < line@.len() && !text::is_space(#[trigger] line@[i]))
            ==> !ends_headers(Input::Line(line)),
        ends_headers(Input::End),
        !ends_headers(Input::Failed),
{
    if text::all_spaces(line@) {
        let none = Seq::<char>::empty();
        text::law_trim(line@, none, none);
        assert(line@ + none + none =~= line@);
    }
    if exists|i: int| 0 <= i < line@.len() && !text::is_space(#[trigger] line@[i]) {
        text::law_trim_keeps_text(line@);
    }
}

/// A request can be taken in whenever its path has nothing but ASCII characters, and never when two
/// bytes behind its first percent sign cut a character in two.
pub proof fn law_requests_can_be_taken(
    line: String,
    input: Input,
    front: Seq<u8>,
    x: u8,
    y: u8,
    z: u8,
    rest: Seq<u8>,
)
    requires
        asks_for_path(line@),
    ensures
        Exchange::First.takes(input),
        is_ascii_chars(text::words(line@)[1]) ==> Exchange::Headers(line).takes(input),
        !ends_headers(input) ==> Exchange::Headers(line).takes(input),
        ({
            let path = httpd::path_bytes(text::words(line@)[1]);
            &&& ends_headers(input)
            &&& !front.contains(37u8)
            &&& path == front + (seq![37u8, x, y, z] + rest)
            &&& 0x80 <= z < 0xc0
        }) ==> !Exchange::Headers(line).takes(input),
{
    let path = text::words(line@)[1];
    let bytes = httpd::path_bytes(path);
    if is_ascii_chars(path) {
        is_ascii_chars_encode_utf8(path);
        text::lemma_first_at(encode_utf8(path), 63u8);
        assert forall|i: int| 0 <= i < bytes.len() implies #[trigger] bytes[i] < 128 by {
            assert(bytes[i] == encode_utf8(path)[i]);
            assert(path[i] as u8 == encode_utf8(path)[i]);
            assert('\0' <= path[i] <= '\u{7f}');
        }
        httpd::law_ascii_path_can_be_decoded(bytes);
    }
    if !front.contains(37u8) && 0x80 <= z < 0xc0 {
        httpd::law_cut_character(front, x, y, z, rest);
    }
}

/// A request whose path is no UTF-8 is looked for by what its bytes are read as.
pub proof fn law_request_of_other_bytes(
    line: Seq<char>,
    names: Seq<Seq<char>>,
    platform: Platform,
    post: Exchange,
    act: HttpAction,
)
    requires
        requested(line, platform, post, act),
        asks_for_path(line),
        paths::all_names(names),
        unicode::utf8_lossy(httpd::unescape_bytes(httpd::path_bytes(text::words(line)[1])))
            == seq!['/'] + text::join(names, '/'),
        !paths::names_drive(text::join(names, '/')),
    ensures
        act is Look,
        act->Look_0@ == (if text::words(line)[0] == "HEAD"@ {
            "HEAD "@
        } else {
            "GET "@
        }) + (seq!['/'] + text::join(names, '/')),
        act->Look_1@ == text::join(names, '/'),
{
    let rel = text::join(names, '/');
    let path = seq!['/'] + rel;
    assert(paths::rooted(names) =~= path);
    paths::law_normal_is_stable(path);
    paths::law_normal_path_confined(path, platform);
    assert(path.skip(1) =~= rel);
}

/// Any path in UTF-8 is looked for in its normal form, without the slash in front, and under the same
/// path as its normal form.
pub proof fn law_request_is_normalised(
    line: Seq<char>,
    path: Seq<char>,
    platform: Platform,
    post: Exchange,
    act: HttpAction,
)
    requires
        requested(line, platform, post, act),
        asks_for_path(line),
        httpd::unescape_bytes(httpd::path_bytes(text::words(line)[1])) == encode_utf8(path),
    ensures
        act is Look || act is Send,
        act matches HttpAction::Look(log, rel) ==> {
            &&& seq!['/'] + rel@ == paths::normal(path)
            &&& log@ == (if text::words(line)[0] == "HEAD"@ {
                "HEAD "@
            } else {
                "GET "@
            }) + paths::normal(path)
        },
        act is Send <==> platform is Windows && paths::names_drive(paths::normal(path).skip(1)),
{
    encode_utf8_valid_utf8(path);
    encode_utf8_decode_utf8(path);
    paths::law_normal_is_normal(path);
    let clean = paths::normal(path);
    paths::law_normal_path_confined(clean, platform);
    let names = choose|names: Seq<Seq<char>>|
        #[trigger] paths::all_names(names) && clean == paths::rooted(names);
    assert(clean[0] == '/');
    assert(seq!['/'] + clean.skip(1) =~= clean);
}

} // verus!
