//! The FTP server: one session on the control connection, command by command.
//!
//! A session never touches the disk or the network. A command is answered at once, or it asks for
//! something to be looked at or done, and the outcome is handed back to the session.

use vstd::prelude::*;
use vstd::utf8::*;

use crate::lines::LineReader;
use crate::paths;
use crate::paths::{confine, root_names, walk_path, Platform};
use crate::text;
use crate::text::{
    chars_of, find_char, part_of, replaced, same_text, starts_with, starts_with_char, stripped_end,
    trimmed, trimmed_end, trimmed_start,
};
use crate::unicode;
use crate::unicode::{char_upper, text_lossy, text_strict, to_upper, wide_text};

verus! {

/// The bytes that a command line may have before it is refused.
pub const MAX_CMD_LINE: usize = 4096;

/// How the server is set up.
pub struct ServerConfig {
    pub root_dir: String,
    pub port: u16,
    pub bind_addr: String,
    pub username: Option<String>,
    pub password: Option<String>,
}

fn copy_text(s: &Option<String>) -> (r: Option<String>)
    ensures
        r == *s,
{
    match s {
        Some(t) => Some(t.clone()),
        None => None,
    }
}

impl Clone for ServerConfig {
    fn clone(&self) -> (r: Self)
        ensures
            r == *self,
    {
        ServerConfig {
            root_dir: self.root_dir.clone(),
            port: self.port,
            bind_addr: self.bind_addr.clone(),
            username: copy_text(&self.username),
            password: copy_text(&self.password),
        }
    }
}

// ---------------------------------------------------------------------------
// Command lines
// ---------------------------------------------------------------------------

/// Starts to read a command line. A line of more bytes than the limit is dropped as a whole.
pub fn new_command() -> (r: LineReader)
    ensures
        r.wf(),
        r.line.buf@ == Seq::<u8>::empty(),
        r.line.limit == MAX_CMD_LINE,
        r.line.limit == 4096,
        !r.skipping,
{
    LineReader::new(MAX_CMD_LINE)
}

/// The text of bytes that are not UTF-8: as the system's code page reads them, in UTF-16, if it
/// does.
pub open spec fn codepage_text(bytes: Seq<u8>, wide: Option<Seq<u16>>) -> Seq<char> {
    match wide {
        Some(w) => unicode::utf16_lossy(w),
        None => unicode::utf8_lossy(bytes),
    }
}

/// The text of a command line: UTF-8, or else as the system's code page reads it.
pub open spec fn line_string(bytes: Seq<u8>, wide: Option<Seq<u16>>) -> Seq<char> {
    if valid_utf8(bytes) {
        decode_utf8(bytes)
    } else {
        codepage_text(bytes, wide)
    }
}

/// What the system's code page makes of bytes, as a sequence.
pub open spec fn wide_view(wide: Option<Vec<u16>>) -> Option<Seq<u16>> {
    match wide {
        Some(w) => Some(w@),
        None => None,
    }
}

/// The text of bytes that are not UTF-8.
pub fn decode_system_codepage(bytes: &[u8], wide: &Option<Vec<u16>>) -> (s: String)
    ensures
        s@ == codepage_text(bytes@, wide_view(*wide)),
        *wide is None && valid_utf8(bytes@) ==> s@ == decode_utf8(bytes@),
{
    match wide {
        Some(w) => wide_text(w.as_slice()),
        None => text_lossy(bytes),
    }
}

/// The text of bytes: UTF-8, or else as the system's code page reads them.
pub fn bytes_to_string(bytes: &[u8], wide: &Option<Vec<u16>>) -> (s: String)
    ensures
        s@ == line_string(bytes@, wide_view(*wide)),
{
    match text_strict(bytes) {
        Some(s) => s,
        None => decode_system_codepage(bytes, wide),
    }
}

/// The command line that was read, without the white space at its end; nothing, if it is not UTF-8.
pub fn utf8_command(bytes: &[u8]) -> (r: Option<String>)
    ensures
        r is Some <==> valid_utf8(bytes@),
        r matches Some(s) ==> forall|wide: Option<Seq<u16>>|
            s@ == text::trim_end(#[trigger] line_string(bytes@, wide)),
{
    match text_strict(bytes) {
        Some(line) => Some(trimmed_end(line.as_str())),
        None => None,
    }
}

/// The command line that was read and is not UTF-8, without the white space at its end.
pub fn codepage_command(bytes: &[u8], wide: &Option<Vec<u16>>) -> (s: String)
    ensures
        s@ == text::trim_end(codepage_text(bytes@, wide_view(*wide))),
        !valid_utf8(bytes@) ==> s@ == text::trim_end(line_string(bytes@, wide_view(*wide))),
{
    let line: String = decode_system_codepage(bytes, wide);
    trimmed_end(line.as_str())
}

/// The command word of a line, as it was typed: everything up to the first blank.
pub open spec fn word_of(line: Seq<char>) -> Seq<char> {
    line.take(text::first_at(line, ' '))
}

/// What follows the first blank of a line.
pub open spec fn args_of(line: Seq<char>) -> Seq<char> {
    let n = text::first_at(line, ' ');
    if n < line.len() {
        line.skip(n + 1)
    } else {
        Seq::empty()
    }
}

/// The command word of a line and what follows it.
pub fn split_line(line: &str) -> (r: (String, String))
    ensures
        r.0@ == word_of(line@),
        r.1@ == args_of(line@),
{
    let v: Vec<char> = chars_of(line);
    let n: usize = find_char(&v, ' ');
    let word: String = part_of(&v, 0, n);
    assert(word@ =~= word_of(line@));
    if n < v.len() {
        let args: String = part_of(&v, n + 1, v.len());
        assert(args@ =~= args_of(line@));
        (word, args)
    } else {
        (word, String::new())
    }
}

/// The commands.
#[derive(Clone, Copy, PartialEq, Eq, Structural)]
pub enum Verb {
    User,
    Pass,
    Syst,
    Feat,
    Opts,
    Pwd,
    Cwd,
    Cdup,
    Type,
    Pasv,
    Epsv,
    List,
    Nlst,
    Retr,
    Stor,
    Size,
    Dele,
    Mkd,
    Rmd,
    Rnfr,
    Rnto,
    Noop,
    Quit,
    Unknown,
}

/// The command that a word in capitals names.
pub open spec fn verb_of(cmd: Seq<char>) -> Verb {
    if cmd == "USER"@ {
        Verb::User
    } else if cmd == "PASS"@ {
        Verb::Pass
    } else if cmd == "SYST"@ {
        Verb::Syst
    } else if cmd == "FEAT"@ {
        Verb::Feat
    } else if cmd == "OPTS"@ {
        Verb::Opts
    } else if cmd == "PWD"@ || cmd == "XPWD"@ {
        Verb::Pwd
    } else if cmd == "CWD"@ || cmd == "XCWD"@ {
        Verb::Cwd
    } else if cmd == "CDUP"@ || cmd == "XCUP"@ {
        Verb::Cdup
    } else if cmd == "TYPE"@ {
        Verb::Type
    } else if cmd == "PASV"@ {
        Verb::Pasv
    } else if cmd == "EPSV"@ {
        Verb::Epsv
    } else if cmd == "LIST"@ {
        Verb::List
    } else if cmd == "NLST"@ {
        Verb::Nlst
    } else if cmd == "RETR"@ {
        Verb::Retr
    } else if cmd == "STOR"@ {
        Verb::Stor
    } else if cmd == "SIZE"@ {
        Verb::Size
    } else if cmd == "DELE"@ {
        Verb::Dele
    } else if cmd == "MKD"@ || cmd == "XMKD"@ {
        Verb::Mkd
    } else if cmd == "RMD"@ || cmd == "XRMD"@ {
        Verb::Rmd
    } else if cmd == "RNFR"@ {
        Verb::Rnfr
    } else if cmd == "RNTO"@ {
        Verb::Rnto
    } else if cmd == "NOOP"@ {
        Verb::Noop
    } else if cmd == "QUIT"@ {
        Verb::Quit
    } else {
        Verb::Unknown
    }
}

/// The command that a word in capitals names.
pub fn parse_verb(cmd: &str) -> (v: Verb)
    ensures
        v == verb_of(cmd@),
{
    if same_text(cmd, "USER") {
        Verb::User
    } else if same_text(cmd, "PASS") {
        Verb::Pass
    } else if same_text(cmd, "SYST") {
        Verb::Syst
    } else if same_text(cmd, "FEAT") {
        Verb::Feat
    } else if same_text(cmd, "OPTS") {
        Verb::Opts
    } else if same_text(cmd, "PWD") || same_text(cmd, "XPWD") {
        Verb::Pwd
    } else if same_text(cmd, "CWD") || same_text(cmd, "XCWD") {
        Verb::Cwd
    } else if same_text(cmd, "CDUP") || same_text(cmd, "XCUP") {
        Verb::Cdup
    } else if same_text(cmd, "TYPE") {
        Verb::Type
    } else if same_text(cmd, "PASV") {
        Verb::Pasv
    } else if same_text(cmd, "EPSV") {
        Verb::Epsv
    } else if same_text(cmd, "LIST") {
        Verb::List
    } else if same_text(cmd, "NLST") {
        Verb::Nlst
    } else if same_text(cmd, "RETR") {
        Verb::Retr
    } else if same_text(cmd, "STOR") {
        Verb::Stor
    } else if same_text(cmd, "SIZE") {
        Verb::Size
    } else if same_text(cmd, "DELE") {
        Verb::Dele
    } else if same_text(cmd, "MKD") || same_text(cmd, "XMKD") {
        Verb::Mkd
    } else if same_text(cmd, "RMD") || same_text(cmd, "XRMD") {
        Verb::Rmd
    } else if same_text(cmd, "RNFR") {
        Verb::Rnfr
    } else if same_text(cmd, "RNTO") {
        Verb::Rnto
    } else if same_text(cmd, "NOOP") {
        Verb::Noop
    } else if same_text(cmd, "QUIT") {
        Verb::Quit
    } else {
        Verb::Unknown
    }
}

/// The arguments of a listing without the flags in front, such as `-la`.
pub open spec fn without_flags(s: Seq<char>) -> Seq<char>
    decreases s.len(),
{
    let n = text::first_at(s, ' ');
    if s.len() > 0 && s[0] == '-' {
        if n < s.len() {
            proof {
                text::lemma_first_at(s, ' ');
                text::lemma_trim_start_len(s.skip(n + 1));
            }
            without_flags(text::trim_start(s.skip(n + 1)))
        } else {
            Seq::empty()
        }
    } else {
        s
    }
}

/// The arguments of a listing without the flags in front.
pub fn strip_ls_flags(args: &str) -> (r: String)
    ensures
        r@ == without_flags(args@),
{
    let mut s: String = args.to_owned();
    while starts_with_char(s.as_str(), '-')
        invariant
            without_flags(args@) == without_flags(s@),
        decreases s@.len(),
    {
        let v: Vec<char> = chars_of(s.as_str());
        let n: usize = find_char(&v, ' ');
        if n == v.len() {
            return String::new();
        }
        let rest: String = part_of(&v, n + 1, v.len());
        assert(rest@ =~= s@.skip(n + 1));
        proof {
            text::lemma_trim_start_len(rest@);
        }
        s = trimmed_start(rest.as_str());
    }
    s
}

/// Whether `tail` is the end of `s`.
pub open spec fn is_end_of(tail: Seq<char>, s: Seq<char>) -> bool {
    tail.len() <= s.len() && s.skip(s.len() - tail.len()) == tail
}

/// What ends a text ends whatever that text ends.
proof fn lemma_end_of_end(a: Seq<char>, b: Seq<char>, c: Seq<char>)
    requires
        is_end_of(a, b),
        is_end_of(b, c),
    ensures
        is_end_of(a, c),
{
    assert(c.skip(c.len() - a.len()) =~= b.skip(b.len() - a.len()));
}

/// Trimming the front leaves the end of a text.
proof fn lemma_trim_start_end(s: Seq<char>)
    ensures
        is_end_of(text::trim_start(s), s),
    decreases s.len(),
{
    if s.len() > 0 && text::is_space(s[0]) {
        lemma_trim_start_end(s.skip(1));
        assert(is_end_of(s.skip(1), s));
        lemma_end_of_end(text::trim_start(s), s.skip(1), s);
    } else {
        assert(s.skip(0) =~= s);
    }
}

/// What is left of the arguments of a listing is the end of them and begins with no flag; so there is
/// nothing more to strip, and arguments without a flag in front stay as they are.
pub proof fn law_flags_are_stripped(args: Seq<char>)
    ensures
        is_end_of(without_flags(args), args),
        without_flags(args).len() > 0 ==> without_flags(args)[0] != '-',
        without_flags(without_flags(args)) == without_flags(args),
        args.len() == 0 || args[0] != '-' ==> without_flags(args) == args,
    decreases args.len(),
{
    let n = text::first_at(args, ' ');
    text::lemma_first_at(args, ' ');
    if args.len() > 0 && args[0] == '-' {
        if n < args.len() {
            let rest = args.skip(n + 1);
            text::lemma_trim_start_len(rest);
            law_flags_are_stripped(text::trim_start(rest));
            lemma_trim_start_end(rest);
            assert(is_end_of(rest, args));
            lemma_end_of_end(text::trim_start(rest), rest, args);
            lemma_end_of_end(without_flags(args), text::trim_start(rest), args);
        } else {
            assert(args.skip(args.len() as int) =~= Seq::<char>::empty());
        }
    } else {
        assert(args.skip(0) =~= args);
    }
}

// ---------------------------------------------------------------------------
// Sessions
// ---------------------------------------------------------------------------

/// The state of a session.
pub struct FtpSession {
    pub current_dir: String,
    /// Whether a listener for a data connection is open.
    pub data_listener: bool,
    pub transfer_type: char,
    pub authenticated: bool,
    pub got_user: bool,
    pub expected_user: Option<String>,
    pub expected_pass: Option<String>,
    /// The platform on which the root folder lies.
    pub platform: Platform,
}

/// The commands about a path.
#[derive(Clone, Copy, PartialEq, Eq, Structural)]
pub enum PathOp {
    Cwd,
    List,
    Nlst,
    Retr,
    Stor,
    Size,
    Dele,
    Mkd,
    Rmd,
    Rnfr,
}

/// A command about a path: the path as it was given, and the path below the root folder.
pub struct PathJob {
    pub op: PathOp,
    pub arg: String,
    pub rel: String,
}

/// What a session wants done.
pub enum FtpAction {
    /// Send this reply.
    Reply(String),
    /// Send this reply and end the session.
    Close(String),
    /// Open a listener for a data connection on the address of the session, and report it with
    /// `pasv_ready`.
    ListenHere,
    /// Open a listener for a data connection on all addresses, and report it with `epsv_ready`.
    ListenAnywhere,
    /// Look at the path, and report it with `inspected`.
    Inspect(PathJob),
    /// Send this reply, open the data connection with `accept_data`, then move the data. The number
    /// is the size of the file to send.
    Transfer(String, PathJob, u64),
    /// Change the disk, and report it with `change_finished`.
    Change(PathJob),
}

/// Whether the action is to send this reply and nothing else.
pub open spec fn sends(act: FtpAction, reply: Seq<char>) -> bool {
    act matches FtpAction::Reply(t) && t@ == reply
}

fn reply(t: &str) -> (act: FtpAction)
    ensures
        sends(act, t@),
{
    FtpAction::Reply(t.to_owned())
}

/// The normal form of a path that is given in the folder `cwd`.
pub open spec fn normal_in(cwd: Seq<char>, path: Seq<char>) -> Seq<char> {
    let clean = text::replace(path, '\\', '/');
    let raw = if clean.len() > 0 && clean[0] == '/' {
        clean
    } else {
        text::strip_end(cwd, '/').push('/') + clean
    };
    paths::rooted(paths::walk(Seq::empty(), text::split(raw, '/')))
}

/// The path below the root folder for a path that is given in the folder `cwd`; nothing, if it
/// leads out of the root folder.
pub open spec fn resolved_in(cwd: Seq<char>, path: Seq<char>, platform: Platform) -> Option<
    Seq<char>,
> {
    paths::confined(normal_in(cwd, path), platform)
}

/// What USER does: it logs in where no name is expected, and with the expected name where no
/// password is.
pub open spec fn user_outcome(
    pre: FtpSession,
    args: Seq<char>,
    post: FtpSession,
    act: FtpAction,
) -> bool {
    let known = pre.expected_user is None || text::trim(args) == pre.expected_user->0@;
    let granted = pre.expected_user is None || (known && pre.expected_pass is None);
    &&& post == (FtpSession {
        got_user: true,
        authenticated: pre.authenticated || granted,
        ..pre
    })
    &&& sends(
        act,
        if granted {
            "230 User logged in\r\n"@
        } else if known {
            "331 Password required\r\n"@
        } else {
            "530 Invalid username\r\n"@
        },
    )
}

/// What PASS does: after some USER, it logs in where no password is expected, and with the
/// expected one.
pub open spec fn pass_outcome(
    pre: FtpSession,
    args: Seq<char>,
    post: FtpSession,
    act: FtpAction,
) -> bool {
    let right = pre.expected_pass is None || text::trim(args) == pre.expected_pass->0@;
    &&& post == (FtpSession {
        authenticated: pre.authenticated || (pre.got_user && right),
        ..pre
    })
    &&& sends(
        act,
        if !pre.got_user {
            "503 Login with USER first\r\n"@
        } else if right {
            "230 User logged in\r\n"@
        } else {
            "530 Login incorrect\r\n"@
        },
    )
}

/// The reply to OPTS, by its arguments in capitals.
pub open spec fn opts_text(upper: Seq<char>) -> Seq<char> {
    if text::begins_with(upper, "UTF8"@) {
        "200 UTF8 mode enabled\r\n"@
    } else {
        "501 Option not understood\r\n"@
    }
}

/// What OPTS does.
pub open spec fn opts_outcome(
    pre: FtpSession,
    args: Seq<char>,
    post: FtpSession,
    act: FtpAction,
) -> bool {
    &&& post == pre
    &&& sends(act, opts_text(unicode::uppercase(args)))
    &&& is_ascii_chars(args) ==> sends(
        act,
        opts_text(args.map_values(|c: char| unicode::ascii_upper(c))),
    )
}

/// The type that TYPE asks for: the first letter of its arguments as a capital, or else A.
pub open spec fn type_letter(args: Seq<char>) -> char {
    let t = text::trim(args);
    if t.len() == 0 {
        'A'
    } else {
        unicode::ascii_upper(t[0])
    }
}

/// What TYPE does.
pub open spec fn type_outcome(
    pre: FtpSession,
    args: Seq<char>,
    post: FtpSession,
    act: FtpAction,
) -> bool {
    let t = type_letter(args);
    if t == 'A' || t == 'I' {
        &&& post == (FtpSession { transfer_type: t, ..pre })
        &&& sends(act, ("200 Type set to "@).push(t) + "\r\n"@)
    } else {
        &&& post == pre
        &&& sends(act, "504 Type not supported\r\n"@)
    }
}

/// What a command about a path does before the disk is looked at: `arg` is what stands behind the
/// command, `path` the path that is meant.
pub open spec fn path_outcome(
    pre: FtpSession,
    op: PathOp,
    arg: Seq<char>,
    path: Seq<char>,
    post: FtpSession,
    act: FtpAction,
) -> bool {
    let rel = resolved_in(pre.current_dir@, path, pre.platform);
    &&& post == pre
    &&& if !pre.authenticated {
        sends(act, "530 Not logged in\r\n"@)
    } else if rel is None {
        sends(act, "550 Access denied\r\n"@)
    } else {
        act matches FtpAction::Inspect(job) && job.op == op && job.arg@ == arg && job.rel@ == rel->0
    }
}

/// The path that a listing is about: its arguments without flags, or else the current folder.
pub open spec fn listed_path(pre: FtpSession, args: Seq<char>) -> Seq<char> {
    let path = without_flags(text::trim(args));
    if path.len() == 0 {
        pre.current_dir@
    } else {
        path
    }
}

/// What a command that opens a listener does.
pub open spec fn listen_outcome(
    pre: FtpSession,
    here: bool,
    post: FtpSession,
    act: FtpAction,
) -> bool {
    &&& post == pre
    &&& if !pre.authenticated {
        sends(act, "530 Not logged in\r\n"@)
    } else if here {
        act is ListenHere
    } else {
        act is ListenAnywhere
    }
}

/// What a command does: `cmd` is its word in capitals, `args` is what follows it.
pub open spec fn outcome(
    pre: FtpSession,
    cmd: Seq<char>,
    args: Seq<char>,
    post: FtpSession,
    act: FtpAction,
) -> bool {
    let arg = text::trim(args);
    match verb_of(cmd) {
        Verb::User => user_outcome(pre, args, post, act),
        Verb::Pass => pass_outcome(pre, args, post, act),
        Verb::Syst => post == pre && sends(act, "215 Windows_NT\r\n"@),
        Verb::Feat => post == pre && sends(
            act,
            "211-Features:\r\n PASV\r\n SIZE\r\n UTF8\r\n211 End\r\n"@,
        ),
        Verb::Opts => opts_outcome(pre, args, post, act),
        Verb::Pwd => post == pre && sends(act, "257 \""@ + pre.current_dir@ + "\"\r\n"@),
        Verb::Cwd => path_outcome(pre, PathOp::Cwd, arg, arg, post, act),
        Verb::Cdup => path_outcome(pre, PathOp::Cwd, ".."@, ".."@, post, act),
        Verb::Type => type_outcome(pre, args, post, act),
        Verb::Pasv => listen_outcome(pre, true, post, act),
        Verb::Epsv => listen_outcome(pre, false, post, act),
        Verb::List => path_outcome(pre, PathOp::List, arg, listed_path(pre, args), post, act),
        Verb::Nlst => path_outcome(pre, PathOp::Nlst, arg, listed_path(pre, args), post, act),
        Verb::Retr => path_outcome(pre, PathOp::Retr, arg, arg, post, act),
        Verb::Stor => path_outcome(pre, PathOp::Stor, arg, arg, post, act),
        Verb::Size => path_outcome(pre, PathOp::Size, arg, arg, post, act),
        Verb::Dele => path_outcome(pre, PathOp::Dele, arg, arg, post, act),
        Verb::Mkd => path_outcome(pre, PathOp::Mkd, arg, arg, post, act),
        Verb::Rmd => path_outcome(pre, PathOp::Rmd, arg, arg, post, act),
        Verb::Rnfr => path_outcome(pre, PathOp::Rnfr, arg, arg, post, act),
        Verb::Rnto => post == pre && sends(act, "502 RNTO not fully implemented\r\n"@),
        Verb::Noop => post == pre && sends(act, "200 OK\r\n"@),
        Verb::Quit => post == pre && (act matches FtpAction::Close(t) && t@ == "221 Goodbye\r\n"@),
        Verb::Unknown => post == pre && sends(
            act,
            "502 Command not implemented: "@ + cmd + "\r\n"@,
        ),
    }
}

/// Whether a command is about the path that stands behind it.
pub open spec fn takes_path(verb: Verb) -> bool {
    match verb {
        Verb::Cwd | Verb::Retr | Verb::Stor | Verb::Size | Verb::Dele | Verb::Mkd | Verb::Rmd
        | Verb::Rnfr => true,
        _ => false,
    }
}

/// Whether a command about a path, given in the folder of `names`, looks where it should: what it
/// looks at for a path of the names `parts` has the names of the folder in front of them, and for a
/// path that begins with a slash it has not.
pub open spec fn looks_for(
    pre: FtpSession,
    cmd: Seq<char>,
    args: Seq<char>,
    act: FtpAction,
    names: Seq<Seq<char>>,
    parts: Seq<Seq<char>>,
) -> bool {
    let path = text::join(parts, '/');
    act is Inspect && pre.current_dir@ == paths::rooted(names) && parts.len() > 0 && takes_path(
        verb_of(cmd),
    ) ==> {
        let rel = act->Inspect_0.rel@;
        &&& text::trim(args) == path ==> rel == text::join(names + parts, '/')
        &&& text::trim(args) == seq!['/'] + path ==> rel == path
    }
}

/// What the log shows of a command line: the password of PASS is hidden.
pub open spec fn shown_line(cmd: Seq<char>, line: Seq<char>) -> Seq<char> {
    if verb_of(cmd) == Verb::Pass {
        "PASS ****"@
    } else {
        line
    }
}

/// The reply to OPTS, by its arguments in capitals.
pub fn opts_reply(upper: &str) -> (r: String)
    ensures
        r@ == opts_text(upper@),
{
    if starts_with(upper, "UTF8") {
        "200 UTF8 mode enabled\r\n".to_owned()
    } else {
        "501 Option not understood\r\n".to_owned()
    }
}

/// What the log shows of a command line.
pub fn display_line(cmd: &str, line: &str) -> (r: String)
    ensures
        r@ == shown_line(cmd@, line@),
{
    if parse_verb(cmd) == Verb::Pass {
        "PASS ****".to_owned()
    } else {
        line.to_owned()
    }
}

impl FtpSession {
    /// Whether the fields fit together: the current folder is in normal form, and the type is one
    /// of the two that there are.
    pub open spec fn wf(self) -> bool {
        &&& paths::is_normal(self.current_dir@)
        &&& self.transfer_type == 'A' || self.transfer_type == 'I'
    }

    /// Starts a session at the top of the root folder. It is logged in exactly if no name is
    /// expected.
    pub fn new(config: &ServerConfig, platform: Platform) -> (s: FtpSession)
        ensures
            s.wf(),
            s.current_dir@ == "/"@,
            !s.data_listener,
            s.transfer_type == 'A',
            s.authenticated == (config.username is None),
            config.username is Some ==> !s.authenticated,
            !s.got_user,
            s.expected_user == config.username,
            s.expected_pass == config.password,
            s.platform == platform,
    {
        proof {
            reveal_strlit("/");
            let top = Seq::<Seq<char>>::empty();
            assert("/"@ =~= paths::rooted(top));
            assert(paths::all_names(top));
        }
        FtpSession {
            current_dir: "/".to_owned(),
            data_listener: false,
            transfer_type: 'A',
            authenticated: config.username.is_none(),
            got_user: false,
            expected_user: copy_text(&config.username),
            expected_pass: copy_text(&config.password),
            platform,
        }
    }

    /// What a session sends first.
    pub fn greeting() -> (r: String)
        ensures
            r@ == "220 Simple FTP Server ready\r\n"@,
    {
        "220 Simple FTP Server ready\r\n".to_owned()
    }

    /// Whether the session is logged in.
    pub fn require_auth(&self) -> (r: bool)
        ensures
            r == self.authenticated,
    {
        self.authenticated
    }

    /// Takes in a command line. Gives what the log shows of it, and what is to be done.
    pub fn handle_command(&mut self, cmd_line: &str) -> (r: (String, FtpAction))
        requires
            old(self).wf(),
        ensures
            final(self).wf(),
            r.0@ == shown_line(unicode::uppercase(word_of(cmd_line@)), cmd_line@),
            outcome(
                *old(self),
                unicode::uppercase(word_of(cmd_line@)),
                args_of(cmd_line@),
                *final(self),
                r.1,
            ),
            is_ascii_chars(word_of(cmd_line@)) ==> ({
                let cmd = word_of(cmd_line@).map_values(|c: char| unicode::ascii_upper(c));
                &&& r.0@ == shown_line(cmd, cmd_line@)
                &&& outcome(*old(self), cmd, args_of(cmd_line@), *final(self), r.1)
                &&& forall|names: Seq<Seq<char>>, parts: Seq<Seq<char>>|
                    #[trigger] paths::all_names(names) && #[trigger] paths::all_names(parts)
                        ==> looks_for(*old(self), cmd, args_of(cmd_line@), r.1, names, parts)
            }),
    {
        let (word, args) = split_line(cmd_line);
        let cmd: String = to_upper(word.as_str());
        let shown: String = display_line(cmd.as_str(), cmd_line);
        let act: FtpAction = self.dispatch(cmd.as_str(), args.as_str());
        (shown, act)
    }

    /// Carries out a command: `cmd` is its word in capitals, `args` is what follows it.
    pub fn dispatch(&mut self, cmd: &str, args: &str) -> (act: FtpAction)
        requires
            old(self).wf(),
        ensures
            final(self).wf(),
            outcome(*old(self), cmd@, args@, *final(self), act),
            forall|names: Seq<Seq<char>>, parts: Seq<Seq<char>>|
                #[trigger] paths::all_names(names) && #[trigger] paths::all_names(parts)
                    ==> looks_for(*old(self), cmd@, args@, act, names, parts),
    {
        let act: FtpAction = self.carry_out(cmd, args);
        proof {
            assert forall|names: Seq<Seq<char>>, parts: Seq<Seq<char>>|
                #[trigger] paths::all_names(names) && #[trigger] paths::all_names(
                    parts,
                ) implies looks_for(*old(self), cmd@, args@, act, names, parts) by {
                law_names_are_looked_for(*old(self), cmd@, args@, *self, act, names, parts);
            }
        }
        act
    }

    fn carry_out(&mut self, cmd: &str, args: &str) -> (act: FtpAction)
        requires
            old(self).wf(),
        ensures
            final(self).wf(),
            outcome(*old(self), cmd@, args@, *final(self), act),
    {
        match parse_verb(cmd) {
            Verb::User => self.cmd_user(args),
            Verb::Pass => self.cmd_pass(args),
            Verb::Syst => reply("215 Windows_NT\r\n"),
            Verb::Feat => reply("211-Features:\r\n PASV\r\n SIZE\r\n UTF8\r\n211 End\r\n"),
            Verb::Opts => self.cmd_opts(args),
            Verb::Pwd => self.cmd_pwd(),
            Verb::Cwd => self.cmd_path(PathOp::Cwd, args),
            Verb::Cdup => self.path_command(PathOp::Cwd, "..".to_owned(), ".."),
            Verb::Type => self.cmd_type(args),
            Verb::Pasv => self.cmd_pasv(),
            Verb::Epsv => self.cmd_epsv(),
            Verb::List => self.cmd_listing(PathOp::List, args),
            Verb::Nlst => self.cmd_listing(PathOp::Nlst, args),
            Verb::Retr => self.cmd_path(PathOp::Retr, args),
            Verb::Stor => self.cmd_path(PathOp::Stor, args),
            Verb::Size => self.cmd_path(PathOp::Size, args),
            Verb::Dele => self.cmd_path(PathOp::Dele, args),
            Verb::Mkd => self.cmd_path(PathOp::Mkd, args),
            Verb::Rmd => self.cmd_path(PathOp::Rmd, args),
            Verb::Rnfr => self.cmd_path(PathOp::Rnfr, args),
            Verb::Rnto => reply("502 RNTO not fully implemented\r\n"),
            Verb::Noop => reply("200 OK\r\n"),
            Verb::Quit => FtpAction::Close("221 Goodbye\r\n".to_owned()),
            Verb::Unknown => {
                let mut t: String = "502 Command not implemented: ".to_owned();
                t.append(cmd);
                t.append("\r\n");
                FtpAction::Reply(t)
            },
        }
    }

    /// USER.
    pub fn cmd_user(&mut self, args: &str) -> (act: FtpAction)
        ensures
            user_outcome(*old(self), args@, *final(self), act),
    {
        let user: String = trimmed(args);
        self.got_user = true;
        let known: bool = match &self.expected_user {
            None => {
                self.authenticated = true;
                return reply("230 User logged in\r\n");
            },
            Some(expected) => same_text(user.as_str(), expected.as_str()),
        };
        if !known {
            return reply("530 Invalid username\r\n");
        }
        if self.expected_pass.is_none() {
            self.authenticated = true;
            reply("230 User logged in\r\n")
        } else {
            reply("331 Password required\r\n")
        }
    }

    /// PASS.
    pub fn cmd_pass(&mut self, args: &str) -> (act: FtpAction)
        ensures
            pass_outcome(*old(self), args@, *final(self), act),
    {
        if !self.got_user {
            return reply("503 Login with USER first\r\n");
        }
        let pass: String = trimmed(args);
        let right: bool = match &self.expected_pass {
            None => true,
            Some(expected) => same_text(pass.as_str(), expected.as_str()),
        };
        if right {
            self.authenticated = true;
            reply("230 User logged in\r\n")
        } else {
            reply("530 Login incorrect\r\n")
        }
    }

    /// OPTS.
    pub fn cmd_opts(&self, args: &str) -> (act: FtpAction)
        ensures
            opts_outcome(*self, args@, *self, act),
    {
        let upper: String = to_upper(args);
        FtpAction::Reply(opts_reply(upper.as_str()))
    }

    /// The normal form of a path that is given in the current folder.
    pub fn normalize_ftp_path(&self, path: &str) -> (r: String)
        ensures
            r@ == normal_in(self.current_dir@, path@),
            self.wf() ==> paths::is_normal(r@),
    {
        let clean: String = replaced(path, '\\', '/');
        let raw: String = if starts_with_char(clean.as_str(), '/') {
            clean
        } else {
            let mut raw: String = stripped_end(self.current_dir.as_str(), '/');
            raw.push('/');
            raw.append(clean.as_str());
            raw
        };
        let v: Vec<char> = chars_of(raw.as_str());
        let top: Vec<Vec<char>> = Vec::new();
        assert(text::pieces(top@) =~= Seq::<Seq<char>>::empty());
        let names: Vec<Vec<char>> = walk_path(top, &v);
        proof {
            if self.wf() {
                law_normal_in_is_normal(self.current_dir@, path@);
            }
        }
        root_names(&names)
    }

    /// The path below the root folder for a path that is given in the current folder.
    pub fn resolve_path(&self, ftp_path: &str) -> (r: Option<String>)
        ensures
            r is Some <==> resolved_in(self.current_dir@, ftp_path@, self.platform) is Some,
            r matches Some(rel) ==> Some(rel@) == resolved_in(
                self.current_dir@,
                ftp_path@,
                self.platform,
            ),
    {
        let normalized: String = self.normalize_ftp_path(ftp_path);
        confine(normalized.as_str(), self.platform)
    }

    /// PWD.
    pub fn cmd_pwd(&self) -> (act: FtpAction)
        ensures
            sends(act, "257 \""@ + self.current_dir@ + "\"\r\n"@),
    {
        let mut t: String = "257 \"".to_owned();
        t.append(self.current_dir.as_str());
        t.append("\"\r\n");
        FtpAction::Reply(t)
    }

    /// A command about a path.
    fn path_command(&self, op: PathOp, arg: String, path: &str) -> (act: FtpAction)
        ensures
            path_outcome(*self, op, arg@, path@, *self, act),
    {
        if !self.require_auth() {
            return reply("530 Not logged in\r\n");
        }
        match self.resolve_path(path) {
            Some(rel) => FtpAction::Inspect(PathJob { op, arg, rel }),
            None => reply("550 Access denied\r\n"),
        }
    }

    /// CWD, RETR, STOR, SIZE, DELE, MKD, RMD and RNFR: the path stands behind the command.
    pub fn cmd_path(&self, op: PathOp, args: &str) -> (act: FtpAction)
        ensures
            path_outcome(*self, op, text::trim(args@), text::trim(args@), *self, act),
    {
        let arg: String = trimmed(args);
        let path: String = arg.clone();
        self.path_command(op, arg, path.as_str())
    }

    /// LIST and NLST: flags may stand in front of the path, and without a path the current folder
    /// is meant.
    pub fn cmd_listing(&self, op: PathOp, args: &str) -> (act: FtpAction)
        ensures
            path_outcome(*self, op, text::trim(args@), listed_path(*self, args@), *self, act),
    {
        let arg: String = trimmed(args);
        let path: String = strip_ls_flags(arg.as_str());
        if path.as_str().is_empty() {
            self.path_command(op, arg, self.current_dir.as_str())
        } else {
            self.path_command(op, arg, path.as_str())
        }
    }

    /// TYPE.
    pub fn cmd_type(&mut self, args: &str) -> (act: FtpAction)
        ensures
            type_outcome(*old(self), args@, *final(self), act),
    {
        let arg: String = trimmed(args);
        let v: Vec<char> = chars_of(arg.as_str());
        let t: char = if v.len() == 0 {
            'A'
        } else {
            char_upper(v[0])
        };
        if t == 'A' || t == 'I' {
            self.transfer_type = t;
            let mut s: String = "200 Type set to ".to_owned();
            s.push(t);
            s.append("\r\n");
            FtpAction::Reply(s)
        } else {
            reply("504 Type not supported\r\n")
        }
    }

    /// PASV.
    pub fn cmd_pasv(&self) -> (act: FtpAction)
        ensures
            listen_outcome(*self, true, *self, act),
    {
        if !self.require_auth() {
            return reply("530 Not logged in\r\n");
        }
        FtpAction::ListenHere
    }

    /// EPSV.
    pub fn cmd_epsv(&self) -> (act: FtpAction)
        ensures
            listen_outcome(*self, false, *self, act),
    {
        if !self.require_auth() {
            return reply("530 Not logged in\r\n");
        }
        FtpAction::ListenAnywhere
    }
}

// ---------------------------------------------------------------------------
// Laws of paths in a session
// ---------------------------------------------------------------------------

/// The folder that a path in normal form leads to ends in no slash, but for the top.
proof fn lemma_rooted_end(names: Seq<Seq<char>>)
    requires
        paths::all_names(names),
    ensures
        text::strip_end(paths::rooted(names), '/') == (if names.len() == 0 {
            Seq::<char>::empty()
        } else {
            paths::rooted(names)
        }),
{
    let path = paths::rooted(names);
    if names.len() == 0 {
        assert(path =~= seq!['/']);
        assert(path.drop_last() =~= Seq::<char>::empty());
        reveal_with_fuel(text::strip_end, 2);
    } else {
        let last = names[names.len() - 1];
        assert(paths::is_name(last));
        assert(path.last() == last.last());
        assert(last[last.len() - 1] != '/') by {
            if last[last.len() - 1] == '/' {
                assert(last.contains('/'));
            }
        }
    }
}

/// A path that does not start with a slash is walked from the current folder on.
pub proof fn law_relative_path_starts_here(names: Seq<Seq<char>>, path: Seq<char>)
    requires
        paths::all_names(names),
        path.len() > 0 ==> path[0] != '/' && path[0] != '\\',
    ensures
        normal_in(paths::rooted(names), path) == paths::rooted(
            paths::walk(names, text::split(text::replace(path, '\\', '/'), '/')),
        ),
{
    let top = Seq::<Seq<char>>::empty();
    let cwd = paths::rooted(names);
    let clean = text::replace(path, '\\', '/');
    let head = text::strip_end(cwd, '/');
    lemma_rooted_end(names);
    text::lemma_split_concat(head, clean, '/');
    paths::lemma_walk_concat(top, text::split(head, '/'), text::split(clean, '/'));
    paths::lemma_split_rooted(names);
    if names.len() == 0 {
        text::lemma_split_whole(head, '/');
        assert(paths::walk(top, seq![head]) == top) by {
            reveal_with_fuel(paths::walk, 2);
        }
        assert(names =~= top);
    }
}

/// A path that starts with a slash means the same in every folder.
pub proof fn law_absolute_path_ignores_folder(a: Seq<char>, b: Seq<char>, path: Seq<char>)
    requires
        path.len() > 0,
        path[0] == '/' || path[0] == '\\',
    ensures
        normal_in(a, path) == normal_in(b, path),
        normal_in(a, path) == paths::normal(path),
{
}

/// Whatever path is given in a folder in normal form, its normal form is in normal form.
pub proof fn law_normal_in_is_normal(cwd: Seq<char>, path: Seq<char>)
    requires
        paths::is_normal(cwd),
    ensures
        paths::is_normal(normal_in(cwd, path)),
{
    let clean = text::replace(path, '\\', '/');
    if path.len() > 0 && (path[0] == '/' || path[0] == '\\') {
        law_absolute_path_ignores_folder(cwd, cwd, path);
        paths::law_normal_is_normal(path);
    } else {
        let names = choose|names: Seq<Seq<char>>|
            #[trigger] paths::all_names(names) && cwd == paths::rooted(names);
        law_relative_path_starts_here(names, path);
        paths::lemma_replaced(path);
        paths::lemma_pieces_without(clean, '\\');
        text::lemma_split_pieces(clean, '/');
        paths::lemma_walk_names(names, text::split(clean, '/'));
    }
}

/// Going into one folder and then into another is going into both at once.
pub proof fn law_two_steps_are_one(cwd: Seq<char>, a: Seq<char>, b: Seq<char>)
    requires
        paths::is_normal(cwd),
        b.len() > 0 ==> b[0] != '/' && b[0] != '\\',
        a.len() > 0,
    ensures
        normal_in(normal_in(cwd, a), b) == normal_in(cwd, a.push('/') + b),
{
    let top = Seq::<Seq<char>>::empty();
    let both = a.push('/') + b;
    let ca = text::replace(a, '\\', '/');
    let cb = text::replace(b, '\\', '/');
    assert(text::replace(both, '\\', '/') =~= ca.push('/') + cb);
    text::lemma_split_concat(ca, cb, '/');
    paths::lemma_replaced(a);
    paths::lemma_pieces_without(ca, '\\');
    text::lemma_split_pieces(ca, '/');
    let start = if a[0] == '/' || a[0] == '\\' {
        top
    } else {
        choose|names: Seq<Seq<char>>|
            #[trigger] paths::all_names(names) && cwd == paths::rooted(names)
    };
    let middle = paths::walk(start, text::split(ca, '/'));
    paths::lemma_walk_names(start, text::split(ca, '/'));
    if a[0] == '/' || a[0] == '\\' {
        law_absolute_path_ignores_folder(cwd, cwd, a);
        law_absolute_path_ignores_folder(cwd, cwd, both);
    } else {
        law_relative_path_starts_here(start, a);
        law_relative_path_starts_here(start, both);
    }
    law_relative_path_starts_here(middle, b);
    paths::lemma_walk_concat(start, text::split(ca, '/'), text::split(cb, '/'));
}

/// Two dots lead to the parent folder, and stay at the top.
pub proof fn law_dot_dot_goes_up(names: Seq<Seq<char>>)
    requires
        paths::all_names(names),
    ensures
        normal_in(paths::rooted(names), ".."@) == paths::rooted(
            if names.len() == 0 {
                names
            } else {
                names.drop_last()
            },
        ),
{
    reveal_strlit("..");
    let path = ".."@;
    law_relative_path_starts_here(names, path);
    let clean = text::replace(path, '\\', '/');
    assert(clean =~= seq!['.', '.']);
    text::lemma_split_whole(clean, '/');
    reveal_with_fuel(paths::walk, 2);
    assert(seq![clean].drop_last() =~= Seq::<Seq<char>>::empty());
    assert(seq!['.'].len() == 1);
}

// ---------------------------------------------------------------------------
// Laws of commands
// ---------------------------------------------------------------------------

/// A command line is its word, a blank and the arguments, or its word alone.
pub proof fn law_line_splits(word: Seq<char>, args: Seq<char>)
    requires
        !word.contains(' '),
    ensures
        word_of(word.push(' ') + args) == word,
        args_of(word.push(' ') + args) == args,
        word_of(word) == word,
        args_of(word) == Seq::<char>::empty(),
{
    let line = word.push(' ') + args;
    text::lemma_first_at(line, ' ');
    text::lemma_first_at(word, ' ');
    let n = text::first_at(line, ' ');
    assert(line[word.len() as int] == ' ');
    assert(line.contains(' '));
    if n < word.len() {
        assert(word[n] == line[n]);
    }
    assert(word_of(line) =~= word);
    assert(args_of(line) =~= args);
    assert(word_of(word) =~= word);
}

/// What may be looked at for a path in normal form is the path without its slash in front.
pub proof fn lemma_resolved(path: Seq<char>, platform: Platform)
    requires
        paths::is_normal(path),
    ensures
        paths::confined(path, platform) matches Some(rel) ==> seq!['/'] + rel == path,
        platform is Other ==> paths::confined(path, platform) is Some,
{
    paths::law_normal_path_confined(path, platform);
    let names = choose|names: Seq<Seq<char>>|
        #[trigger] paths::all_names(names) && path == paths::rooted(names);
    assert(path[0] == '/');
    assert(seq!['/'] + path.skip(1) =~= path);
}

/// A logged-in session looks for a path that begins with no slash from its current folder on: each
/// part of the path is walked from there. Only on Windows can the path be refused by its text.
pub proof fn law_paths_start_in_the_folder(
    pre: FtpSession,
    cmd: Seq<char>,
    args: Seq<char>,
    post: FtpSession,
    act: FtpAction,
    names: Seq<Seq<char>>,
)
    requires
        outcome(pre, cmd, args, post, act),
        pre.authenticated,
        takes_path(verb_of(cmd)),
        paths::all_names(names),
        pre.current_dir@ == paths::rooted(names),
        text::trim(args).len() > 0 ==> text::trim(args)[0] != '/' && text::trim(args)[0] != '\\',
    ensures
        ({
            let parts = text::split(text::replace(text::trim(args), '\\', '/'), '/');
            &&& act matches FtpAction::Inspect(job) ==> {
                &&& seq!['/'] + job.rel@ == paths::rooted(paths::walk(names, parts))
                &&& job.arg@ == text::trim(args)
            }
            &&& act !is Inspect ==> pre.platform is Windows && sends(
                act,
                "550 Access denied\r\n"@,
            )
            &&& post == pre
        }),
{
    let p = text::trim(args);
    law_relative_path_starts_here(names, p);
    law_normal_in_is_normal(pre.current_dir@, p);
    lemma_resolved(normal_in(pre.current_dir@, p), pre.platform);
}

/// Names joined by slashes are walked down one by one.
pub proof fn lemma_walk_joined(names: Seq<Seq<char>>, parts: Seq<Seq<char>>)
    requires
        paths::all_names(names),
        paths::all_names(parts),
        parts.len() > 0,
    ensures
        ({
            let path = text::join(parts, '/');
            &&& text::replace(path, '\\', '/') == path
            &&& path.len() > 0 && path[0] != '/' && path[0] != '\\'
            &&& paths::walk(names, text::split(path, '/')) == names + parts
            &&& paths::all_names(names + parts)
        }),
{
    let path = text::join(parts, '/');
    paths::lemma_rooted_without_backslash(parts);
    assert forall|k: int| 0 <= k < path.len() implies path[k] != '\\' by {
        assert(paths::rooted(parts)[k + 1] == path[k]);
    }
    assert(text::replace(path, '\\', '/') =~= path);
    assert forall|i: int| 0 <= i < parts.len() implies !(#[trigger] parts[i]).contains('/') by {
        assert(paths::is_name(parts[i]));
    }
    text::lemma_split_join(parts, '/');
    paths::lemma_walk_down(names, parts);
    assert(paths::is_name(parts[0]));
    paths::lemma_join_head(parts);
    assert(parts[0].contains(parts[0][0]));
    let all = names + parts;
    assert forall|i: int| 0 <= i < all.len() implies paths::is_name(#[trigger] all[i]) by {
        if i < names.len() {
            assert(all[i] == names[i]);
        } else {
            assert(all[i] == parts[i - names.len()]);
        }
    }
}

/// For a path made of names, a command looks at those names in the current folder; with a slash in
/// front of them, at those names in the root folder.
pub proof fn law_names_are_looked_for(
    pre: FtpSession,
    cmd: Seq<char>,
    args: Seq<char>,
    post: FtpSession,
    act: FtpAction,
    names: Seq<Seq<char>>,
    parts: Seq<Seq<char>>,
)
    requires
        outcome(pre, cmd, args, post, act),
        paths::all_names(names),
        paths::all_names(parts),
    ensures
        looks_for(pre, cmd, args, act, names, parts),
        pre.authenticated && pre.platform is Other && takes_path(verb_of(cmd))
            && pre.current_dir@ == paths::rooted(names) && parts.len() > 0 && (text::trim(args)
            == text::join(parts, '/') || text::trim(args) == seq!['/'] + text::join(parts, '/'))
            ==> act is Inspect,
{
    let path = text::join(parts, '/');
    let p = text::trim(args);
    if takes_path(verb_of(cmd)) && pre.authenticated && pre.current_dir@ == paths::rooted(names)
        && parts.len() > 0 {
        lemma_walk_joined(names, parts);
        if p == path {
            law_paths_start_in_the_folder(pre, cmd, args, post, act, names);
            let all = text::join(names + parts, '/');
            if act is Inspect {
                let rel = act->Inspect_0.rel@;
                assert((seq!['/'] + rel).skip(1) =~= rel);
                assert((seq!['/'] + all).skip(1) =~= all);
            }
        }
        if p == seq!['/'] + path {
            assert(p =~= paths::rooted(parts));
            law_absolute_path_ignores_folder(pre.current_dir@, pre.current_dir@, p);
            paths::law_normal_is_stable(p);
            lemma_resolved(p, pre.platform);
            if act is Inspect {
                let rel = act->Inspect_0.rel@;
                assert((seq!['/'] + rel).skip(1) =~= rel);
                assert((seq!['/'] + path).skip(1) =~= path);
            }
        }
    }
}

/// For two dots, as for CDUP, the folder above the current one is looked at, or the root folder at the
/// top; for one dot or nothing, the current folder.
pub proof fn law_dots_are_looked_for(
    pre: FtpSession,
    cmd: Seq<char>,
    args: Seq<char>,
    post: FtpSession,
    act: FtpAction,
    names: Seq<Seq<char>>,
)
    requires
        outcome(pre, cmd, args, post, act),
        paths::all_names(names),
        pre.current_dir@ == paths::rooted(names),
        act is Inspect,
    ensures
        ({
            let rel = act->Inspect_0.rel@;
            let arg = text::trim(args);
            let here = text::join(names, '/');
            let above = text::join(
                if names.len() == 0 {
                    names
                } else {
                    names.drop_last()
                },
                '/',
            );
            &&& verb_of(cmd) == Verb::Cdup ==> rel == above && act->Inspect_0.op == PathOp::Cwd
            &&& takes_path(verb_of(cmd)) && arg.len() == 2 && arg[0] == '.' && arg[1] == '.' ==> rel
                == above
            &&& takes_path(verb_of(cmd)) && (arg.len() == 0 || arg.len() == 1 && arg[0] == '.') ==> rel
                == here
        }),
{
    reveal_strlit("..");
    let rel = act->Inspect_0.rel@;
    let arg = text::trim(args);
    let here = text::join(names, '/');
    let up = if names.len() == 0 {
        names
    } else {
        names.drop_last()
    };
    let above = text::join(up, '/');
    let dots = seq!['.', '.'];
    assert(".."@ =~= dots);
    assert(paths::all_names(up)) by {
        assert forall|i: int| 0 <= i < up.len() implies paths::is_name(#[trigger] up[i]) by {
            assert(up[i] == names[i]);
        }
    }
    assert((seq!['/'] + rel).skip(1) =~= rel);
    assert((seq!['/'] + above).skip(1) =~= above);
    assert((seq!['/'] + here).skip(1) =~= here);
    if verb_of(cmd) == Verb::Cdup {
        law_dot_dot_goes_up(names);
        law_normal_in_is_normal(pre.current_dir@, ".."@);
        lemma_resolved(normal_in(pre.current_dir@, ".."@), pre.platform);
    }
    if takes_path(verb_of(cmd)) {
        law_normal_in_is_normal(pre.current_dir@, arg);
        lemma_resolved(normal_in(pre.current_dir@, arg), pre.platform);
        if arg.len() == 2 && arg[0] == '.' && arg[1] == '.' {
            assert(arg =~= dots);
            law_dot_dot_goes_up(names);
        }
        if arg.len() == 0 || arg.len() == 1 && arg[0] == '.' {
            law_relative_path_starts_here(names, arg);
            let clean = text::replace(arg, '\\', '/');
            assert(clean =~= arg);
            text::lemma_split_whole(arg, '/');
            reveal_with_fuel(paths::walk, 2);
            assert(seq![arg].drop_last() =~= Seq::<Seq<char>>::empty());
            assert(arg.len() == 1 ==> arg =~= seq!['.']);
        }
    }
}

/// A listing without a path, with or without flags, is of the current folder; flags in front of a path
/// are dropped.
pub proof fn law_listings_look_for(
    pre: FtpSession,
    cmd: Seq<char>,
    args: Seq<char>,
    post: FtpSession,
    act: FtpAction,
    names: Seq<Seq<char>>,
    flags: Seq<char>,
    parts: Seq<Seq<char>>,
)
    requires
        outcome(pre, cmd, args, post, act),
        verb_of(cmd) == Verb::List || verb_of(cmd) == Verb::Nlst,
        paths::all_names(names),
        paths::all_names(parts),
        pre.current_dir@ == paths::rooted(names),
        act is Inspect,
        flags.len() > 0 ==> flags[0] == '-',
        !flags.contains(' '),
    ensures
        ({
            let rel = act->Inspect_0.rel@;
            let arg = text::trim(args);
            let path = text::join(parts, '/');
            &&& arg == flags ==> rel == text::join(names, '/')
            &&& parts.len() > 0 && path[0] != '-' && !text::is_space(path[0]) && (arg == path || (
            flags.len() > 0 && arg == flags.push(' ') + path)) ==> rel == text::join(
                names + parts,
                '/',
            )
        }),
{
    let rel = act->Inspect_0.rel@;
    let arg = text::trim(args);
    let path = text::join(parts, '/');
    let none = Seq::<char>::empty();
    assert((seq!['/'] + rel).skip(1) =~= rel);
    law_normal_in_is_normal(pre.current_dir@, listed_path(pre, args));
    lemma_resolved(normal_in(pre.current_dir@, listed_path(pre, args)), pre.platform);
    text::lemma_first_at(flags, ' ');
    if arg == flags {
        let here = text::join(names, '/');
        assert((seq!['/'] + here).skip(1) =~= here);
        assert(without_flags(arg) =~= none);
        law_absolute_path_ignores_folder(pre.current_dir@, pre.current_dir@, pre.current_dir@);
        paths::law_normal_is_stable(pre.current_dir@);
    }
    if parts.len() > 0 && path[0] != '-' && !text::is_space(path[0]) {
        lemma_walk_joined(names, parts);
        let all = text::join(names + parts, '/');
        assert((seq!['/'] + all).skip(1) =~= all);
        law_relative_path_starts_here(names, path);
        if arg == path {
            assert(without_flags(arg) == path);
        } else if flags.len() > 0 && arg == flags.push(' ') + path {
            text::lemma_first_at(arg, ' ');
            let n = text::first_at(arg, ' ');
            assert(arg[flags.len() as int] == ' ');
            assert(arg.contains(' '));
            if n < flags.len() {
                assert(flags[n] == arg[n]);
            }
            assert(arg.skip(n + 1) =~= path);
            assert(text::trim_start(path) == path);
            reveal_with_fuel(without_flags, 2);
            assert(without_flags(arg) == path);
        }
    }
}

/// The name logs in by itself where no password is expected; where one is, it logs nobody in. Without
/// an expected name everybody is let in.
pub proof fn law_user_name(
    pre: FtpSession,
    cmd: Seq<char>,
    args: Seq<char>,
    post: FtpSession,
    act: FtpAction,
)
    requires
        outcome(pre, cmd, args, post, act),
        verb_of(cmd) == Verb::User,
    ensures
        post == (FtpSession { got_user: true, authenticated: post.authenticated, ..pre }),
        pre.expected_user is None ==> post.authenticated && sends(act, "230 User logged in\r\n"@),
        pre.expected_user matches Some(name) ==> {
            &&& text::trim(args) == name@ && pre.expected_pass is None ==> post.authenticated && sends(
                act,
                "230 User logged in\r\n"@,
            )
            &&& text::trim(args) == name@ && pre.expected_pass is Some ==> post.authenticated
                == pre.authenticated && sends(act, "331 Password required\r\n"@)
            &&& text::trim(args) != name@ ==> post.authenticated == pre.authenticated && sends(
                act,
                "530 Invalid username\r\n"@,
            )
        },
{
}

/// After USER, the expected password logs in, and another one does not.
pub proof fn law_password(
    pre: FtpSession,
    cmd: Seq<char>,
    args: Seq<char>,
    post: FtpSession,
    act: FtpAction,
)
    requires
        outcome(pre, cmd, args, post, act),
        verb_of(cmd) == Verb::Pass,
        pre.got_user,
    ensures
        post == (FtpSession { authenticated: post.authenticated, ..pre }),
        pre.expected_pass is None ==> post.authenticated && sends(act, "230 User logged in\r\n"@),
        pre.expected_pass matches Some(pass) ==> {
            &&& text::trim(args) == pass@ ==> post.authenticated && sends(
                act,
                "230 User logged in\r\n"@,
            )
            &&& text::trim(args) != pass@ ==> post.authenticated == pre.authenticated && sends(
                act,
                "530 Login incorrect\r\n"@,
            )
        },
{
}

/// The log shows every command line as it was sent, but for that of PASS.
pub proof fn law_lines_are_logged(cmd: Seq<char>, line: Seq<char>)
    ensures
        cmd != "PASS"@ ==> shown_line(cmd, line) == line,
        cmd == "PASS"@ ==> shown_line(cmd, line) == "PASS ****"@,
{
    reveal_strlit("USER");
    reveal_strlit("PASS");
    assert("USER"@[0] == 'U' && "PASS"@[0] == 'P');
}

/// The first letter behind TYPE, capital or small, chooses between the two types; without a letter it
/// is the text type, and with another one nothing changes.
pub proof fn law_type(
    pre: FtpSession,
    cmd: Seq<char>,
    args: Seq<char>,
    post: FtpSession,
    act: FtpAction,
)
    requires
        outcome(pre, cmd, args, post, act),
        verb_of(cmd) == Verb::Type,
    ensures
        ({
            let arg = text::trim(args);
            let text_type = arg.len() == 0 || arg[0] == 'a' || arg[0] == 'A';
            let image_type = arg.len() > 0 && (arg[0] == 'i' || arg[0] == 'I');
            &&& post == (FtpSession { transfer_type: post.transfer_type, ..pre })
            &&& text_type ==> post.transfer_type == 'A' && sends(act, "200 Type set to A\r\n"@)
            &&& image_type ==> post.transfer_type == 'I' && sends(act, "200 Type set to I\r\n"@)
            &&& !text_type && !image_type ==> post == pre && sends(
                act,
                "504 Type not supported\r\n"@,
            )
        }),
{
    reveal_strlit("200 Type set to ");
    reveal_strlit("200 Type set to A\r\n");
    reveal_strlit("200 Type set to I\r\n");
    reveal_strlit("\r\n");
    let arg = text::trim(args);
    if arg.len() > 0 {
        let c = arg[0];
        assert(unicode::ascii_upper(c) == 'A' <==> c == 'a' || c == 'A');
        assert(unicode::ascii_upper(c) == 'I' <==> c == 'i' || c == 'I');
    }
    assert(("200 Type set to "@).push('A') + "\r\n"@ =~= "200 Type set to A\r\n"@);
    assert(("200 Type set to "@).push('I') + "\r\n"@ =~= "200 Type set to I\r\n"@);
}

/// OPTS is understood exactly if UTF8 stands behind it, in capital or small letters, whatever follows.
pub proof fn law_opts(
    pre: FtpSession,
    cmd: Seq<char>,
    args: Seq<char>,
    post: FtpSession,
    act: FtpAction,
)
    requires
        outcome(pre, cmd, args, post, act),
        verb_of(cmd) == Verb::Opts,
        is_ascii_chars(args),
    ensures
        ({
            let utf8 = args.len() >= 4 && (args[0] == 'u' || args[0] == 'U') && (args[1] == 't'
                || args[1] == 'T') && (args[2] == 'f' || args[2] == 'F') && args[3] == '8';
            sends(
                act,
                if utf8 {
                    "200 UTF8 mode enabled\r\n"@
                } else {
                    "501 Option not understood\r\n"@
                },
            )
        }),
{
    reveal_strlit("UTF8");
    let upper = args.map_values(|c: char| unicode::ascii_upper(c));
    let word = "UTF8"@;
    assert(word.len() == 4 && word[0] == 'U' && word[1] == 'T' && word[2] == 'F' && word[3] == '8');
    if args.len() >= 4 {
        assert(upper[0] == unicode::ascii_upper(args[0]));
        assert(upper[1] == unicode::ascii_upper(args[1]));
        assert(upper[2] == unicode::ascii_upper(args[2]));
        assert(upper[3] == unicode::ascii_upper(args[3]));
        if text::begins_with(upper, word) {
            assert(upper.take(4)[0] == upper[0] && upper.take(4)[1] == upper[1]);
            assert(upper.take(4)[2] == upper[2] && upper.take(4)[3] == upper[3]);
        }
        if upper[0] == 'U' && upper[1] == 'T' && upper[2] == 'F' && upper[3] == '8' {
            assert(upper.take(4) =~= word);
        }
    }
}

/// PWD tells the current folder in quotes, and going to what it told leads back to that folder from
/// everywhere.
pub proof fn law_pwd(
    pre: FtpSession,
    cmd: Seq<char>,
    args: Seq<char>,
    post: FtpSession,
    act: FtpAction,
    elsewhere: Seq<char>,
)
    requires
        outcome(pre, cmd, args, post, act),
        verb_of(cmd) == Verb::Pwd,
        pre.wf(),
    ensures
        act matches FtpAction::Reply(t) && t@ == "257 \""@ + pre.current_dir@ + "\"\r\n"@,
        normal_in(elsewhere, pre.current_dir@) == pre.current_dir@,
{
    let here = pre.current_dir@;
    let names = choose|names: Seq<Seq<char>>|
        #[trigger] paths::all_names(names) && here == paths::rooted(names);
    assert(here[0] == '/');
    law_absolute_path_ignores_folder(elsewhere, elsewhere, here);
    paths::law_normal_is_stable(here);
}

/// Every command word that asks for a look asks for its own, and the two that open a listener open
/// their own; a word that is none of them is refused and told back.
pub proof fn law_words_choose(
    pre: FtpSession,
    cmd: Seq<char>,
    args: Seq<char>,
    post: FtpSession,
    act: FtpAction,
)
    requires
        outcome(pre, cmd, args, post, act),
        pre.authenticated,
        pre.wf(),
    ensures
        act matches FtpAction::Inspect(job) ==> match job.op {
            PathOp::Cwd => cmd == "CWD"@ || cmd == "XCWD"@ || cmd == "CDUP"@ || cmd == "XCUP"@,
            PathOp::List => cmd == "LIST"@,
            PathOp::Nlst => cmd == "NLST"@,
            PathOp::Retr => cmd == "RETR"@,
            PathOp::Stor => cmd == "STOR"@,
            PathOp::Size => cmd == "SIZE"@,
            PathOp::Dele => cmd == "DELE"@,
            PathOp::Mkd => cmd == "MKD"@ || cmd == "XMKD"@,
            PathOp::Rmd => cmd == "RMD"@ || cmd == "XRMD"@,
            PathOp::Rnfr => cmd == "RNFR"@,
        },
        act !is Reply ==> post == pre,
        act is ListenHere <==> cmd == "PASV"@,
        act is ListenAnywhere <==> cmd == "EPSV"@,
        act is Close <==> cmd == "QUIT"@,
        act !is Transfer && act !is Change,
        cmd == "CWD"@ || cmd == "XCWD"@ || cmd == "CDUP"@ || cmd == "XCUP"@ || cmd == "LIST"@ || cmd
            == "NLST"@ || cmd == "RETR"@ || cmd == "STOR"@ || cmd == "SIZE"@ || cmd == "DELE"@ || cmd
            == "MKD"@ || cmd == "XMKD"@ || cmd == "RMD"@ || cmd == "XRMD"@ || cmd == "RNFR"@ ==> act
            is Inspect || (pre.platform is Windows && sends(act, "550 Access denied\r\n"@)),
{
    law_command_words(cmd);
    let path = if verb_of(cmd) == Verb::Cdup {
        ".."@
    } else if verb_of(cmd) == Verb::List || verb_of(cmd) == Verb::Nlst {
        listed_path(pre, args)
    } else {
        text::trim(args)
    };
    law_normal_in_is_normal(pre.current_dir@, path);
    lemma_resolved(normal_in(pre.current_dir@, path), pre.platform);
}

/// Every command has its own word, and some have a second one that begins with an X.
pub proof fn law_command_words(cmd: Seq<char>)
    ensures
        verb_of(cmd) == Verb::User <==> cmd == "USER"@,
        verb_of(cmd) == Verb::Pass <==> cmd == "PASS"@,
        verb_of(cmd) == Verb::Syst <==> cmd == "SYST"@,
        verb_of(cmd) == Verb::Feat <==> cmd == "FEAT"@,
        verb_of(cmd) == Verb::Opts <==> cmd == "OPTS"@,
        verb_of(cmd) == Verb::Pwd <==> cmd == "PWD"@ || cmd == "XPWD"@,
        verb_of(cmd) == Verb::Cwd <==> cmd == "CWD"@ || cmd == "XCWD"@,
        verb_of(cmd) == Verb::Cdup <==> cmd == "CDUP"@ || cmd == "XCUP"@,
        verb_of(cmd) == Verb::Type <==> cmd == "TYPE"@,
        verb_of(cmd) == Verb::Pasv <==> cmd == "PASV"@,
        verb_of(cmd) == Verb::Epsv <==> cmd == "EPSV"@,
        verb_of(cmd) == Verb::List <==> cmd == "LIST"@,
        verb_of(cmd) == Verb::Nlst <==> cmd == "NLST"@,
        verb_of(cmd) == Verb::Retr <==> cmd == "RETR"@,
        verb_of(cmd) == Verb::Stor <==> cmd == "STOR"@,
        verb_of(cmd) == Verb::Size <==> cmd == "SIZE"@,
        verb_of(cmd) == Verb::Dele <==> cmd == "DELE"@,
        verb_of(cmd) == Verb::Mkd <==> cmd == "MKD"@ || cmd == "XMKD"@,
        verb_of(cmd) == Verb::Rmd <==> cmd == "RMD"@ || cmd == "XRMD"@,
        verb_of(cmd) == Verb::Rnfr <==> cmd == "RNFR"@,
        verb_of(cmd) == Verb::Rnto <==> cmd == "RNTO"@,
        verb_of(cmd) == Verb::Noop <==> cmd == "NOOP"@,
        verb_of(cmd) == Verb::Quit <==> cmd == "QUIT"@,
{
    reveal_strlit("USER");
    reveal_strlit("PASS");
    reveal_strlit("SYST");
    reveal_strlit("FEAT");
    reveal_strlit("OPTS");
    reveal_strlit("PWD");
    reveal_strlit("XPWD");
    reveal_strlit("CWD");
    reveal_strlit("XCWD");
    reveal_strlit("CDUP");
    reveal_strlit("XCUP");
    reveal_strlit("TYPE");
    reveal_strlit("PASV");
    reveal_strlit("EPSV");
    reveal_strlit("LIST");
    reveal_strlit("NLST");
    reveal_strlit("RETR");
    reveal_strlit("STOR");
    reveal_strlit("SIZE");
    reveal_strlit("DELE");
    reveal_strlit("MKD");
    reveal_strlit("XMKD");
    reveal_strlit("RMD");
    reveal_strlit("XRMD");
    reveal_strlit("RNFR");
    reveal_strlit("RNTO");
    reveal_strlit("NOOP");
    reveal_strlit("QUIT");
    let first = cmd[0];
    let second = cmd[1];
    let third = cmd[2];
    let fourth = cmd[3];
}

/// The commands that need no more than their word have their fixed answers, and a word that is no
/// command is told back. None of them changes anything.
pub proof fn law_fixed_answers(
    pre: FtpSession,
    cmd: Seq<char>,
    args: Seq<char>,
    post: FtpSession,
    act: FtpAction,
)
    requires
        outcome(pre, cmd, args, post, act),
    ensures
        cmd == "SYST"@ ==> post == pre && sends(act, "215 Windows_NT\r\n"@),
        cmd == "FEAT"@ ==> post == pre && sends(
            act,
            "211-Features:\r\n PASV\r\n SIZE\r\n UTF8\r\n211 End\r\n"@,
        ),
        cmd == "NOOP"@ ==> post == pre && sends(act, "200 OK\r\n"@),
        cmd == "RNTO"@ ==> post == pre && sends(act, "502 RNTO not fully implemented\r\n"@),
        cmd == "QUIT"@ ==> post == pre && act is Close && act->Close_0@ == "221 Goodbye\r\n"@,
        verb_of(cmd) is Unknown ==> post == pre && sends(
            act,
            "502 Command not implemented: "@ + cmd + "\r\n"@,
        ),
        cmd == "PASS"@ && !pre.got_user ==> post == pre && sends(
            act,
            "503 Login with USER first\r\n"@,
        ),
        cmd == "PWD"@ || cmd == "XPWD"@ ==> post == pre && sends(
            act,
            "257 \""@ + pre.current_dir@ + "\"\r\n"@,
        ),
{
    law_command_words(cmd);
}

/// A flag in front of the arguments of a listing is dropped together with the white space behind it,
/// and what follows is looked at in the same way.
pub proof fn law_flag_is_dropped(flag: Seq<char>, gap: Seq<char>, rest: Seq<char>)
    requires
        flag.len() > 0,
        flag[0] == '-',
        !flag.contains(' '),
        text::all_spaces(gap),
        rest.len() > 0 ==> !text::is_space(rest[0]),
    ensures
        without_flags(flag.push(' ') + (gap + rest)) == without_flags(rest),
        without_flags(flag) == Seq::<char>::empty(),
{
    let all = flag.push(' ') + (gap + rest);
    text::lemma_first_at(all, ' ');
    text::lemma_first_at(flag, ' ');
    let n = text::first_at(all, ' ');
    assert(all[flag.len() as int] == ' ');
    assert(all.contains(' '));
    if n < flag.len() {
        assert(flag[n] == all[n]);
    }
    assert(all.skip(n + 1) =~= gap + rest);
    assert(all[0] == '-');
    text::lemma_trim_front(gap, rest);
}

/// A command line in UTF-8 is read as it was written, whatever the system's code page would make of
/// it; any other one as the code page reads it, if it does.
pub proof fn law_line_is_decoded(s: Seq<char>, bytes: Seq<u8>, wide: Option<Seq<u16>>)
    ensures
        line_string(encode_utf8(s), wide) == s,
        !valid_utf8(bytes) && wide == Some(unicode::utf16(s)) ==> line_string(bytes, wide) == s,
        !valid_utf8(bytes) && wide is None ==> line_string(bytes, wide) == unicode::utf8_lossy(bytes),
{
    encode_utf8_valid_utf8(s);
    encode_utf8_decode_utf8(s);
    unicode::law_utf16_round_trip(s);
}

/// A path that begins with a slash or a backslash is walked from the root folder, whatever the current
/// folder is.
pub proof fn law_paths_start_at_the_root(
    pre: FtpSession,
    cmd: Seq<char>,
    args: Seq<char>,
    post: FtpSession,
    act: FtpAction,
)
    requires
        outcome(pre, cmd, args, post, act),
        pre.wf(),
        takes_path(verb_of(cmd)),
        text::trim(args).len() > 0,
        text::trim(args)[0] == '/' || text::trim(args)[0] == '\\',
    ensures
        act matches FtpAction::Inspect(job) ==> seq!['/'] + job.rel@ == paths::rooted(
            paths::walk(
                Seq::empty(),
                text::split(text::replace(text::trim(args), '\\', '/'), '/'),
            ),
        ),
{
    let p = text::trim(args);
    law_normal_in_is_normal(pre.current_dir@, p);
    lemma_resolved(normal_in(pre.current_dir@, p), pre.platform);
}

/// All commands about a path look for the same path in the same place, and so do listings, unless it
/// is empty or begins with a hyphen.
pub proof fn law_commands_agree_on_paths(
    pre: FtpSession,
    a: Seq<char>,
    b: Seq<char>,
    args: Seq<char>,
    post_a: FtpSession,
    act_a: FtpAction,
    post_b: FtpSession,
    act_b: FtpAction,
)
    requires
        outcome(pre, a, args, post_a, act_a),
        outcome(pre, b, args, post_b, act_b),
        takes_path(verb_of(a)),
        takes_path(verb_of(b)) || ((verb_of(b) == Verb::List || verb_of(b) == Verb::Nlst) && text::trim(
            args,
        ).len() > 0 && text::trim(args)[0] != '-'),
    ensures
        act_a is Inspect <==> act_b is Inspect,
        act_a is Inspect ==> act_a->Inspect_0.rel@ == act_b->Inspect_0.rel@,
        act_a is Inspect ==> act_a->Inspect_0.arg@ == text::trim(args) && act_b->Inspect_0.arg@
            == text::trim(args),
{
}

} // verus!
