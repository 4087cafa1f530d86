//! The FTP server after a command: what the disk said, data connections, and how transfers end.

use vstd::prelude::*;

use crate::clock;
use crate::clock::{list_date, local_now, local_time, LocalTime};
use crate::common;
use crate::common::{is_within_root, CanonicalPath, PathFacts};
use crate::digits;
use crate::digits::{decimal_padded, decimal_string};
use crate::ftp;
use crate::ftp::{FtpAction, FtpSession, PathJob, PathOp};
use crate::paths;
use crate::text;

verus! {

// ---------------------------------------------------------------------------
// After a look at the disk
// ---------------------------------------------------------------------------

/// What follows when the path of a command may be used, by what the disk says of it.
pub open spec fn found_outcome(
    pre: FtpSession,
    job: PathJob,
    facts: PathFacts,
    post: FtpSession,
    act: FtpAction,
) -> bool {
    match job.op {
        PathOp::Cwd => if facts.is_dir() {
            let target = ftp::normal_in(pre.current_dir@, job.arg@);
            &&& post == (FtpSession { current_dir: post.current_dir, ..pre })
            &&& post.current_dir@ == target
            &&& ftp::sends(act, "250 Directory changed to "@ + target + "\r\n"@)
        } else {
            post == pre && ftp::sends(act, "550 Directory not found\r\n"@)
        },
        PathOp::List => post == pre && if facts.is_dir() {
            starts_transfer(
                act,
                "150 Opening data connection for directory listing\r\n"@,
                job,
                0,
            )
        } else {
            ftp::sends(act, "550 Directory not found\r\n"@)
        },
        PathOp::Nlst => post == pre && if facts.is_dir() {
            starts_transfer(act, "150 Opening data connection\r\n"@, job, 0)
        } else {
            ftp::sends(act, "550 Directory not found\r\n"@)
        },
        PathOp::Retr => post == pre && if facts.is_file() {
            let size = facts.meta->0.len;
            starts_transfer(
                act,
                "150 Opening data connection for "@ + job.arg@ + " ("@ + digits::decimal(
                    size as nat,
                ) + " bytes)\r\n"@,
                job,
                size,
            )
        } else {
            ftp::sends(act, "550 File not found\r\n"@)
        },
        PathOp::Stor => post == pre && if facts.parent matches Some(p) && !p.is_dir {
            ftp::sends(act, "550 Directory not found\r\n"@)
        } else {
            starts_transfer(act, "150 Ready to receive data\r\n"@, job, 0)
        },
        PathOp::Size => post == pre && if facts.is_file() {
            ftp::sends(act, "213 "@ + digits::decimal(facts.meta->0.len as nat) + "\r\n"@)
        } else {
            ftp::sends(act, "550 File not found\r\n"@)
        },
        PathOp::Dele => post == pre && if facts.is_file() {
            act == FtpAction::Change(job)
        } else {
            ftp::sends(act, "550 File not found\r\n"@)
        },
        PathOp::Mkd => post == pre && act == FtpAction::Change(job),
        PathOp::Rmd => post == pre && if facts.is_dir() {
            act == FtpAction::Change(job)
        } else {
            ftp::sends(act, "550 Directory not found\r\n"@)
        },
        PathOp::Rnfr => post == pre && if facts.meta is Some {
            ftp::sends(act, "350 Ready for RNTO\r\n"@)
        } else {
            ftp::sends(act, "550 File not found\r\n"@)
        },
    }
}

/// Whether the action is to start a transfer with this reply.
pub open spec fn starts_transfer(act: FtpAction, reply: Seq<char>, job: PathJob, size: u64) -> bool {
    act matches FtpAction::Transfer(t, j, n) && t@ == reply && j == job && n == size
}

/// What follows a look at the disk: a path that is not within the root folder is refused.
pub open spec fn inspected_outcome(
    pre: FtpSession,
    job: PathJob,
    root: Option<CanonicalPath>,
    facts: PathFacts,
    post: FtpSession,
    act: FtpAction,
) -> bool {
    if common::within_root(root, facts) {
        found_outcome(pre, job, facts, post, act)
    } else {
        post == pre && ftp::sends(act, "550 Access denied\r\n"@)
    }
}

fn reply(t: &str) -> (act: FtpAction)
    ensures
        ftp::sends(act, t@),
{
    FtpAction::Reply(t.to_owned())
}

fn transfer(t: &str, job: PathJob) -> (act: FtpAction)
    ensures
        starts_transfer(act, t@, job, 0),
{
    FtpAction::Transfer(t.to_owned(), job, 0)
}

/// The address that the reply to PASV names: that of the session, if it is an IPv4 address, or
/// else the local host.
pub fn passive_address(local: Option<[u8; 4]>) -> (ip: [u8; 4])
    ensures
        match local {
            Some(v4) => ip == v4,
            None => ip@ == seq![127u8, 0, 0, 1],
        },
        local is None ==> ip[0] == 127 && ip[1] == 0 && ip[2] == 0 && ip[3] == 1,
{
    match local {
        Some(v4) => v4,
        None => {
            let ip: [u8; 4] = [127, 0, 0, 1];
            assert(ip@ =~= seq![127u8, 0, 0, 1]);
            ip
        },
    }
}

/// The reply to PASV: the four numbers of the address, then the port as two numbers.
pub open spec fn passive_text(ip: Seq<u8>, port: u16) -> Seq<char> {
    "227 Entering Passive Mode ("@ + digits::decimal(ip[0] as nat) + ","@ + digits::decimal(
        ip[1] as nat,
    ) + ","@ + digits::decimal(ip[2] as nat) + ","@ + digits::decimal(ip[3] as nat) + ","@
        + digits::decimal((port / 256) as nat) + ","@ + digits::decimal((port % 256) as nat)
        + ")\r\n"@
}

/// The reply to EPSV.
pub open spec fn extended_passive_text(port: u16) -> Seq<char> {
    "229 Entering Extended Passive Mode (|||"@ + digits::decimal(port as nat) + "|)\r\n"@
}

/// The two numbers in the reply to PASV are bytes, and together give the port.
pub proof fn law_passive_port(port: u16)
    ensures
        (port / 256) * 256 + port % 256 == port,
        port / 256 < 256,
        digits::value(digits::decimal((port / 256) as nat)) * 256 + digits::value(
            digits::decimal((port % 256) as nat),
        ) == port,
{
    digits::lemma_decimal((port / 256) as nat);
    digits::lemma_decimal((port % 256) as nat);
}

/// Whether a reply to PASV is as a client reads it: between the brackets stand six numbers below 256
/// with commas between them, of which four are the address and two make up the port.
pub open spec fn names_address(t: Seq<char>, ip: Seq<u8>, port: u16) -> bool {
    let head = "227 Entering Passive Mode ("@;
    let tail = ")\r\n"@;
    let inner = t.subrange(head.len() as int, t.len() - tail.len());
    let numbers = text::split(inner, ',');
    &&& t == head + inner + tail
    &&& numbers.len() == 6
    &&& forall|i: int|
        0 <= i < 6 ==> digits::writes(#[trigger] numbers[i], digits::value(numbers[i]))
            && digits::value(numbers[i]) < 256
    &&& forall|i: int| 0 <= i < 4 ==> digits::value(#[trigger] numbers[i]) == ip[i]
    &&& digits::value(numbers[4]) * 256 + digits::value(numbers[5]) == port
}

/// A number in digits holds no comma.
proof fn lemma_no_comma(n: nat)
    ensures
        !digits::decimal(n).contains(','),
{
    digits::lemma_decimal(n);
    assert(!digits::is_digit(','));
}

/// Joining takes in one piece after the other.
proof fn lemma_join_step(parts: Seq<Seq<char>>, k: int)
    requires
        1 <= k < parts.len(),
    ensures
        text::join(parts.take(k + 1), ',') == text::join(parts.take(k), ',') + seq![','] + parts[k],
{
    assert(parts.take(k + 1).drop_last() =~= parts.take(k));
    assert(text::join(parts.take(k + 1), ',') =~= text::join(parts.take(k), ',') + seq![',']
        + parts[k]);
}

/// Six pieces joined.
proof fn lemma_six_joined(parts: Seq<Seq<char>>)
    requires
        parts.len() == 6,
    ensures
        text::join(parts, ',') == parts[0] + seq![','] + parts[1] + seq![','] + parts[2] + seq![',']
            + parts[3] + seq![','] + parts[4] + seq![','] + parts[5],
{
    reveal_with_fuel(text::join, 2);
    assert(parts.take(1) =~= seq![parts[0]]);
    lemma_join_step(parts, 1);
    lemma_join_step(parts, 2);
    lemma_join_step(parts, 3);
    lemma_join_step(parts, 4);
    lemma_join_step(parts, 5);
    assert(parts.take(6) =~= parts);
}

/// Six pieces between brackets, written from left to right.
proof fn lemma_in_brackets(head: Seq<char>, p: Seq<Seq<char>>, tail: Seq<char>)
    requires
        p.len() == 6,
    ensures
        ({
            let c = seq![','];
            head + p[0] + c + p[1] + c + p[2] + c + p[3] + c + p[4] + c + p[5] + tail == head + (p[0]
                + c + p[1] + c + p[2] + c + p[3] + c + p[4] + c + p[5]) + tail
        }),
{
    let c = seq![','];
    let a = p[0] + c + p[1];
    assert(head + p[0] + c + p[1] =~= head + a);
    let b = a + c + p[2];
    assert(head + a + c + p[2] =~= head + b);
    let d = b + c + p[3];
    assert(head + b + c + p[3] =~= head + d);
    let e = d + c + p[4];
    assert(head + d + c + p[4] =~= head + e);
    let f = e + c + p[5];
    assert(head + e + c + p[5] =~= head + f);
}

/// The reply to PASV tells a client the address and the port.
pub proof fn law_passive_reply(ip: Seq<u8>, port: u16)
    requires
        ip.len() == 4,
    ensures
        names_address(passive_text(ip, port), ip, port),
{
    reveal_strlit(",");
    let head = "227 Entering Passive Mode ("@;
    let tail = ")\r\n"@;
    let t = passive_text(ip, port);
    let high = (port / 256) as nat;
    let low = (port % 256) as nat;
    let parts = seq![
        digits::decimal(ip[0] as nat),
        digits::decimal(ip[1] as nat),
        digits::decimal(ip[2] as nat),
        digits::decimal(ip[3] as nat),
        digits::decimal(high),
        digits::decimal(low),
    ];
    assert(","@ =~= seq![',']);
    let inner = text::join(parts, ',');
    lemma_six_joined(parts);
    lemma_in_brackets(head, parts, tail);
    assert(t.subrange(head.len() as int, t.len() - tail.len()) =~= inner);
    lemma_no_comma(ip[0] as nat);
    lemma_no_comma(ip[1] as nat);
    lemma_no_comma(ip[2] as nat);
    lemma_no_comma(ip[3] as nat);
    lemma_no_comma(high);
    lemma_no_comma(low);
    text::lemma_split_join(parts, ',');
    digits::law_decimal_writes(ip[0] as nat);
    digits::law_decimal_writes(ip[1] as nat);
    digits::law_decimal_writes(ip[2] as nat);
    digits::law_decimal_writes(ip[3] as nat);
    digits::law_decimal_writes(high);
    digits::law_decimal_writes(low);
}

/// The reply to EPSV tells a client the port.
pub proof fn law_extended_passive_reply(port: u16)
    ensures
        digits::framed(
            extended_passive_text(port),
            "229 Entering Extended Passive Mode (|||"@,
            port as nat,
            "|)\r\n"@,
        ),
{
    digits::lemma_framed(
        "229 Entering Extended Passive Mode (|||"@,
        port as nat,
        "|)\r\n"@,
    );
}

/// Whether asking for the data connection came out as it should: a listener serves once, and without
/// one there is a refusal.
pub open spec fn connects(pre: FtpSession, refusal: Option<String>, post: FtpSession) -> bool {
    &&& refusal is Some <==> !pre.data_listener
    &&& !post.data_listener
    &&& post.current_dir == pre.current_dir && post.authenticated == pre.authenticated
}

/// A listener serves one data connection: the next one needs another listener.
pub proof fn law_listener_serves_once(
    a: FtpSession,
    first: Option<String>,
    b: FtpSession,
    second: Option<String>,
    c: FtpSession,
)
    requires
        connects(a, first, b),
        connects(b, second, c),
    ensures
        second is Some,
        a.data_listener ==> first is None,
{
}

/// Whether the reply to MKD tells the folder that was made: given by the names `parts` in the folder
/// of `names`, it is the folder of those names one below the other.
pub open spec fn tells_folder(
    session: FtpSession,
    job: PathJob,
    reply: Seq<char>,
    names: Seq<Seq<char>>,
    parts: Seq<Seq<char>>,
) -> bool {
    session.current_dir@ == paths::rooted(names) && parts.len() > 0 && job.arg@ == text::join(
        parts,
        '/',
    ) ==> reply == "257 \""@ + (seq!['/'] + text::join(names + parts, '/')) + "\" created\r\n"@
}

/// MKD tells the path of the folder that it made.
pub proof fn law_made_folder_is_told(
    session: FtpSession,
    job: PathJob,
    names: Seq<Seq<char>>,
    parts: Seq<Seq<char>>,
)
    requires
        paths::all_names(names),
        paths::all_names(parts),
    ensures
        tells_folder(
            session,
            job,
            "257 \""@ + ftp::normal_in(session.current_dir@, job.arg@) + "\" created\r\n"@,
            names,
            parts,
        ),
{
    if session.current_dir@ == paths::rooted(names) && parts.len() > 0 && job.arg@ == text::join(
        parts,
        '/',
    ) {
        ftp::lemma_walk_joined(names, parts);
        ftp::law_relative_path_starts_here(names, job.arg@);
        assert(paths::rooted(names + parts) =~= seq!['/'] + text::join(names + parts, '/'));
    }
}

fn append_number(t: &mut String, n: u64)
    ensures
        final(t)@ == old(t)@ + digits::decimal(n as nat),
{
    let s: String = decimal_string(n);
    t.append(s.as_str());
}

/// A reply that tells why something failed.
fn failure(what: &str, why: &str) -> (t: String)
    ensures
        t@ == what@ + why@ + "\r\n"@,
{
    let mut t: String = what.to_owned();
    t.append(why);
    t.append("\r\n");
    t
}

impl FtpSession {
    /// Takes in what the disk says of the path of a command.
    pub fn inspected(
        &mut self,
        job: PathJob,
        root: &Option<CanonicalPath>,
        facts: &PathFacts,
    ) -> (act: FtpAction)
        requires
            old(self).wf(),
        ensures
            final(self).wf(),
            inspected_outcome(*old(self), job, *root, *facts, *final(self), act),
    {
        if !is_within_root(root, facts) {
            return reply("550 Access denied\r\n");
        }
        match job.op {
            PathOp::Cwd => {
                if facts.dir() {
                    let target: String = self.normalize_ftp_path(job.arg.as_str());
                    let mut t: String = "250 Directory changed to ".to_owned();
                    t.append(target.as_str());
                    t.append("\r\n");
                    self.current_dir = target;
                    FtpAction::Reply(t)
                } else {
                    reply("550 Directory not found\r\n")
                }
            },
            PathOp::List => {
                if facts.dir() {
                    transfer("150 Opening data connection for directory listing\r\n", job)
                } else {
                    reply("550 Directory not found\r\n")
                }
            },
            PathOp::Nlst => {
                if facts.dir() {
                    transfer("150 Opening data connection\r\n", job)
                } else {
                    reply("550 Directory not found\r\n")
                }
            },
            PathOp::Retr => {
                match &facts.meta {
                    Some(meta) => {
                        if meta.is_file {
                            let mut t: String = "150 Opening data connection for ".to_owned();
                            t.append(job.arg.as_str());
                            t.append(" (");
                            append_number(&mut t, meta.len);
                            t.append(" bytes)\r\n");
                            FtpAction::Transfer(t, job, meta.len)
                        } else {
                            reply("550 File not found\r\n")
                        }
                    },
                    None => reply("550 File not found\r\n"),
                }
            },
            PathOp::Stor => {
                match &facts.parent {
                    Some(parent) => {
                        if parent.is_dir {
                            transfer("150 Ready to receive data\r\n", job)
                        } else {
                            reply("550 Directory not found\r\n")
                        }
                    },
                    None => transfer("150 Ready to receive data\r\n", job),
                }
            },
            PathOp::Size => {
                match &facts.meta {
                    Some(meta) => {
                        if meta.is_file {
                            let mut t: String = "213 ".to_owned();
                            append_number(&mut t, meta.len);
                            t.append("\r\n");
                            FtpAction::Reply(t)
                        } else {
                            reply("550 File not found\r\n")
                        }
                    },
                    None => reply("550 File not found\r\n"),
                }
            },
            PathOp::Dele => {
                if facts.file() {
                    FtpAction::Change(job)
                } else {
                    reply("550 File not found\r\n")
                }
            },
            PathOp::Mkd => FtpAction::Change(job),
            PathOp::Rmd => {
                if facts.dir() {
                    FtpAction::Change(job)
                } else {
                    reply("550 Directory not found\r\n")
                }
            },
            PathOp::Rnfr => {
                if facts.meta.is_some() {
                    reply("350 Ready for RNTO\r\n")
                } else {
                    reply("550 File not found\r\n")
                }
            },
        }
    }

    /// Takes in that the listener for PASV is open.
    pub fn pasv_ready(&mut self, ip: [u8; 4], port: u16) -> (t: String)
        ensures
            *final(self) == (FtpSession { data_listener: true, ..*old(self) }),
            t@ == passive_text(ip@, port),
            names_address(t@, ip@, port),
    {
        proof {
            law_passive_reply(ip@, port);
        }
        self.data_listener = true;
        let mut t: String = "227 Entering Passive Mode (".to_owned();
        append_number(&mut t, ip[0] as u64);
        t.append(",");
        append_number(&mut t, ip[1] as u64);
        t.append(",");
        append_number(&mut t, ip[2] as u64);
        t.append(",");
        append_number(&mut t, ip[3] as u64);
        t.append(",");
        append_number(&mut t, (port / 256) as u64);
        t.append(",");
        append_number(&mut t, (port % 256) as u64);
        t.append(")\r\n");
        t
    }

    /// Takes in that the listener for EPSV is open.
    pub fn epsv_ready(&mut self, port: u16) -> (t: String)
        ensures
            *final(self) == (FtpSession { data_listener: true, ..*old(self) }),
            t@ == extended_passive_text(port),
            digits::framed(
                t@,
                "229 Entering Extended Passive Mode (|||"@,
                port as nat,
                "|)\r\n"@,
            ),
    {
        proof {
            law_extended_passive_reply(port);
        }
        self.data_listener = true;
        let mut t: String = "229 Entering Extended Passive Mode (|||".to_owned();
        append_number(&mut t, port as u64);
        t.append("|)\r\n");
        t
    }

    /// Uses up the listener for the data connection. Without one there is no data connection, and
    /// this is the reply.
    pub fn accept_data(&mut self) -> (refusal: Option<String>)
        ensures
            *final(self) == (FtpSession { data_listener: false, ..*old(self) }),
            refusal is None <==> old(self).data_listener,
            refusal matches Some(t) ==> t@ == "425 Cannot open data connection: "@
                + "No data connection (use PASV first)"@ + "\r\n"@,
            connects(*old(self), refusal, *final(self)),
    {
        if self.data_listener {
            self.data_listener = false;
            None
        } else {
            Some(connect_failed("No data connection (use PASV first)"))
        }
    }

    /// The reply for a change of the disk, by its outcome, and what the log shows of it.
    pub fn change_finished(&self, job: &PathJob, failed: &Option<String>) -> (r: Finish)
        requires
            job.op == PathOp::Dele || job.op == PathOp::Mkd || job.op == PathOp::Rmd,
        ensures
            match *failed {
                None => {
                    &&& r.reply@ == (if job.op == PathOp::Dele {
                        "250 File deleted\r\n"@
                    } else if job.op == PathOp::Mkd {
                        "257 \""@ + ftp::normal_in(self.current_dir@, job.arg@)
                            + "\" created\r\n"@
                    } else {
                        "250 Directory removed\r\n"@
                    })
                    &&& r.log is Some <==> job.op == PathOp::Dele
                    &&& r.log matches Some(l) ==> l@ == "DELE "@ + job.arg@
                },
                Some(why) => {
                    &&& r.reply@ == (if job.op == PathOp::Dele {
                        "550 Cannot delete: "@
                    } else if job.op == PathOp::Mkd {
                        "550 Cannot create directory: "@
                    } else {
                        "550 Cannot remove directory: "@
                    }) + why@ + "\r\n"@
                    &&& r.log is None
                },
            },
            !r.discard,
            *failed matches Some(why) ==> text::begins_with(r.reply@, seq!['5', '5', '0', ' '])
                && ftp::is_end_of(why@ + seq!['\r', '\n'], r.reply@),
            r.log is Some <==> *failed is None && job.op == PathOp::Dele,
            *failed is None && job.op == PathOp::Mkd ==> forall|
                names: Seq<Seq<char>>,
                parts: Seq<Seq<char>>,
            |
                #[trigger] paths::all_names(names) && #[trigger] paths::all_names(parts)
                    ==> tells_folder(*self, *job, r.reply@, names, parts),
    {
        proof {
            assert forall|names: Seq<Seq<char>>, parts: Seq<Seq<char>>|
                #[trigger] paths::all_names(names) && #[trigger] paths::all_names(
                    parts,
                ) implies tells_folder(
                *self,
                *job,
                "257 \""@ + ftp::normal_in(self.current_dir@, job.arg@) + "\" created\r\n"@,
                names,
                parts,
            ) by {
                law_made_folder_is_told(*self, *job, names, parts);
            }
        }
        match failed {
            None => {
                if job.op == PathOp::Dele {
                    let mut log: String = "DELE ".to_owned();
                    log.append(job.arg.as_str());
                    Finish {
                        reply: "250 File deleted\r\n".to_owned(),
                        log: Some(log),
                        discard: false,
                    }
                } else if job.op == PathOp::Mkd {
                    let path: String = self.normalize_ftp_path(job.arg.as_str());
                    let mut t: String = "257 \"".to_owned();
                    t.append(path.as_str());
                    t.append("\" created\r\n");
                    Finish { reply: t, log: None, discard: false }
                } else {
                    Finish {
                        reply: "250 Directory removed\r\n".to_owned(),
                        log: None,
                        discard: false,
                    }
                }
            },
            Some(why) => {
                proof {
                    reveal_strlit("550 Cannot delete: ");
                    reveal_strlit("550 Cannot create directory: ");
                    reveal_strlit("550 Cannot remove directory: ");
                    lemma_ends_well("550 Cannot delete: "@, why@);
                    lemma_ends_well("550 Cannot create directory: "@, why@);
                    lemma_ends_well("550 Cannot remove directory: "@, why@);
                    assert("550 Cannot delete: "@.take(4) =~= seq!['5', '5', '0', ' ']);
                    assert("550 Cannot create directory: "@.take(4) =~= seq!['5', '5', '0', ' ']);
                    assert("550 Cannot remove directory: "@.take(4) =~= seq!['5', '5', '0', ' ']);
                }
                let t: String = if job.op == PathOp::Dele {
                    failure("550 Cannot delete: ", why.as_str())
                } else if job.op == PathOp::Mkd {
                    failure("550 Cannot create directory: ", why.as_str())
                } else {
                    failure("550 Cannot remove directory: ", why.as_str())
                };
                Finish { reply: t, log: None, discard: false }
            },
        }
    }
}

// ---------------------------------------------------------------------------
// How transfers end
// ---------------------------------------------------------------------------

/// How a command ends.
pub struct Finish {
    /// The reply to send.
    pub reply: String,
    /// What the log shows, if it shows anything.
    pub log: Option<String>,
    /// Whether what was stored of the file is to be removed.
    pub discard: bool,
}

/// How moving the data of a file ended.
pub enum Moved {
    /// The file could not be opened; the text says why.
    NotOpened(String),
    /// This many bytes were moved.
    All(u64),
    /// Moving the data failed; the text says why.
    Broken(String),
}

/// The reply when a data connection could not be opened.
pub fn connect_failed(why: &str) -> (t: String)
    ensures
        t@ == "425 Cannot open data connection: "@ + why@ + "\r\n"@,
{
    failure("425 Cannot open data connection: ", why)
}

/// What the log shows of a transfer.
pub open spec fn transfer_log(verb: Seq<char>, arg: Seq<char>, size: u64) -> Seq<char> {
    verb + arg + " ("@ + digits::decimal(size as nat) + " bytes)"@
}

/// The log tells the size of a transfer.
pub proof fn law_transfer_log(verb: Seq<char>, arg: Seq<char>, size: u64)
    ensures
        digits::framed(
            transfer_log(verb, arg, size),
            verb + arg + " ("@,
            size as nat,
            " bytes)"@,
        ),
{
    digits::lemma_framed(verb + arg + " ("@, size as nat, " bytes)"@);
}

fn build_transfer_log(verb: &str, arg: &str, size: u64) -> (t: String)
    ensures
        t@ == transfer_log(verb@, arg@, size),
        digits::framed(t@, verb@ + arg@ + " ("@, size as nat, " bytes)"@),
{
    proof {
        law_transfer_log(verb@, arg@, size);
    }
    let mut t: String = verb.to_owned();
    t.append(arg);
    t.append(" (");
    append_number(&mut t, size);
    t.append(" bytes)");
    t
}

/// Whether a transfer ends as it should: it is complete and logged exactly if all was moved, otherwise
/// the reply begins with 550 and ends with the reason; and something is removed exactly if storing
/// broke off.
pub open spec fn ends_well(r: Finish, moved: Moved, storing: bool) -> bool {
    let reply = r.reply@;
    let why = match moved {
        Moved::NotOpened(why) => why@,
        Moved::All(_) => Seq::<char>::empty(),
        Moved::Broken(why) => why@,
    };
    &&& r.log is Some <==> moved is All
    &&& r.discard <==> storing && moved is Broken
    &&& moved is All <==> text::begins_with(reply, seq!['2', '2', '6'])
    &&& moved !is All ==> text::begins_with(reply, seq!['5', '5', '0', ' ']) && ftp::is_end_of(
        why + seq!['\r', '\n'],
        reply,
    )
}

/// A reply that begins with a text and ends with a reason.
proof fn lemma_ends_well(head: Seq<char>, why: Seq<char>)
    ensures
        ({
            let reply = head + why + "\r\n"@;
            &&& ftp::is_end_of(why + seq!['\r', '\n'], reply)
            &&& head.len() >= 4 ==> reply.take(3) == head.take(3) && reply.take(4) == head.take(4)
        }),
{
    reveal_strlit("\r\n");
    let reply = head + why + "\r\n"@;
    assert("\r\n"@ =~= seq!['\r', '\n']);
    assert(reply.skip(head.len() as int) =~= why + seq!['\r', '\n']);
    if head.len() >= 4 {
        assert(reply.take(3) =~= head.take(3));
        assert(reply.take(4) =~= head.take(4));
    }
}

/// How RETR ends. The log shows the size that was announced.
pub fn retr_finished(arg: &str, size: u64, moved: &Moved) -> (r: Finish)
    ensures
        !r.discard,
        match *moved {
            Moved::NotOpened(why) => r.log is None && r.reply@ == "550 Cannot read file: "@ + why@
                + "\r\n"@,
            Moved::All(_) => {
                &&& r.log matches Some(l)
                &&& l@ == transfer_log("RETR "@, arg@, size)
                &&& digits::framed(l@, "RETR "@ + arg@ + " ("@, size as nat, " bytes)"@)
                &&& r.reply@ == "226 Transfer complete\r\n"@
            },
            Moved::Broken(why) => r.log is None && r.reply@ == "550 Transfer error: "@ + why@
                + "\r\n"@,
        },
        ends_well(r, *moved, false),
{
    proof {
        reveal_strlit("226 Transfer complete\r\n");
        reveal_strlit("550 Cannot read file: ");
        reveal_strlit("550 Transfer error: ");
        assert("226 Transfer complete\r\n"@.take(3) =~= seq!['2', '2', '6']);
        assert("550 Cannot read file: "@.take(4) =~= seq!['5', '5', '0', ' ']);
        assert("550 Transfer error: "@.take(4) =~= seq!['5', '5', '0', ' ']);
        assert("550 Cannot read file: "@.take(3)[0] == '5');
        assert("550 Transfer error: "@.take(3)[0] == '5');
        match moved {
            Moved::NotOpened(why) => lemma_ends_well("550 Cannot read file: "@, why@),
            Moved::Broken(why) => lemma_ends_well("550 Transfer error: "@, why@),
            Moved::All(_) => {},
        }
    }
    match moved {
        Moved::NotOpened(why) => Finish {
            reply: failure("550 Cannot read file: ", why.as_str()),
            log: None,
            discard: false,
        },
        Moved::All(_) => Finish {
            reply: "226 Transfer complete\r\n".to_owned(),
            log: Some(build_transfer_log("RETR ", arg, size)),
            discard: false,
        },
        Moved::Broken(why) => Finish {
            reply: failure("550 Transfer error: ", why.as_str()),
            log: None,
            discard: false,
        },
    }
}

/// How STOR ends. The log shows the size that arrived; what arrived of a broken transfer is
/// removed.
pub fn stor_finished(arg: &str, moved: &Moved) -> (r: Finish)
    ensures
        r.discard <==> moved is Broken,
        match *moved {
            Moved::NotOpened(why) => r.log is None && r.reply@ == "550 Cannot create file: "@ + why@
                + "\r\n"@,
            Moved::All(bytes) => {
                &&& r.log matches Some(l)
                &&& l@ == transfer_log("STOR "@, arg@, bytes)
                &&& digits::framed(l@, "STOR "@ + arg@ + " ("@, bytes as nat, " bytes)"@)
                &&& r.reply@ == "226 Transfer complete\r\n"@
            },
            Moved::Broken(why) => r.log is None && r.reply@ == "550 Error receiving data: "@ + why@
                + "\r\n"@,
        },
        ends_well(r, *moved, true),
{
    proof {
        reveal_strlit("226 Transfer complete\r\n");
        reveal_strlit("550 Cannot create file: ");
        reveal_strlit("550 Error receiving data: ");
        assert("226 Transfer complete\r\n"@.take(3) =~= seq!['2', '2', '6']);
        assert("550 Cannot create file: "@.take(4) =~= seq!['5', '5', '0', ' ']);
        assert("550 Error receiving data: "@.take(4) =~= seq!['5', '5', '0', ' ']);
        assert("550 Cannot create file: "@.take(3)[0] == '5');
        assert("550 Error receiving data: "@.take(3)[0] == '5');
        match moved {
            Moved::NotOpened(why) => lemma_ends_well("550 Cannot create file: "@, why@),
            Moved::Broken(why) => lemma_ends_well("550 Error receiving data: "@, why@),
            Moved::All(_) => {},
        }
    }
    match moved {
        Moved::NotOpened(why) => Finish {
            reply: failure("550 Cannot create file: ", why.as_str()),
            log: None,
            discard: false,
        },
        Moved::All(bytes) => Finish {
            reply: "226 Transfer complete\r\n".to_owned(),
            log: Some(build_transfer_log("STOR ", arg, *bytes)),
            discard: false,
        },
        Moved::Broken(why) => Finish {
            reply: failure("550 Error receiving data: ", why.as_str()),
            log: None,
            discard: true,
        },
    }
}

// ---------------------------------------------------------------------------
// Listings
// ---------------------------------------------------------------------------

/// What the disk says of something in a folder.
pub struct ListMeta {
    pub is_dir: bool,
    pub readonly: bool,
    pub len: u64,
    /// When it was changed last, in seconds since 1970, if that is known.
    pub modified: Option<i64>,
}

/// Something in a folder.
pub struct ListEntry {
    pub name: String,
    /// What the disk says of it, if it says anything.
    pub meta: Option<ListMeta>,
}

/// The permissions that a listing shows.
pub open spec fn permissions(meta: ListMeta) -> Seq<char> {
    if meta.is_dir {
        "drwxr-xr-x"@
    } else if meta.readonly {
        "-r--r--r--"@
    } else {
        "-rw-r--r--"@
    }
}

/// A line of a listing.
pub open spec fn line_text(name: Seq<char>, meta: ListMeta, date: Seq<char>) -> Seq<char> {
    permissions(meta) + " 1 ftp ftp "@ + digits::pad_left(digits::decimal(meta.len as nat), 13)
        + " "@ + date + " "@ + name
}

/// Whether a line of a listing is as a client reads it: first the kind and who may write, then the size
/// in a column of its own, then the date and the name.
pub open spec fn shows_entry(
    line: Seq<char>,
    name: Seq<char>,
    meta: ListMeta,
    date: Seq<char>,
) -> bool {
    let size = line.subrange(21, line.len() - name.len() - date.len() - 2);
    &&& line.len() >= 36 + date.len() + name.len()
    &&& (line[0] == 'd' <==> meta.is_dir)
    &&& (line[0] == '-' <==> !meta.is_dir)
    &&& line[1] == 'r' && line[4] == 'r' && line[7] == 'r'
    &&& (line[2] == 'w' <==> meta.is_dir || !meta.readonly)
    &&& line.subrange(10, 21) == " 1 ftp ftp "@
    &&& digits::writes(text::trim(size), meta.len as nat)
    &&& (meta.len < 10000000000000 ==> size.len() == 13)
    &&& line.skip(line.len() - name.len() - date.len() - 2) == " "@ + date + " "@ + name
}

/// A line of a listing shows the entry.
pub proof fn law_line_shows_entry(name: Seq<char>, meta: ListMeta, date: Seq<char>)
    ensures
        shows_entry(line_text(name, meta, date), name, meta, date),
{
    reveal_strlit("drwxr-xr-x");
    reveal_strlit("-r--r--r--");
    reveal_strlit("-rw-r--r--");
    reveal_strlit(" 1 ftp ftp ");
    reveal_strlit(" ");
    let number = digits::decimal(meta.len as nat);
    let padded = digits::pad_left(number, 13);
    let line = line_text(name, meta, date);
    digits::law_decimal_writes(meta.len as nat);
    digits::law_pad_left(number, 13);
    let fill = padded.len() - number.len();
    let front = padded.take(fill);
    let none = Seq::<char>::empty();
    assert(padded =~= front + number + none);
    assert(line.subrange(21, line.len() - name.len() - date.len() - 2) =~= padded);
    assert(line.take(10) =~= permissions(meta));
    assert(line[0] == line.take(10)[0] && line[1] == line.take(10)[1] && line[2] == line.take(10)[2]);
    assert(line[4] == line.take(10)[4] && line[7] == line.take(10)[7]);
    assert(line.subrange(10, 21) =~= " 1 ftp ftp "@);
    assert(line.skip(line.len() - name.len() - date.len() - 2) =~= " "@ + date + " "@ + name);
    assert(text::is_space(' '));
    assert forall|c: char| #[trigger] digits::is_digit(c) implies !text::is_space(c) by {}
    assert(digits::is_digit(number[0]) && digits::is_digit(number.last()));
    text::law_trim(front, number, none);
    if meta.len < 10000000000000 {
        assert(vstd::arithmetic::power::pow(10, 13) == 10000000000000) by {
            reveal(vstd::arithmetic::power::pow);
            reveal_with_fuel(vstd::arithmetic::power::pow, 14);
        }
        digits::law_decimal_length(meta.len as nat, 13);
    }
}

/// Whether a time is one that can be shown.
pub open spec fn showable(modified: Option<i64>) -> bool {
    modified matches Some(secs) ==> clock::MIN_SECONDS <= secs <= clock::MAX_SECONDS
}

/// Whether `date` is a date for something changed at `modified`: the date of that moment, seen from
/// some moment; of an unknown time, the date of some moment.
pub open spec fn is_date_of(date: Seq<char>, modified: Option<i64>) -> bool {
    exists|m: LocalTime, now: LocalTime|
        #![trigger clock::list_stamp(m, now)]
        m.in_range() && now.in_range() && (modified matches Some(secs) ==> m.secs == secs) && date
            == clock::list_stamp(m, now)
}

/// A line of a listing.
pub fn list_line(name: &str, meta: &ListMeta, date: &str) -> (s: String)
    ensures
        s@ == line_text(name@, *meta, date@),
        shows_entry(s@, name@, *meta, date@),
{
    proof {
        law_line_shows_entry(name@, *meta, date@);
    }
    let mut s: String = if meta.is_dir {
        "drwxr-xr-x".to_owned()
    } else if meta.readonly {
        "-r--r--r--".to_owned()
    } else {
        "-rw-r--r--".to_owned()
    };
    s.append(" 1 ftp ftp ");
    let size: String = decimal_padded(meta.len, 13);
    s.append(size.as_str());
    s.append(" ");
    s.append(date);
    s.append(" ");
    s.append(name);
    s
}

/// The date that a listing shows: of the last change, or else of now.
pub fn entry_date(modified: Option<i64>) -> (s: String)
    requires
        showable(modified),
    ensures
        is_date_of(s@, modified),
{
    let m: LocalTime = match modified {
        Some(secs) => local_time(secs),
        None => local_now(),
    };
    let now: LocalTime = local_now();
    let s: String = list_date(m, now);
    assert(s@ == clock::list_stamp(m, now));
    s
}

/// A line of a listing, with the date in local time.
pub fn format_list_entry(name: &str, meta: &ListMeta) -> (s: String)
    requires
        showable(meta.modified),
    ensures
        exists|date: Seq<char>| #[trigger]
            is_date_of(date, meta.modified) && s@ == line_text(name@, *meta, date),
{
    let date: String = entry_date(meta.modified);
    list_line(name, meta, date.as_str())
}

/// The listing of the entries with these dates: a line for each entry of which the disk says
/// something, in order.
pub open spec fn listing(entries: Seq<ListEntry>, dates: Seq<Seq<char>>) -> Seq<char>
    decreases entries.len(),
{
    if entries.len() == 0 {
        Seq::empty()
    } else {
        let before = listing(entries.drop_last(), dates.drop_last());
        match entries.last().meta {
            Some(meta) => before + line_text(entries.last().name@, meta, dates.last()) + "\r\n"@,
            None => before,
        }
    }
}

/// Whether each date is one for its entry.
pub open spec fn are_dates_of(dates: Seq<Seq<char>>, entries: Seq<ListEntry>) -> bool {
    &&& dates.len() == entries.len()
    &&& forall|i: int|
        0 <= i < entries.len() ==> ((#[trigger] entries[i]).meta matches Some(meta) ==> is_date_of(
            dates[i],
            meta.modified,
        ))
}

/// Whether every known time of the entries is one that can be shown.
pub open spec fn all_showable(entries: Seq<ListEntry>) -> bool {
    forall|i: int|
        0 <= i < entries.len() ==> ((#[trigger] entries[i]).meta matches Some(meta) ==> showable(
            meta.modified,
        ))
}

/// The data that LIST sends.
pub fn list_text(entries: &Vec<ListEntry>) -> (s: String)
    requires
        all_showable(entries@),
    ensures
        exists|dates: Seq<Seq<char>>| #[trigger]
            are_dates_of(dates, entries@) && s@ == listing(entries@, dates),
{
    let mut s: String = String::new();
    let mut i: usize = 0;
    let ghost mut dates = Seq::<Seq<char>>::empty();
    assert(entries@.take(0) =~= Seq::<ListEntry>::empty());
    while i < entries.len()
        invariant
            i <= entries.len(),
            all_showable(entries@),
            are_dates_of(dates, entries@.take(i as int)),
            s@ == listing(entries@.take(i as int), dates),
        decreases entries.len() - i,
    {
        assert(entries@.take(i + 1).drop_last() =~= entries@.take(i as int));
        assert(entries@.take(i + 1).last() == entries@[i as int]);
        let ghost mut date = Seq::<char>::empty();
        match &entries[i].meta {
            Some(meta) => {
                assert(entries@[i as int].meta == Some(*meta));
                let line: String = format_list_entry(entries[i].name.as_str(), meta);
                proof {
                    date = choose|date: Seq<char>| #[trigger]
                        is_date_of(date, meta.modified) && line@ == line_text(
                            entries@[i as int].name@,
                            *meta,
                            date,
                        );
                }
                s.append(line.as_str());
                s.append("\r\n");
            },
            None => {
                assert(entries@[i as int].meta is None);
            },
        }
        proof {
            let more = dates.push(date);
            let now = entries@.take(i + 1);
            assert(more.drop_last() =~= dates);
            assert forall|k: int| 0 <= k < now.len() implies ((#[trigger] now[k]).meta matches Some(
                meta,
            ) ==> is_date_of(more[k], meta.modified)) by {
                if k < i {
                    assert(now[k] == entries@.take(i as int)[k]);
                }
            }
            dates = more;
        }
        i += 1;
    }
    assert(entries@.take(entries@.len() as int) =~= entries@);
    s
}

/// The names of the entries, each on a line of its own.
pub open spec fn names_text(entries: Seq<ListEntry>) -> Seq<char>
    decreases entries.len(),
{
    if entries.len() == 0 {
        Seq::empty()
    } else {
        names_text(entries.drop_last()) + entries.last().name@ + "\r\n"@
    }
}

/// The data that NLST sends.
pub fn nlst_text(entries: &Vec<ListEntry>) -> (s: String)
    ensures
        s@ == names_text(entries@),
{
    let mut s: String = String::new();
    let mut i: usize = 0;
    assert(entries@.take(0) =~= Seq::<ListEntry>::empty());
    while i < entries.len()
        invariant
            i <= entries.len(),
            s@ == names_text(entries@.take(i as int)),
        decreases entries.len() - i,
    {
        assert(entries@.take(i + 1).drop_last() =~= entries@.take(i as int));
        s.append(entries[i].name.as_str());
        s.append("\r\n");
        i += 1;
    }
    assert(entries@.take(entries@.len() as int) =~= entries@);
    s
}

/// What LIST sends over the data connection, by whether the folder could be read, and the reply at
/// its end. Of a folder that could not be read nothing is sent.
pub fn list_finished(listed: &Result<Vec<ListEntry>, String>) -> (r: (Option<String>, String))
    requires
        *listed matches Ok(entries) ==> all_showable(entries@),
    ensures
        match *listed {
            Ok(entries) => {
                &&& r.0 matches Some(data)
                &&& exists|dates: Seq<Seq<char>>| #[trigger]
                    are_dates_of(dates, entries@) && data@ == listing(entries@, dates)
                &&& r.1@ == "226 Transfer complete\r\n"@
            },
            Err(why) => r.0 is None && r.1@ == "550 Cannot read directory: "@ + why@ + "\r\n"@,
        },
        r.0 is Some <==> *listed is Ok,
        *listed is Ok <==> text::begins_with(r.1@, seq!['2', '2', '6']),
        *listed matches Err(why) ==> text::begins_with(r.1@, seq!['5', '5', '0', ' '])
            && ftp::is_end_of(why@ + seq!['\r', '\n'], r.1@),
{
    proof {
        reveal_strlit("226 Transfer complete\r\n");
        reveal_strlit("550 Cannot read directory: ");
        assert("226 Transfer complete\r\n"@.take(3) =~= seq!['2', '2', '6']);
        assert("550 Cannot read directory: "@.take(4) =~= seq!['5', '5', '0', ' ']);
        assert("550 Cannot read directory: "@.take(3)[0] == '5');
        match listed {
            Ok(_) => {},
            Err(why) => lemma_ends_well("550 Cannot read directory: "@, why@),
        }
    }
    match listed {
        Ok(entries) => (Some(list_text(entries)), "226 Transfer complete\r\n".to_owned()),
        Err(why) => (None, failure("550 Cannot read directory: ", why.as_str())),
    }
}

/// What NLST sends over the data connection, and the reply at its end. A folder that could not be
/// read counts as empty.
pub fn nlst_finished(listed: &Option<Vec<ListEntry>>) -> (r: (String, String))
    ensures
        r.0@ == match *listed {
            Some(entries) => names_text(entries@),
            None => Seq::empty(),
        },
        r.1@ == "226 Transfer complete\r\n"@,
{
    let data: String = match listed {
        Some(entries) => nlst_text(entries),
        None => String::new(),
    };
    (data, "226 Transfer complete\r\n".to_owned())
}

// ---------------------------------------------------------------------------
// Between commands
// ---------------------------------------------------------------------------

/// What reading a command came to.
pub enum Command {
    /// A command line.
    Line(String),
    /// The end of the input.
    End,
    /// A line that is too long.
    TooLong,
    /// A failure; the text says why.
    Failed(String),
}

/// What a session does after reading.
pub enum AfterRead {
    /// Carry out this command line.
    Run(String),
    /// Send this reply, then read on.
    Reply(String),
    /// End the session; the text is for the log.
    Stop(Option<String>),
}

/// What a session does after reading.
pub fn after_read(command: Command) -> (r: AfterRead)
    ensures
        match command {
            Command::Line(line) => r == AfterRead::Run(line),
            Command::End => r == AfterRead::Stop(None),
            Command::TooLong => r matches AfterRead::Reply(t) && t@
                == "500 Command line too long\r\n"@,
            Command::Failed(why) => r matches AfterRead::Stop(Some(l)) && l@ == "Read error: "@
                + why@,
        },
        command is Line <==> r is Run,
        command is TooLong <==> r is Reply,
        command is End || command is Failed <==> r is Stop,
{
    match command {
        Command::Line(line) => AfterRead::Run(line),
        Command::End => AfterRead::Stop(None),
        Command::TooLong => AfterRead::Reply("500 Command line too long\r\n".to_owned()),
        Command::Failed(why) => {
            let mut l: String = "Read error: ".to_owned();
            l.append(why.as_str());
            AfterRead::Stop(Some(l))
        },
    }
}

/// What the log shows when a client has connected.
pub fn connected() -> (l: &'static str)
    ensures
        l@ == "Connected"@,
{
    "Connected"
}

/// What the log shows at the end of every session.
pub fn disconnected() -> (l: &'static str)
    ensures
        l@ == "Disconnected"@,
{
    "Disconnected"
}

/// What the log shows when carrying out a command ends the session.
pub fn command_error(why: &str) -> (l: String)
    ensures
        l@ == "Error: "@ + why@,
{
    let mut l: String = "Error: ".to_owned();
    l.append(why);
    l
}

// ---------------------------------------------------------------------------
// Laws of a session
// ---------------------------------------------------------------------------

/// Whether a command touches the disk or opens a connection.
pub open spec fn needs_login(verb: ftp::Verb) -> bool {
    match verb {
        ftp::Verb::Cwd | ftp::Verb::Cdup | ftp::Verb::Pasv | ftp::Verb::Epsv | ftp::Verb::List
        | ftp::Verb::Nlst | ftp::Verb::Retr | ftp::Verb::Stor | ftp::Verb::Size | ftp::Verb::Dele
        | ftp::Verb::Mkd | ftp::Verb::Rmd | ftp::Verb::Rnfr => true,
        _ => false,
    }
}

/// Before the login, every command that touches the disk or opens a connection is refused, changes
/// nothing and asks for nothing.
pub proof fn law_nothing_before_login(
    pre: FtpSession,
    cmd: Seq<char>,
    args: Seq<char>,
    post: FtpSession,
    act: FtpAction,
)
    requires
        ftp::outcome(pre, cmd, args, post, act),
        !pre.authenticated,
    ensures
        act is Reply || act is Close,
        needs_login(ftp::verb_of(cmd)) ==> post == pre && ftp::sends(
            act,
            "530 Not logged in\r\n"@,
        ),
{
}

/// A session that is logged in stays so, and what it expects never changes.
pub proof fn law_login_lasts(
    pre: FtpSession,
    cmd: Seq<char>,
    args: Seq<char>,
    post: FtpSession,
    act: FtpAction,
)
    requires
        ftp::outcome(pre, cmd, args, post, act),
    ensures
        pre.authenticated ==> post.authenticated,
        post.expected_user == pre.expected_user,
        post.expected_pass == pre.expected_pass,
{
}

/// The current folder changes only when a look at the disk for CWD or CDUP has found a folder within
/// the root folder, and then it is the folder that was asked for.
pub proof fn law_folder_changes_by_cwd_only(
    pre: FtpSession,
    job: PathJob,
    root: Option<CanonicalPath>,
    facts: PathFacts,
    post: FtpSession,
    act: FtpAction,
)
    requires
        inspected_outcome(pre, job, root, facts, post, act),
        post.current_dir@ != pre.current_dir@,
    ensures
        job.op == PathOp::Cwd,
        common::within_root(root, facts),
        facts.is_dir(),
        post.current_dir@ == ftp::normal_in(pre.current_dir@, job.arg@),
{
}

/// A command by itself never changes the current folder, nor uses up or opens a data connection.
pub proof fn law_commands_keep_the_folder(
    pre: FtpSession,
    cmd: Seq<char>,
    args: Seq<char>,
    post: FtpSession,
    act: FtpAction,
)
    requires
        ftp::outcome(pre, cmd, args, post, act),
    ensures
        post.current_dir == pre.current_dir,
        post.data_listener == pre.data_listener,
{
}

/// Where a password is expected besides a name, a session is logged in only by PASS with that
/// password, after some USER.
pub proof fn law_login_needs_the_password(
    pre: FtpSession,
    cmd: Seq<char>,
    args: Seq<char>,
    post: FtpSession,
    act: FtpAction,
)
    requires
        ftp::outcome(pre, cmd, args, post, act),
        pre.expected_user is Some,
        pre.expected_pass is Some,
        !pre.authenticated,
        post.authenticated,
    ensures
        ftp::verb_of(cmd) == ftp::Verb::Pass,
        pre.got_user,
        text::trim(args) == pre.expected_pass->0@,
{
}

/// The log shows the same for PASS whatever the password is.
pub proof fn law_password_is_not_logged(cmd: Seq<char>, a: Seq<char>, b: Seq<char>)
    requires
        ftp::verb_of(cmd) == ftp::Verb::Pass,
    ensures
        ftp::shown_line(cmd, a) == ftp::shown_line(cmd, b),
{
}

/// What a command wants to look at lies below the root folder by its text: it starts with no
/// slash, holds no backslash, never goes up, and on Windows names no drive.
pub proof fn law_looks_below_the_root(
    pre: FtpSession,
    cmd: Seq<char>,
    args: Seq<char>,
    post: FtpSession,
    act: FtpAction,
)
    requires
        ftp::outcome(pre, cmd, args, post, act),
    ensures
        act matches FtpAction::Inspect(job) ==> {
            let rel = job.rel@;
            &&& rel.len() > 0 ==> rel[0] != '/'
            &&& !rel.contains('\\')
            &&& pre.platform is Windows ==> !paths::names_drive(rel)
            &&& forall|i: int|
                0 <= i < text::split(rel, '/').len() ==> !paths::is_dot_dot(
                    #[trigger] text::split(rel, '/')[i],
                )
        },
{
    let arg = text::trim(args);
    paths::law_confined_stays_below(ftp::normal_in(pre.current_dir@, arg), pre.platform);
    paths::law_confined_stays_below(ftp::normal_in(pre.current_dir@, ".."@), pre.platform);
    paths::law_confined_stays_below(
        ftp::normal_in(pre.current_dir@, ftp::listed_path(pre, args)),
        pre.platform,
    );
}

/// What is not within the root folder is only ever refused: nothing is moved, changed or told of
/// it.
pub proof fn law_outside_is_denied(
    pre: FtpSession,
    job: PathJob,
    root: Option<CanonicalPath>,
    facts: PathFacts,
    post: FtpSession,
    act: FtpAction,
)
    requires
        inspected_outcome(pre, job, root, facts, post, act),
        !common::within_root(root, facts),
    ensures
        post == pre,
        ftp::sends(act, "550 Access denied\r\n"@),
{
}

// ---------------------------------------------------------------------------
// Laws of commands with a path
// ---------------------------------------------------------------------------

/// CWD and CDUP go to the folder that was looked at, and say so; where it is no folder, the session
/// stays where it is.
pub proof fn law_cwd_goes_where_it_looked(
    pre: FtpSession,
    cmd: Seq<char>,
    args: Seq<char>,
    mid: FtpSession,
    job: PathJob,
    root: Option<CanonicalPath>,
    facts: PathFacts,
    post: FtpSession,
    act: FtpAction,
)
    requires
        ftp::outcome(pre, cmd, args, mid, FtpAction::Inspect(job)),
        ftp::verb_of(cmd) == ftp::Verb::Cwd || ftp::verb_of(cmd) == ftp::Verb::Cdup,
        inspected_outcome(mid, job, root, facts, post, act),
        pre.wf(),
    ensures
        post == (FtpSession { current_dir: post.current_dir, ..pre }),
        common::within_root(root, facts) && facts.is_dir() ==> {
            &&& post.current_dir@ == seq!['/'] + job.rel@
            &&& ftp::sends(act, "250 Directory changed to "@ + (seq!['/'] + job.rel@) + "\r\n"@)
        },
        !(common::within_root(root, facts) && facts.is_dir()) ==> post.current_dir@
            == pre.current_dir@ && act is Reply,
{
    ftp::law_normal_in_is_normal(pre.current_dir@, job.arg@);
    ftp::lemma_resolved(ftp::normal_in(pre.current_dir@, job.arg@), pre.platform);
}

/// A file is sent, measured or deleted, a folder is listed or removed: anything else is refused, and
/// only what is within the root folder is touched.
pub proof fn law_what_commands_need(
    pre: FtpSession,
    job: PathJob,
    root: Option<CanonicalPath>,
    facts: PathFacts,
    post: FtpSession,
    act: FtpAction,
)
    requires
        inspected_outcome(pre, job, root, facts, post, act),
    ensures
        ({
            let within = common::within_root(root, facts);
            let file = facts.meta is Some && facts.meta->0.is_file;
            let folder = facts.meta is Some && facts.meta->0.is_dir;
            &&& job.op == PathOp::Retr ==> (act is Transfer <==> within && file)
            &&& job.op == PathOp::List || job.op == PathOp::Nlst ==> (act is Transfer <==> within
                && folder)
            &&& job.op == PathOp::Stor ==> (act is Transfer <==> within && (facts.parent is None
                || facts.parent->0.is_dir))
            &&& job.op == PathOp::Dele ==> (act is Change <==> within && file)
            &&& job.op == PathOp::Rmd ==> (act is Change <==> within && folder)
            &&& job.op == PathOp::Mkd ==> (act is Change <==> within)
            &&& act is Transfer ==> job.op == PathOp::Retr || job.op == PathOp::List || job.op
                == PathOp::Nlst || job.op == PathOp::Stor
            &&& act is Change ==> job.op == PathOp::Dele || job.op == PathOp::Rmd || job.op
                == PathOp::Mkd
            &&& act matches FtpAction::Transfer(_, same, _) ==> same == job
            &&& act matches FtpAction::Change(same) ==> same == job
            &&& act is Reply || act is Transfer || act is Change
        }),
{
}

/// SIZE tells the size of the file, and RETR announces it and sends as much.
pub proof fn law_sizes_are_told(
    pre: FtpSession,
    job: PathJob,
    root: Option<CanonicalPath>,
    facts: PathFacts,
    post: FtpSession,
    act: FtpAction,
)
    requires
        inspected_outcome(pre, job, root, facts, post, act),
        common::within_root(root, facts),
        facts.meta is Some,
        facts.meta->0.is_file,
    ensures
        job.op == PathOp::Size ==> act is Reply && digits::framed(
            act->Reply_0@,
            "213 "@,
            facts.meta->0.len as nat,
            "\r\n"@,
        ),
        job.op == PathOp::Retr ==> act is Transfer && act->Transfer_2 == facts.meta->0.len
            && digits::framed(
            act->Transfer_0@,
            "150 Opening data connection for "@ + job.arg@ + " ("@,
            facts.meta->0.len as nat,
            " bytes)\r\n"@,
        ),
{
    let n = facts.meta->0.len as nat;
    digits::lemma_framed("213 "@, n, "\r\n"@);
    digits::lemma_framed(
        "150 Opening data connection for "@ + job.arg@ + " ("@,
        n,
        " bytes)\r\n"@,
    );
}

/// The listing of entries is the listings of its parts, one behind the other.
pub proof fn law_listing_goes_on(
    a: Seq<ListEntry>,
    da: Seq<Seq<char>>,
    b: Seq<ListEntry>,
    db: Seq<Seq<char>>,
)
    requires
        a.len() == da.len(),
        b.len() == db.len(),
    ensures
        listing(a + b, da + db) == listing(a, da) + listing(b, db),
    decreases b.len(),
{
    if b.len() == 0 {
        assert(a + b =~= a);
        assert(da + db =~= da);
        assert(listing(b, db) =~= Seq::<char>::empty());
        assert(listing(a, da) + listing(b, db) =~= listing(a, da));
    } else {
        law_listing_goes_on(a, da, b.drop_last(), db.drop_last());
        assert((a + b).drop_last() =~= a + b.drop_last());
        assert((da + db).drop_last() =~= da + db.drop_last());
        assert((a + b).last() == b.last());
        assert((da + db).last() == db.last());
        assert(listing(a + b, da + db) =~= listing(a, da) + listing(b, db));
    }
}

/// The listing of one entry is its line; where the disk says nothing of the entry, it is empty.
pub proof fn law_listing_of_one(e: ListEntry, date: Seq<char>)
    ensures
        ({
            let t = listing(seq![e], seq![date]);
            &&& e.meta is None <==> t.len() == 0
            &&& e.meta matches Some(meta) ==> {
                &&& t.len() >= 2
                &&& t[t.len() - 2] == '\r'
                &&& t[t.len() - 1] == '\n'
                &&& shows_entry(t.take(t.len() - 2), e.name@, meta, date)
            }
        }),
{
    reveal_strlit("\r\n");
    reveal_with_fuel(listing, 2);
    let t = listing(seq![e], seq![date]);
    assert(seq![e].drop_last() =~= Seq::<ListEntry>::empty());
    if e.meta is Some {
        let line = line_text(e.name@, e.meta->0, date);
        law_line_shows_entry(e.name@, e.meta->0, date);
        assert(t =~= line + "\r\n"@);
        assert(t.take(t.len() - 2) =~= line);
    }
}

/// The names of entries are the names of its parts, one behind the other, each on its line.
pub proof fn law_names_go_on(a: Seq<ListEntry>, b: Seq<ListEntry>, e: ListEntry)
    ensures
        names_text(a + b) == names_text(a) + names_text(b),
        names_text(seq![e]) == e.name@ + seq!['\r', '\n'],
    decreases b.len(),
{
    reveal_strlit("\r\n");
    reveal_with_fuel(names_text, 2);
    assert(seq![e].drop_last() =~= Seq::<ListEntry>::empty());
    assert(names_text(seq![e]) =~= e.name@ + seq!['\r', '\n']);
    if b.len() == 0 {
        assert(a + b =~= a);
        assert(names_text(a) + names_text(b) =~= names_text(a));
    } else {
        law_names_go_on(a, b.drop_last(), e);
        assert((a + b).drop_last() =~= a + b.drop_last());
        assert(names_text(a + b) =~= names_text(a) + names_text(b));
    }
}

/// The date of something that was changed at a known time tells the month and the day of that very
/// time, by some offset of the local time.
pub proof fn law_date_tells_the_change(date: Seq<char>, secs: i64)
    requires
        is_date_of(date, Some(secs)),
        0 <= secs < 250_000_000_000,
    ensures
        exists|m: LocalTime|
            #![trigger m.day()]
            {
                &&& m.secs == secs
                &&& -86_400 < m.offset < 86_400
                &&& date.len() == 12
                &&& date.take(3) == clock::month_text(clock::month_of(m.day()))
                &&& digits::value(date.subrange(4, 6)) == clock::day_of_month(m.day())
            },
{
    let (m, now) = choose|m: LocalTime, now: LocalTime|
        #![trigger clock::list_stamp(m, now)]
        m.in_range() && now.in_range() && m.secs == secs && date == clock::list_stamp(m, now);
    let y = clock::year_of(m.day());
    clock::law_date_of_day(m.day());
    assert(-1 <= m.day() < 2_893_521);
    assert(clock::new_year(0) < -1 && clock::new_year(10_000) > 2_893_521);
    clock::lemma_year_between(y, m.day());
    clock::law_list_stamp(m, now);
}

/// Every command that the disk allows is answered in its own words, and what it does not allow is
/// refused by what was missing.
pub proof fn law_answers_to_looks(
    pre: FtpSession,
    job: PathJob,
    root: Option<CanonicalPath>,
    facts: PathFacts,
    post: FtpSession,
    act: FtpAction,
)
    requires
        inspected_outcome(pre, job, root, facts, post, act),
        common::within_root(root, facts),
    ensures
        ({
            let wants_file = job.op == PathOp::Retr || job.op == PathOp::Size || job.op == PathOp::Dele;
            let wants_folder = job.op == PathOp::Cwd || job.op == PathOp::List || job.op == PathOp::Nlst
                || job.op == PathOp::Rmd;
            let file = facts.meta is Some && facts.meta->0.is_file;
            let folder = facts.meta is Some && facts.meta->0.is_dir;
            &&& wants_file && !file ==> ftp::sends(act, "550 File not found\r\n"@)
            &&& wants_folder && !folder ==> ftp::sends(act, "550 Directory not found\r\n"@)
            &&& job.op == PathOp::Rnfr && facts.meta is Some ==> ftp::sends(
                act,
                "350 Ready for RNTO\r\n"@,
            )
            &&& job.op == PathOp::Rnfr && facts.meta is None ==> ftp::sends(
                act,
                "550 File not found\r\n"@,
            )
            &&& job.op == PathOp::Stor && facts.parent is Some && !facts.parent->0.is_dir ==> ftp::sends(
                act,
                "550 Directory not found\r\n"@,
            )
            &&& act is Transfer && job.op == PathOp::Stor ==> act->Transfer_0@
                == "150 Ready to receive data\r\n"@
            &&& act is Transfer && job.op == PathOp::List ==> act->Transfer_0@
                == "150 Opening data connection for directory listing\r\n"@
            &&& act is Transfer && job.op == PathOp::Nlst ==> act->Transfer_0@
                == "150 Opening data connection\r\n"@
            &&& job.op != PathOp::Cwd ==> post == pre
        }),
{
}

/// The dates of a listing are those of its entries, one for each.
pub proof fn law_dates_belong_to_entries(
    dates: Seq<Seq<char>>,
    entries: Seq<ListEntry>,
    i: int,
    secs: i64,
)
    requires
        are_dates_of(dates, entries),
        0 <= i < entries.len(),
        entries[i].meta is Some,
        entries[i].meta->0.modified == Some(secs),
    ensures
        dates.len() == entries.len(),
        exists|m: LocalTime, now: LocalTime|
            #![trigger clock::list_stamp(m, now)]
            m.secs == secs && -86_400 < m.offset < 86_400 && dates[i] == clock::list_stamp(m, now),
{
    assert(is_date_of(dates[i], Some(secs)));
}

} // verus!
