//! What the servers share: the log, and the rule that keeps them inside their root folder.

use vstd::prelude::*;

use crate::clock;
use crate::clock::timestamp;
use crate::digits;
use crate::digits::decimal_string;

verus! {

// ---------------------------------------------------------------------------
// Log
// ---------------------------------------------------------------------------

/// One line of the log.
pub struct LogEntry {
    pub timestamp: String,
    pub kind: &'static str,
    pub server: &'static str,
    pub local_ip: String,
    pub local_port: u16,
    pub remote_ip: String,
    pub remote_port: String,
    pub message: String,
}

impl Clone for LogEntry {
    fn clone(&self) -> (r: Self)
        ensures
            r == *self,
    {
        LogEntry {
            timestamp: self.timestamp.clone(),
            kind: self.kind,
            server: self.server,
            local_ip: self.local_ip.clone(),
            local_port: self.local_port,
            remote_ip: self.remote_ip.clone(),
            remote_port: self.remote_port.clone(),
            message: self.message.clone(),
        }
    }
}

/// Whether `e` is the entry for something that a server did by itself.
pub open spec fn is_system_entry(
    e: LogEntry,
    server: Seq<char>,
    bind_addr: Seq<char>,
    port: u16,
    msg: Seq<char>,
) -> bool {
    &&& e.kind@ == "System"@
    &&& e.server@ == server
    &&& e.local_ip@ == bind_addr
    &&& e.local_port == port
    &&& e.remote_ip@ == "-"@
    &&& e.remote_port@ == "-"@
    &&& e.message@ == server + " "@ + msg
}

/// Whether `e` is the entry for something that a client asked for.
pub open spec fn is_access_entry(
    e: LogEntry,
    server: Seq<char>,
    bind_addr: Seq<char>,
    port: u16,
    remote_ip: Seq<char>,
    remote_port: u16,
    msg: Seq<char>,
) -> bool {
    &&& e.kind@ == "Access"@
    &&& e.server@ == server
    &&& e.local_ip@ == bind_addr
    &&& e.local_port == port
    &&& e.remote_ip@ == remote_ip
    &&& e.remote_port@ == digits::decimal(remote_port as nat)
    &&& e.message@ == msg
}

/// Whether `stamp` is the date and time of some moment.
pub open spec fn is_stamp(stamp: Seq<char>) -> bool {
    exists|t: clock::LocalTime| t.in_range() && stamp == #[trigger] clock::log_stamp(t)
}

/// The entry for something that a server did by itself.
pub fn system_entry(
    stamp: String,
    server: &'static str,
    bind_addr: &str,
    port: u16,
    msg: &str,
) -> (e: LogEntry)
    ensures
        e.timestamp == stamp,
        is_system_entry(e, server@, bind_addr@, port, msg@),
{
    let mut message: String = server.to_owned();
    message.append(" ");
    message.append(msg);
    LogEntry {
        timestamp: stamp,
        kind: "System",
        server,
        local_ip: bind_addr.to_owned(),
        local_port: port,
        remote_ip: "-".to_owned(),
        remote_port: "-".to_owned(),
        message,
    }
}

/// The entry for something that a client asked for.
pub fn access_entry(
    stamp: String,
    server: &'static str,
    bind_addr: &str,
    port: u16,
    remote_ip: &str,
    remote_port: u16,
    msg: &str,
) -> (e: LogEntry)
    ensures
        e.timestamp == stamp,
        is_access_entry(e, server@, bind_addr@, port, remote_ip@, remote_port, msg@),
        digits::writes(e.remote_port@, remote_port as nat),
{
    proof {
        digits::law_decimal_writes(remote_port as nat);
    }
    LogEntry {
        timestamp: stamp,
        kind: "Access",
        server,
        local_ip: bind_addr.to_owned(),
        local_port: port,
        remote_ip: remote_ip.to_owned(),
        remote_port: decimal_string(remote_port as u64),
        message: msg.to_owned(),
    }
}

/// Adds an entry, with the current time, for something that a server did by itself.
pub fn log_system(
    log: &mut Vec<LogEntry>,
    server: &'static str,
    bind_addr: &str,
    port: u16,
    msg: &str,
)
    ensures
        final(log)@.len() == old(log)@.len() + 1,
        final(log)@.drop_last() == old(log)@,
        is_stamp(final(log)@.last().timestamp@),
        is_system_entry(final(log)@.last(), server@, bind_addr@, port, msg@),
{
    let stamp: String = timestamp();
    log.push(system_entry(stamp, server, bind_addr, port, msg));
    assert(log@.drop_last() =~= old(log)@);
}

/// Adds an entry, with the current time, for something that a client asked for.
pub fn log_access(
    log: &mut Vec<LogEntry>,
    server: &'static str,
    bind_addr: &str,
    port: u16,
    remote_ip: &str,
    remote_port: u16,
    msg: &str,
)
    ensures
        final(log)@.len() == old(log)@.len() + 1,
        final(log)@.drop_last() == old(log)@,
        is_stamp(final(log)@.last().timestamp@),
        is_access_entry(
            final(log)@.last(),
            server@,
            bind_addr@,
            port,
            remote_ip@,
            remote_port,
            msg@,
        ),
{
    let stamp: String = timestamp();
    log.push(access_entry(stamp, server, bind_addr, port, remote_ip, remote_port, msg));
    assert(log@.drop_last() =~= old(log)@);
}

// ---------------------------------------------------------------------------
// Listening
// ---------------------------------------------------------------------------

/// What happens to a server that listens.
pub enum ListenerEvent {
    /// The address is bound; the text names the root folder.
    Bound(String),
    /// The address could not be bound; the text says why.
    BindFailed(String),
    /// The shutdown signal changed to this value.
    Signal(bool),
    /// Waiting for a client failed; the text says why.
    WaitFailed(String),
}

/// What a server that listens does next.
pub struct ListenerStep {
    /// The message for the log, if there is one.
    pub log: Option<String>,
    /// Whether the server goes on listening.
    pub listening: bool,
}

/// The message for an event, if there is one. `waiting` names what a failed wait was for.
pub open spec fn listener_message(event: ListenerEvent, waiting: Seq<char>) -> Option<Seq<char>> {
    match event {
        ListenerEvent::Bound(folder) => Some("Server started (folder: "@ + folder@ + ")"@),
        ListenerEvent::BindFailed(why) => Some("Failed to bind: "@ + why@),
        ListenerEvent::Signal(stop) => if stop {
            Some("Server listener closed"@)
        } else {
            None
        },
        ListenerEvent::WaitFailed(why) => Some(waiting + " error: "@ + why@),
    }
}

/// What a server does next: it stops when it cannot bind and when it is told to, and for nothing
/// else.
pub fn listener_step(event: &ListenerEvent, waiting: &str) -> (r: ListenerStep)
    ensures
        r.log is Some <==> listener_message(*event, waiting@) is Some,
        r.log matches Some(m) ==> Some(m@) == listener_message(*event, waiting@),
        r.listening == !(event is BindFailed || *event == ListenerEvent::Signal(true)),
        event is Bound || event is WaitFailed ==> r.listening && r.log is Some,
        event is BindFailed ==> !r.listening && r.log is Some,
        *event matches ListenerEvent::Signal(stop) ==> r.listening == !stop && (r.log is Some <==> stop),
{
    match event {
        ListenerEvent::Bound(folder) => {
            let mut m: String = "Server started (folder: ".to_owned();
            m.append(folder.as_str());
            m.append(")");
            ListenerStep { log: Some(m), listening: true }
        },
        ListenerEvent::BindFailed(why) => {
            let mut m: String = "Failed to bind: ".to_owned();
            m.append(why.as_str());
            ListenerStep { log: Some(m), listening: false }
        },
        ListenerEvent::Signal(stop) => {
            if *stop {
                ListenerStep { log: Some("Server listener closed".to_owned()), listening: false }
            } else {
                ListenerStep { log: None, listening: true }
            }
        },
        ListenerEvent::WaitFailed(why) => {
            let mut m: String = waiting.to_owned();
            m.append(" error: ");
            m.append(why.as_str());
            ListenerStep { log: Some(m), listening: true }
        },
    }
}

// ---------------------------------------------------------------------------
// The root folder
// ---------------------------------------------------------------------------

/// The components of a path on disk with all links resolved, each as the bytes of its name.
pub struct CanonicalPath {
    pub parts: Vec<Vec<u8>>,
}

impl View for CanonicalPath {
    type V = Seq<Seq<u8>>;

    open spec fn view(&self) -> Seq<Seq<u8>> {
        self.parts@.map_values(|p: Vec<u8>| p@)
    }
}

/// What the disk says of something that exists.
pub struct Metadata {
    pub is_dir: bool,
    pub is_file: bool,
    pub len: u64,
}

/// What the disk says of the folder that a path lies in.
pub struct ParentFacts {
    pub exists: bool,
    pub is_dir: bool,
    /// The folder with all links resolved, if that succeeded.
    pub canonical: Option<CanonicalPath>,
}

/// What the disk says of a path.
pub struct PathFacts {
    /// What exists there, if anything does.
    pub meta: Option<Metadata>,
    /// The path with all links resolved, if that succeeded.
    pub canonical: Option<CanonicalPath>,
    /// The folder that the path lies in, if it lies in one.
    pub parent: Option<ParentFacts>,
}

impl PathFacts {
    pub open spec fn is_dir(self) -> bool {
        self.meta matches Some(m) && m.is_dir
    }

    pub open spec fn is_file(self) -> bool {
        self.meta matches Some(m) && m.is_file
    }

    /// Whether a folder exists there.
    pub fn dir(&self) -> (r: bool)
        ensures
            r == self.is_dir(),
    {
        match &self.meta {
            Some(m) => m.is_dir,
            None => false,
        }
    }

    /// Whether a file exists there.
    pub fn file(&self) -> (r: bool)
        ensures
            r == self.is_file(),
    {
        match &self.meta {
            Some(m) => m.is_file,
            None => false,
        }
    }
}

/// Whether a path lies in the folder `root` or is that folder: its components begin with those of
/// the folder.
pub open spec fn lies_in(path: Seq<Seq<u8>>, root: Seq<Seq<u8>>) -> bool {
    root.len() <= path.len() && path.take(root.len() as int) == root
}

/// Whether a path with all links resolved is known and lies in `root`.
pub open spec fn known_in(path: Option<CanonicalPath>, root: Seq<Seq<u8>>) -> bool {
    path matches Some(p) && lies_in(p@, root)
}

/// Whether a path may be used below `root`. What exists must lie in the root folder with all links
/// resolved. What does not exist yet must have an existing parent folder that does.
pub open spec fn within_root(root: Option<CanonicalPath>, path: PathFacts) -> bool {
    root matches Some(r) && if path.meta is Some {
        known_in(path.canonical, r@)
    } else {
        path.parent matches Some(p) && p.exists && known_in(p.canonical, r@)
    }
}

fn same_bytes(a: &Vec<u8>, b: &Vec<u8>) -> (r: bool)
    ensures
        r == (a@ == b@),
{
    if a.len() != b.len() {
        return false;
    }
    let mut i: usize = 0;
    while i < a.len()
        invariant
            i <= a.len(),
            a.len() == b.len(),
            forall|j: int| 0 <= j < i ==> a@[j] == b@[j],
        decreases a.len() - i,
    {
        if a[i] != b[i] {
            return false;
        }
        i += 1;
    }
    assert(a@ =~= b@);
    true
}

/// Whether `path` lies in the folder `root`, as `Path::starts_with` compares component by
/// component.
pub fn path_lies_in(path: &CanonicalPath, root: &CanonicalPath) -> (r: bool)
    ensures
        r == lies_in(path@, root@),
{
    if path.parts.len() < root.parts.len() {
        return false;
    }
    let mut i: usize = 0;
    while i < root.parts.len()
        invariant
            i <= root.parts.len() <= path.parts.len(),
            forall|j: int| 0 <= j < i ==> #[trigger] path@[j] == root@[j],
        decreases root.parts.len() - i,
    {
        assert(path@[i as int] == path.parts@[i as int]@);
        assert(root@[i as int] == root.parts@[i as int]@);
        if !same_bytes(&path.parts[i], &root.parts[i]) {
            assert(path@.take(root@.len() as int)[i as int] != root@[i as int]);
            return false;
        }
        i += 1;
    }
    assert(path@.take(root@.len() as int) =~= root@);
    true
}

fn known_lies_in(path: &Option<CanonicalPath>, root: &CanonicalPath) -> (r: bool)
    ensures
        r == known_in(*path, root@),
{
    match path {
        Some(p) => path_lies_in(p, root),
        None => false,
    }
}

/// Whether a path may be used below the root folder, given what the disk says of both.
pub fn is_within_root(root: &Option<CanonicalPath>, path: &PathFacts) -> (r: bool)
    ensures
        r == within_root(*root, *path),
{
    match root {
        Some(root) => {
            if path.meta.is_some() {
                known_lies_in(&path.canonical, root)
            } else {
                match &path.parent {
                    Some(parent) => parent.exists && known_lies_in(&parent.canonical, root),
                    None => false,
                }
            }
        },
        None => false,
    }
}

/// A path lies in a folder exactly if it is the path of the folder with something behind it, or with
/// nothing.
pub proof fn law_lies_in(root: Seq<Seq<u8>>, tail: Seq<Seq<u8>>, path: Seq<Seq<u8>>)
    ensures
        lies_in(root + tail, root),
        lies_in(path, root) ==> path == root + path.skip(root.len() as int),
{
    assert((root + tail).take(root.len() as int) =~= root);
    if lies_in(path, root) {
        assert(path =~= path.take(root.len() as int) + path.skip(root.len() as int));
    }
}

/// Lying in a folder carries over: what lies in a folder of the root folder lies in the root
/// folder.
pub proof fn law_lies_in_carries_over(path: Seq<Seq<u8>>, folder: Seq<Seq<u8>>, root: Seq<Seq<u8>>)
    requires
        lies_in(path, folder),
        lies_in(folder, root),
    ensures
        lies_in(path, root),
{
    assert(path.take(root.len() as int) =~= path.take(folder.len() as int).take(
        root.len() as int,
    ));
}

/// Without a resolvable root folder nothing may be used, and nothing may be used whose links could
/// not be resolved.
pub proof fn law_unresolved_is_refused(root: Option<CanonicalPath>, path: PathFacts)
    ensures
        root is None ==> !within_root(root, path),
        path.meta is Some && path.canonical is None ==> !within_root(root, path),
        path.meta is None && path.parent is None ==> !within_root(root, path),
{
}

/// Whether a path is that of a folder with `tail` behind it.
pub open spec fn goes_on(path: Seq<Seq<u8>>, folder: Seq<Seq<u8>>, tail: Seq<Seq<u8>>) -> bool {
    path == folder + tail
}

/// What exists may be used exactly if its own resolved path is that of the root folder with something
/// or nothing behind it; what does not exist, exactly if that holds of an existing folder around it.
pub proof fn law_what_may_be_used(root: CanonicalPath, path: PathFacts)
    ensures
        path.meta is Some ==> (within_root(Some(root), path) <==> path.canonical is Some && exists|
            tail: Seq<Seq<u8>>,
        |
            #[trigger] goes_on(path.canonical->0@, root@, tail)),
        path.meta is None ==> (within_root(Some(root), path) <==> path.parent is Some
            && path.parent->0.exists && path.parent->0.canonical is Some && exists|
            tail: Seq<Seq<u8>>,
        |
            #[trigger] goes_on(path.parent->0.canonical->0@, root@, tail)),
{
    if path.meta is Some && path.canonical is Some {
        lemma_goes_on(path.canonical->0@, root@);
    }
    if path.meta is None && path.parent is Some && path.parent->0.canonical is Some {
        lemma_goes_on(path.parent->0.canonical->0@, root@);
    }
}

proof fn lemma_goes_on(path: Seq<Seq<u8>>, root: Seq<Seq<u8>>)
    ensures
        lies_in(path, root) <==> exists|tail: Seq<Seq<u8>>| #[trigger] goes_on(path, root, tail),
{
    if lies_in(path, root) {
        law_lies_in(root, Seq::empty(), path);
        assert(goes_on(path, root, path.skip(root.len() as int)));
    }
    if exists|tail: Seq<Seq<u8>>| #[trigger] goes_on(path, root, tail) {
        let tail = choose|tail: Seq<Seq<u8>>| #[trigger] goes_on(path, root, tail);
        law_lies_in(root, tail, path);
    }
}

/// An entry for a client tells who asked whom for what.
pub proof fn law_access_entry(
    e: LogEntry,
    server: Seq<char>,
    bind_addr: Seq<char>,
    port: u16,
    remote_ip: Seq<char>,
    remote_port: u16,
    msg: Seq<char>,
)
    requires
        is_access_entry(e, server, bind_addr, port, remote_ip, remote_port, msg),
    ensures
        e.kind@ == "Access"@,
        e.server@ == server,
        e.local_ip@ == bind_addr && e.local_port == port,
        e.remote_ip@ == remote_ip && digits::writes(e.remote_port@, remote_port as nat),
        e.message@ == msg,
{
    digits::law_decimal_writes(remote_port as nat);
}

/// An entry for a server names no client, and its message is that of the server under its name.
pub proof fn law_system_entry(
    e: LogEntry,
    server: Seq<char>,
    bind_addr: Seq<char>,
    port: u16,
    msg: Seq<char>,
)
    requires
        is_system_entry(e, server, bind_addr, port, msg),
    ensures
        e.kind@ == "System"@,
        e.server@ == server,
        e.local_ip@ == bind_addr && e.local_port == port,
        e.remote_ip@ == seq!['-'] && e.remote_port@ == seq!['-'],
        e.message@.len() == server.len() + 1 + msg.len(),
        e.message@.take(server.len() as int) == server,
        e.message@[server.len() as int] == ' ',
        e.message@.skip(server.len() as int + 1) == msg,
{
    reveal_strlit("-");
    reveal_strlit(" ");
    assert("-"@ =~= seq!['-']);
    assert(e.message@.take(server.len() as int) =~= server);
    assert(e.message@.skip(server.len() as int + 1) =~= msg);
}

/// Whether a message is `head`, then `middle`, then `tail`.
pub open spec fn made_of(
    m: Option<Seq<char>>,
    head: Seq<char>,
    middle: Seq<char>,
    tail: Seq<char>,
) -> bool {
    m == Some(head + middle + tail)
}

/// Everything that happens to a server is logged with its reason or its folder, except a signal that
/// does not stop it.
pub proof fn law_listener_messages(event: ListenerEvent, waiting: Seq<char>)
    ensures
        ({
            let m = listener_message(event, waiting);
            match event {
                ListenerEvent::Bound(folder) => made_of(
                    m,
                    "Server started (folder: "@,
                    folder@,
                    ")"@,
                ),
                ListenerEvent::BindFailed(why) => made_of(
                    m,
                    "Failed to bind: "@,
                    why@,
                    Seq::empty(),
                ),
                ListenerEvent::WaitFailed(why) => made_of(m, waiting, " error: "@, why@),
                ListenerEvent::Signal(stop) => m == if stop {
                    Some("Server listener closed"@)
                } else {
                    None
                },
            }
        }),
{
    if let ListenerEvent::BindFailed(why) = event {
        assert("Failed to bind: "@ + why@ + Seq::<char>::empty() =~= "Failed to bind: "@ + why@);
    }
}

/// The date of an entry tells some moment to the second, from the year 0 to the year 9999.
pub proof fn law_stamp_tells_a_moment(stamp: Seq<char>)
    requires
        is_stamp(stamp),
    ensures
        exists|t: clock::LocalTime|
            #![trigger t.day()]
            t.in_range() && (0 <= clock::year_of(t.day()) <= 9999 ==> clock::tells_moment(stamp, t)),
{
    let t = choose|t: clock::LocalTime| t.in_range() && stamp == #[trigger] clock::log_stamp(t);
    if 0 <= clock::year_of(t.day()) <= 9999 {
        clock::law_log_stamp(t);
    }
    assert(t.day() == (t.secs + t.offset) / 86_400);
}

} // verus!
