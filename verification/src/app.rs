//! What the window does: its state, what its controls ask for, and what it shows of the log.

use vstd::prelude::*;

use crate::common;
use crate::common::{log_system, LogEntry};
use crate::controls;
use crate::controls::{controls, Control, ControlKind, Running, Tab};
use crate::digits;
use crate::digits::{decimal_string, parse_number};
use crate::ftp::ServerConfig;
use crate::httpd::HttpConfig;
use crate::text;
use crate::text::{same_text, trimmed};
use crate::tftp::TftpConfig;

verus! {

// ---------------------------------------------------------------------------
// Addresses to listen on
// ---------------------------------------------------------------------------

/// An IPv4 address as text.
pub open spec fn dotted(a: Seq<u8>) -> Seq<char> {
    digits::decimal(a[0] as nat) + "."@ + digits::decimal(a[1] as nat) + "."@ + digits::decimal(
        a[2] as nat,
    ) + "."@ + digits::decimal(a[3] as nat)
}

/// Whether a text is an IPv4 address: four numbers with dots between them, which are its bytes.
pub open spec fn is_dotted(s: Seq<char>, a: Seq<u8>) -> bool {
    let parts = text::split(s, '.');
    &&& parts.len() == 4
    &&& forall|i: int| 0 <= i < 4 ==> digits::writes(#[trigger] parts[i], a[i] as nat)
}

/// An address is written as its four bytes.
pub proof fn law_dotted(a: Seq<u8>)
    requires
        a.len() == 4,
    ensures
        is_dotted(dotted(a), a),
{
    reveal_strlit(".");
    let parts = Seq::new(4, |i: int| digits::decimal(a[i] as nat));
    assert forall|i: int| 0 <= i < 4 implies digits::writes(#[trigger] parts[i], a[i] as nat)
        && !parts[i].contains('.') by {
        digits::law_decimal_writes(a[i] as nat);
        digits::lemma_decimal(a[i] as nat);
        assert(!digits::is_digit('.'));
    }
    assert(parts.take(3).drop_last() =~= parts.take(2));
    assert(parts.take(2).drop_last() =~= parts.take(1));
    assert(parts.drop_last() =~= parts.take(3));
    reveal_with_fuel(text::join, 5);
    let one = parts[0];
    let two = one.push('.') + parts[1];
    let three = two.push('.') + parts[2];
    assert(text::join(parts.take(1), '.') == one);
    assert(text::join(parts.take(2), '.') == two);
    assert(text::join(parts.take(3), '.') == three);
    assert(text::join(parts, '.') == three.push('.') + parts[3]);
    assert(one + "."@ + parts[1] =~= two);
    assert(two + "."@ + parts[2] =~= three);
    assert(three + "."@ + parts[3] =~= three.push('.') + parts[3]);
    text::lemma_split_join(parts, '.');
}

/// An IPv4 address as text.
pub fn address_text(a: [u8; 4]) -> (s: String)
    ensures
        s@ == dotted(a@),
        is_dotted(s@, a@),
{
    proof {
        law_dotted(a@);
    }
    let mut s: String = decimal_string(a[0] as u64);
    s.append(".");
    s.append(decimal_string(a[1] as u64).as_str());
    s.append(".");
    s.append(decimal_string(a[2] as u64).as_str());
    s.append(".");
    s.append(decimal_string(a[3] as u64).as_str());
    s
}

/// Addresses with their labels, as text.
pub open spec fn pairs(ips: Seq<(String, String)>) -> Seq<(Seq<char>, Seq<char>)> {
    ips.map_values(|p: (String, String)| (p.0@, p.1@))
}

/// Whether an address is among those of a list.
pub open spec fn lists(ips: Seq<(Seq<char>, Seq<char>)>, addr: Seq<char>) -> bool {
    exists|i: int| 0 <= i < ips.len() && (#[trigger] ips[i]).0 == addr
}

/// The label of the address of an adapter.
pub open spec fn adapter_label(a: Seq<u8>) -> Seq<char> {
    if a[0] == 127 {
        dotted(a) + " (Localhost)"@
    } else {
        dotted(a)
    }
}

/// The addresses that the window offers: all interfaces, the default address, and those of the
/// adapters that are not in the list already.
pub open spec fn offered(default_ip: Seq<char>, adapters: Seq<[u8; 4]>) -> Seq<
    (Seq<char>, Seq<char>),
>
    decreases adapters.len(),
{
    if adapters.len() == 0 {
        let all = seq![("0.0.0.0"@, "0.0.0.0 (All interfaces)"@)];
        if default_ip == "0.0.0.0"@ {
            all
        } else {
            all.push((default_ip, default_ip + " (Default)"@))
        }
    } else {
        let before = offered(default_ip, adapters.drop_last());
        let a = adapters.last()@;
        if lists(before, dotted(a)) {
            before
        } else {
            before.push((dotted(a), adapter_label(a)))
        }
    }
}

/// The position of the first entry for an address, or the length of the list.
fn position_of(ips: &Vec<(String, String)>, addr: &str) -> (n: usize)
    ensures
        n <= ips.len(),
        forall|i: int| 0 <= i < n ==> (#[trigger] ips@[i]).0@ != addr@,
        n < ips.len() ==> ips@[n as int].0@ == addr@,
{
    let mut n: usize = 0;
    while n < ips.len()
        invariant
            n <= ips.len(),
            forall|i: int| 0 <= i < n ==> (#[trigger] ips@[i]).0@ != addr@,
        decreases ips.len() - n,
    {
        if same_text(ips[n].0.as_str(), addr) {
            return n;
        }
        n += 1;
    }
    n
}

/// The addresses that the window offers, with their labels.
pub fn detect_all_ips(default_ip: &str, adapters: &Vec<[u8; 4]>) -> (ips: Vec<(String, String)>)
    ensures
        pairs(ips@) == offered(default_ip@, adapters@),
{
    let mut ips: Vec<(String, String)> = Vec::new();
    ips.push(("0.0.0.0".to_owned(), "0.0.0.0 (All interfaces)".to_owned()));
    if !same_text(default_ip, "0.0.0.0") {
        let mut label: String = default_ip.to_owned();
        label.append(" (Default)");
        ips.push((default_ip.to_owned(), label));
    }
    assert(adapters@.take(0).len() == 0);
    assert(pairs(ips@) =~= offered(default_ip@, adapters@.take(0)));
    let mut i: usize = 0;
    while i < adapters.len()
        invariant
            i <= adapters.len(),
            pairs(ips@) == offered(default_ip@, adapters@.take(i as int)),
        decreases adapters.len() - i,
    {
        let ghost before = pairs(ips@);
        let ghost so_far = adapters@.take(i + 1);
        assert(so_far.drop_last() =~= adapters@.take(i as int));
        let a: [u8; 4] = adapters[i];
        let s: String = address_text(a);
        let at: usize = position_of(&ips, s.as_str());
        if at < ips.len() {
            assert(before[at as int].0 == dotted(a@));
        } else {
            assert(forall|k: int| 0 <= k < before.len() ==> (#[trigger] before[k]).0 == ips@[k].0@);
            assert(!lists(before, dotted(a@)));
            let mut label: String = s.clone();
            if a[0] == 127 {
                label.append(" (Localhost)");
            }
            ips.push((s, label));
            assert(pairs(ips@) =~= before.push((dotted(a@), adapter_label(a@))));
        }
        i += 1;
    }
    assert(adapters@.take(adapters@.len() as int) =~= adapters@);
    ips
}

/// The address that the system would send from, or all interfaces if it did not say.
pub fn detect_default_ip(found: Option<String>) -> (ip: String)
    ensures
        ip@ == (match found {
            Some(addr) => addr@,
            None => "0.0.0.0"@,
        }),
{
    match found {
        Some(addr) => addr,
        None => "0.0.0.0".to_owned(),
    }
}

/// The addresses without those that occur before.
pub open spec fn distinct(found: Seq<[u8; 4]>) -> Seq<[u8; 4]>
    decreases found.len(),
{
    if found.len() == 0 {
        found
    } else {
        let before = distinct(found.drop_last());
        if before.contains(found.last()) {
            before
        } else {
            before.push(found.last())
        }
    }
}

fn same_address(a: [u8; 4], b: [u8; 4]) -> (r: bool)
    ensures
        r == (a == b),
{
    let r: bool = a[0] == b[0] && a[1] == b[1] && a[2] == b[2] && a[3] == b[3];
    assert(r ==> a@ =~= b@);
    assert(r ==> a =~= b);
    r
}

/// The addresses of the adapters, each once, from all that were found.
pub fn get_adapter_addresses(found: &Vec<[u8; 4]>) -> (v: Vec<[u8; 4]>)
    ensures
        v@ == distinct(found@),
{
    let mut v: Vec<[u8; 4]> = Vec::new();
    let mut i: usize = 0;
    assert(found@.take(0).len() == 0);
    assert(v@ =~= distinct(found@.take(0)));
    while i < found.len()
        invariant
            i <= found.len(),
            v@ == distinct(found@.take(i as int)),
        decreases found.len() - i,
    {
        assert(found@.take(i + 1).drop_last() =~= found@.take(i as int));
        let mut k: usize = 0;
        while k < v.len() && !same_address(v[k], found[i])
            invariant
                i < found.len(),
                k <= v.len(),
                forall|j: int| 0 <= j < k ==> v@[j] != found@[i as int],
            decreases v.len() - k,
        {
            k += 1;
        }
        if k < v.len() {
            assert(v@[k as int] == found@[i as int]);
        } else {
            assert(!v@.contains(found@[i as int]));
            v.push(found[i]);
        }
        i += 1;
    }
    assert(found@.take(found@.len() as int) =~= found@);
    v
}

// ---------------------------------------------------------------------------
// State
// ---------------------------------------------------------------------------

/// The state of the window, apart from the log and the servers.
pub struct AppState {
    pub active_tab: Tab,
    pub auto_scroll: bool,
    pub last_log_count: usize,
    pub bind_addr: String,
    pub available_ips: Vec<(String, String)>,
}

/// The entry of the list of addresses that is selected at first: the first one for the default
/// address, or the first one at all.
pub open spec fn first_selected(ips: Seq<(Seq<char>, Seq<char>)>, default_ip: Seq<char>) -> int {
    if lists(ips, default_ip) {
        choose|n: int|
            0 <= n < ips.len() && (#[trigger] ips[n]).0 == default_ip && (forall|i: int|
                0 <= i < n ==> (#[trigger] ips[i]).0 != default_ip)
    } else {
        0
    }
}

/// The entry of the list of addresses that is selected at first.
pub fn default_index(ips: &Vec<(String, String)>, default_ip: &str) -> (n: usize)
    ensures
        n == first_selected(pairs(ips@), default_ip@),
{
    let n: usize = position_of(ips, default_ip);
    let ghost p = pairs(ips@);
    assert(forall|i: int| 0 <= i < p.len() ==> (#[trigger] p[i]).0 == ips@[i].0@);
    if n < ips.len() {
        assert(p[n as int].0 == default_ip@);
        proof {
            let m = first_selected(p, default_ip@);
            assert(0 <= m < p.len() && p[m].0 == default_ip@ && (forall|i: int|
                0 <= i < m ==> (#[trigger] p[i]).0 != default_ip@));
            assert(!(m < n)) by {
                if m < n {
                    assert(ips@[m].0@ != default_ip@);
                }
            }
        }
        n
    } else {
        assert(!lists(p, default_ip@));
        0
    }
}

impl AppState {
    /// The state of a new window.
    pub fn new(available_ips: Vec<(String, String)>, default_bind: String) -> (s: AppState)
        ensures
            s.active_tab == Tab::Ftp,
            s.auto_scroll,
            s.last_log_count == 0,
            s.bind_addr == default_bind,
            s.available_ips == available_ips,
    {
        AppState {
            active_tab: Tab::Ftp,
            auto_scroll: true,
            last_log_count: 0,
            bind_addr: default_bind,
            available_ips,
        }
    }

    /// Takes the address that was selected in the list; nothing changes if none was.
    pub fn select_bind(&mut self, selected: isize)
        ensures
            final(self).bind_addr@ == (if 0 <= selected < old(self).available_ips@.len() {
                old(self).available_ips@[selected as int].0@
            } else {
                old(self).bind_addr@
            }),
            final(self).active_tab == old(self).active_tab,
            final(self).auto_scroll == old(self).auto_scroll,
            final(self).last_log_count == old(self).last_log_count,
            final(self).available_ips == old(self).available_ips,
    {
        if selected >= 0 && (selected as usize) < self.available_ips.len() {
            self.bind_addr = self.available_ips[selected as usize].0.clone();
        }
    }

    /// Takes another page.
    pub fn show_tab(&mut self, tab: Tab)
        ensures
            *final(self) == (AppState { active_tab: tab, ..*old(self) }),
    {
        self.active_tab = tab;
    }

    /// Takes whether the list follows the log.
    pub fn set_auto_scroll(&mut self, on: bool)
        ensures
            *final(self) == (AppState { auto_scroll: on, ..*old(self) }),
    {
        self.auto_scroll = on;
    }

    /// Empties the log.
    pub fn clear_log(&mut self, logs: &mut Vec<LogEntry>)
        ensures
            *final(self) == (AppState { last_log_count: 0, ..*old(self) }),
            final(logs)@.len() == 0,
    {
        logs.clear();
        self.last_log_count = 0;
    }
}

/// A new window: its state, its controls, and the entry of the list of addresses that is selected.
pub struct NewWindow {
    pub state: AppState,
    pub controls: Vec<Control>,
    pub selected: usize,
}

/// Sets up a window. `listed_default` is the default address when the list of addresses is made,
/// `default_bind` the one when the window starts to use it.
pub fn on_create(listed_default: &str, adapters: &Vec<[u8; 4]>, default_bind: String) -> (w:
    NewWindow)
    ensures
        w.state.active_tab == Tab::Ftp,
        w.state.auto_scroll,
        w.state.last_log_count == 0,
        w.state.bind_addr == default_bind,
        pairs(w.state.available_ips@) == offered(listed_default@, adapters@),
        w.controls@ == controls::all_controls(),
        w.selected == first_selected(offered(listed_default@, adapters@), default_bind@),
{
    let ips: Vec<(String, String)> = detect_all_ips(listed_default, adapters);
    let selected: usize = default_index(&ips, default_bind.as_str());
    NewWindow { state: AppState::new(ips, default_bind), controls: controls(), selected }
}

// ---------------------------------------------------------------------------
// Commands
// ---------------------------------------------------------------------------

/// What the controls of the window ask for.
#[derive(Clone, Copy, Debug, PartialEq, Eq, Structural)]
pub enum UiCommand {
    SelectBind,
    Browse(Tab),
    Toggle(Tab),
    AutoScroll,
    Clear,
    Save,
    Nothing,
}

/// The notice that another entry of a list was selected.
pub const CBN_SELCHANGE: usize = 1;

/// What the control with this number asks for, with the notice `code`.
pub open spec fn command_of(id: int, code: int) -> UiCommand {
    if id == controls::ID_COMBO_BIND {
        if code == CBN_SELCHANGE {
            UiCommand::SelectBind
        } else {
            UiCommand::Nothing
        }
    } else if id == controls::ID_FTP_BROWSE {
        UiCommand::Browse(Tab::Ftp)
    } else if id == controls::ID_TFTP_BROWSE {
        UiCommand::Browse(Tab::Tftp)
    } else if id == controls::ID_HTTP_BROWSE {
        UiCommand::Browse(Tab::Http)
    } else if id == controls::ID_FTP_START {
        UiCommand::Toggle(Tab::Ftp)
    } else if id == controls::ID_TFTP_START {
        UiCommand::Toggle(Tab::Tftp)
    } else if id == controls::ID_HTTP_START {
        UiCommand::Toggle(Tab::Http)
    } else if id == controls::ID_CHECK_SCROLL {
        UiCommand::AutoScroll
    } else if id == controls::ID_BTN_CLEAR {
        UiCommand::Clear
    } else if id == controls::ID_BTN_SAVE {
        UiCommand::Save
    } else {
        UiCommand::Nothing
    }
}

/// Whether a message holds the number of a control, a notice and something else, from the lowest bits
/// up.
pub open spec fn packs(wparam: int, id: int, code: int, rest: int) -> bool {
    &&& 0 <= id < 65536
    &&& 0 <= code < 65536
    &&& wparam == id + 65536 * (code + 65536 * rest)
}

/// What a command message asks for: its lowest 16 bits hold the number of the control, and the next
/// 16 bits the notice.
pub fn on_command(wparam: usize) -> (c: UiCommand)
    ensures
        c == command_of(wparam as int % 65536, (wparam as int / 65536) % 65536),
        forall|id: int, code: int, rest: int| #[trigger]
            packs(wparam as int, id, code, rest) ==> c == command_of(id, code),
{
    let id: i32 = (wparam % 65536) as i32;
    let code: usize = (wparam / 65536) % 65536;
    proof {
        assert forall|i: int, c: int, rest: int| #[trigger]
            packs(wparam as int, i, c, rest) implies i == id && c == code by {
            let high = c + 65536 * rest;
            assert(wparam as int == i + 65536 * high);
            assert(wparam as int / 65536 == high);
        }
    }
    if id == controls::ID_COMBO_BIND {
        if code == CBN_SELCHANGE {
            UiCommand::SelectBind
        } else {
            UiCommand::Nothing
        }
    } else if id == controls::ID_FTP_BROWSE {
        UiCommand::Browse(Tab::Ftp)
    } else if id == controls::ID_TFTP_BROWSE {
        UiCommand::Browse(Tab::Tftp)
    } else if id == controls::ID_HTTP_BROWSE {
        UiCommand::Browse(Tab::Http)
    } else if id == controls::ID_FTP_START {
        UiCommand::Toggle(Tab::Ftp)
    } else if id == controls::ID_TFTP_START {
        UiCommand::Toggle(Tab::Tftp)
    } else if id == controls::ID_HTTP_START {
        UiCommand::Toggle(Tab::Http)
    } else if id == controls::ID_CHECK_SCROLL {
        UiCommand::AutoScroll
    } else if id == controls::ID_BTN_CLEAR {
        UiCommand::Clear
    } else if id == controls::ID_BTN_SAVE {
        UiCommand::Save
    } else {
        UiCommand::Nothing
    }
}

// ---------------------------------------------------------------------------
// Starting and stopping
// ---------------------------------------------------------------------------

/// Why a server is not started.
#[derive(Clone, Copy, Debug, PartialEq, Eq, Structural)]
pub enum StartError {
    Port,
    NoFolder,
    FolderMissing,
    BindAddress,
}

impl StartError {
    pub open spec fn text(self) -> Seq<char> {
        match self {
            StartError::Port => "Invalid port number"@,
            StartError::NoFolder => "Please select a public folder"@,
            StartError::FolderMissing => "The specified folder does not exist"@,
            StartError::BindAddress => "Invalid bind address"@,
        }
    }

    /// What the window says.
    pub fn message(self) -> (s: &'static str)
        ensures
            s@ == self.text(),
    {
        match self {
            StartError::Port => "Invalid port number",
            StartError::NoFolder => "Please select a public folder",
            StartError::FolderMissing => "The specified folder does not exist",
            StartError::BindAddress => "Invalid bind address",
        }
    }
}

/// What the fields of a page hold, and whether the root folder is one.
pub struct Form {
    pub port: String,
    pub root: String,
    pub root_is_dir: bool,
}

impl Form {
    pub open spec fn port_number(self) -> Option<u16> {
        digits::number(text::trim(self.port@))
    }

    /// What is wrong with the fields: the port is looked at before the folder.
    pub open spec fn error(self) -> Option<StartError> {
        if self.port_number() is None {
            Some(StartError::Port)
        } else {
            root_error(self.root@, self.root_is_dir)
        }
    }

    /// The port that a page names, and what is wrong with its fields.
    fn checked(&self) -> (r: Result<u16, StartError>)
        ensures
            match self.error() {
                Some(e) => r == Err::<u16, StartError>(e),
                None => r matches Ok(port) && self.port_number() == Some(port),
            },
    {
        match parse_number(trimmed(self.port.as_str()).as_str()) {
            None => Err(StartError::Port),
            Some(port) => match validate_root(self.root.as_str(), self.root_is_dir) {
                Some(e) => Err(e),
                None => Ok(port),
            },
        }
    }
}

/// What is wrong with a root folder.
pub open spec fn root_error(root_dir: Seq<char>, is_dir: bool) -> Option<StartError> {
    if root_dir.len() == 0 {
        Some(StartError::NoFolder)
    } else if !is_dir {
        Some(StartError::FolderMissing)
    } else {
        None
    }
}

/// What is wrong with a root folder.
pub fn validate_root(root_dir: &str, is_dir: bool) -> (r: Option<StartError>)
    ensures
        r == root_error(root_dir@, is_dir),
{
    if same_text(root_dir, "") {
        proof {
            reveal_strlit("");
        }
        Some(StartError::NoFolder)
    } else {
        proof {
            reveal_strlit("");
            assert(root_dir@.len() == 0 ==> root_dir@ =~= ""@);
        }
        if !is_dir {
            Some(StartError::FolderMissing)
        } else {
            None
        }
    }
}

/// Whether `r` is the text, or nothing if the text is empty.
pub open spec fn is_non_empty(r: Option<String>, s: Seq<char>) -> bool {
    match r {
        Some(t) => t@ == s && s.len() > 0,
        None => s.len() == 0,
    }
}

/// A text, or nothing if it is empty.
pub fn non_empty(s: &str) -> (r: Option<String>)
    ensures
        is_non_empty(r, s@),
{
    proof {
        reveal_strlit("");
        assert(s@.len() == 0 ==> s@ =~= ""@);
    }
    if same_text(s, "") {
        None
    } else {
        Some(s.to_owned())
    }
}

/// The address that a server listens on: all interfaces, if none is given.
pub open spec fn host(bind_addr: Seq<char>) -> Seq<char> {
    if text::trim(bind_addr).len() == 0 {
        "0.0.0.0"@
    } else {
        text::trim(bind_addr)
    }
}

/// The name of the server of a page.
pub open spec fn name_of(tab: Tab) -> Seq<char> {
    match tab {
        Tab::Ftp => "FTP"@,
        Tab::Tftp => "TFTP"@,
        Tab::Http => "HTTP"@,
    }
}

/// The name of the server of a page.
pub fn server_name(tab: Tab) -> (s: &'static str)
    ensures
        s@ == name_of(tab),
{
    match tab {
        Tab::Ftp => "FTP",
        Tab::Tftp => "TFTP",
        Tab::Http => "HTTP",
    }
}

/// Takes whether the bind address of an FTP server names an address and a port.
pub fn address_checked(config: ServerConfig, is_address: bool) -> (r: Result<
    ServerConfig,
    StartError,
>)
    ensures
        r == (if is_address {
            Ok::<ServerConfig, StartError>(config)
        } else {
            Err::<ServerConfig, StartError>(StartError::BindAddress)
        }),
{
    if is_address {
        Ok(config)
    } else {
        Err(StartError::BindAddress)
    }
}

impl AppState {
    fn bind_host(&self) -> (s: String)
        ensures
            s@ == host(self.bind_addr@),
    {
        let s: String = trimmed(self.bind_addr.as_str());
        match non_empty(s.as_str()) {
            Some(t) => t,
            None => "0.0.0.0".to_owned(),
        }
    }

    /// The setup of the FTP server from the fields of its page. Whether its bind address is one is
    /// left to `address_checked`.
    pub fn start_ftp(&self, form: &Form, user: &str, pass: &str) -> (r: Result<
        ServerConfig,
        StartError,
    >)
        ensures
            match form.error() {
                Some(e) => r == Err::<ServerConfig, StartError>(e),
                None => {
                    &&& r matches Ok(config)
                    &&& config.root_dir@ == form.root@
                    &&& Some(config.port) == form.port_number()
                    &&& config.bind_addr@ == host(self.bind_addr@) + ":"@ + digits::decimal(
                        config.port as nat,
                    )
                    &&& digits::framed(
                        config.bind_addr@,
                        host(self.bind_addr@) + ":"@,
                        config.port as nat,
                        ""@,
                    )
                    &&& is_non_empty(config.username, user@)
                    &&& is_non_empty(config.password, pass@)
                    &&& config.username is None <==> user@.len() == 0
                    &&& config.password is None <==> pass@.len() == 0
                    &&& config.username matches Some(u) ==> u@ == user@
                    &&& config.password matches Some(p) ==> p@ == pass@
                },
            },
    {
        match form.checked() {
            Err(e) => Err(e),
            Ok(port) => {
                let mut bind_addr: String = self.bind_host();
                bind_addr.append(":");
                bind_addr.append(decimal_string(port as u64).as_str());
                proof {
                    reveal_strlit("");
                    let head = host(self.bind_addr@) + ":"@;
                    digits::lemma_framed(head, port as nat, ""@);
                    assert(head + digits::decimal(port as nat) + ""@ =~= bind_addr@);
                }
                Ok(
                    ServerConfig {
                        root_dir: form.root.clone(),
                        port,
                        bind_addr,
                        username: non_empty(user),
                        password: non_empty(pass),
                    },
                )
            },
        }
    }

    /// The setup of the TFTP server from the fields of its page.
    pub fn start_tftp(&self, form: &Form) -> (r: Result<TftpConfig, StartError>)
        ensures
            match form.error() {
                Some(e) => r == Err::<TftpConfig, StartError>(e),
                None => {
                    &&& r matches Ok(config)
                    &&& config.root_dir@ == form.root@
                    &&& Some(config.port) == form.port_number()
                    &&& config.bind_addr@ == host(self.bind_addr@)
                },
            },
    {
        match form.checked() {
            Err(e) => Err(e),
            Ok(port) => Ok(
                TftpConfig { root_dir: form.root.clone(), port, bind_addr: self.bind_host() },
            ),
        }
    }

    /// The setup of the HTTP server from the fields of its page.
    pub fn start_http(&self, form: &Form) -> (r: Result<HttpConfig, StartError>)
        ensures
            match form.error() {
                Some(e) => r == Err::<HttpConfig, StartError>(e),
                None => {
                    &&& r matches Ok(config)
                    &&& config.root_dir@ == form.root@
                    &&& Some(config.port) == form.port_number()
                    &&& config.bind_addr@ == host(self.bind_addr@)
                },
            },
    {
        match form.checked() {
            Err(e) => Err(e),
            Ok(port) => Ok(
                HttpConfig { root_dir: form.root.clone(), port, bind_addr: self.bind_host() },
            ),
        }
    }

    /// Logs that a server was stopped, if it was there to be stopped. A port that is none is logged
    /// as 0.
    pub fn log_stop(&self, logs: &mut Vec<LogEntry>, tab: Tab, was_there: bool, port: &str)
        ensures
            !was_there ==> final(logs)@ == old(logs)@,
            was_there ==> {
                &&& final(logs)@.len() == old(logs)@.len() + 1
                &&& final(logs)@.drop_last() == old(logs)@
                &&& common::is_stamp(final(logs)@.last().timestamp@)
                &&& common::is_system_entry(
                    final(logs)@.last(),
                    name_of(tab),
                    self.bind_addr@,
                    match digits::number(text::trim(port@)) {
                        Some(n) => n,
                        None => 0,
                    },
                    "Server stopped"@,
                )
                &&& digits::number(text::trim(port@)) is None ==> final(logs)@.last().local_port == 0
                &&& digits::number(text::trim(port@)) is Some ==> Some(final(logs)@.last().local_port)
                    == digits::number(text::trim(port@))
            },
    {
        if was_there {
            let n: u16 = match parse_number(trimmed(port).as_str()) {
                Some(n) => n,
                None => 0,
            };
            log_system(logs, server_name(tab), self.bind_addr.as_str(), n, "Server stopped");
        }
    }
}

/// What the button of a page does.
#[derive(Clone, Copy, Debug, PartialEq, Eq, Structural)]
pub enum Toggle {
    Start,
    Stop,
}

/// What the button of a page does: a server that is running is stopped, another one is started.
pub fn toggle_server(tab: Tab, running: Running) -> (t: Toggle)
    ensures
        t == (if running.of(tab) {
            Toggle::Stop
        } else {
            Toggle::Start
        }),
        t == Toggle::Stop <==> (tab == Tab::Ftp && running.ftp) || (tab == Tab::Tftp && running.tftp)
            || (tab == Tab::Http && running.http),
{
    if running.get(tab) {
        Toggle::Stop
    } else {
        Toggle::Start
    }
}

/// The servers that are left of those that were `started`: those that are still running; and whether
/// any was dropped.
pub fn check_servers(started: Running, running: Running) -> (r: (Running, bool))
    ensures
        forall|tab: Tab| #[trigger] r.0.of(tab) == (started.of(tab) && running.of(tab)),
        r.1 == (r.0 != started),
        r.1 <==> (started.ftp && !running.ftp) || (started.tftp && !running.tftp) || (started.http
            && !running.http),
        running == started ==> r.0 == started,
{
    let left: Running = Running {
        ftp: started.ftp && running.ftp,
        tftp: started.tftp && running.tftp,
        http: started.http && running.http,
    };
    (
        left,
        (started.ftp && !running.ftp) || (started.tftp && !running.tftp) || (started.http
            && !running.http),
    )
}

/// The servers to stop when the window is closed, in order.
pub open spec fn to_stop(running: Running) -> Seq<Tab> {
    seq![Tab::Ftp, Tab::Tftp, Tab::Http].filter(|tab: Tab| running.of(tab))
}

/// The servers to stop when the window is closed.
pub fn on_destroy(running: Running) -> (v: Vec<Tab>)
    ensures
        v@ == to_stop(running),
{
    let mut v: Vec<Tab> = Vec::new();
    if running.ftp {
        v.push(Tab::Ftp);
    }
    if running.tftp {
        v.push(Tab::Tftp);
    }
    if running.http {
        v.push(Tab::Http);
    }
    proof {
        let all = seq![Tab::Ftp, Tab::Tftp, Tab::Http];
        let on = |tab: Tab| running.of(tab);
        reveal_with_fuel(Seq::filter, 4);
        assert(all.drop_last() =~= seq![Tab::Ftp, Tab::Tftp]);
        assert(all.drop_last().drop_last() =~= seq![Tab::Ftp]);
        assert(all.drop_last().drop_last().drop_last() =~= Seq::<Tab>::empty());
        assert(v@ =~= all.filter(on));
    }
    v
}

// ---------------------------------------------------------------------------
// Showing and saving the log
// ---------------------------------------------------------------------------

/// The columns of the list, with their widths.
pub open spec fn column_names() -> Seq<Seq<char>> {
    seq![
        "DateTime"@,
        "Type"@,
        "Server"@,
        "LocalIP"@,
        "LocalPort"@,
        "RemoteIP"@,
        "RemotePort"@,
        "Message"@,
    ]
}

/// A column of the list.
#[derive(Clone, Copy, Debug)]
pub struct Column {
    pub name: &'static str,
    pub width: i32,
}

/// The columns of the list.
pub fn columns() -> (v: Vec<Column>)
    ensures
        v@.map_values(|c: Column| c.name@) == column_names(),
        v@.map_values(|c: Column| c.width) == seq![130i32, 50, 50, 100, 60, 100, 70, 250],
{
    let mut v: Vec<Column> = Vec::new();
    v.push(Column { name: "DateTime", width: 130 });
    v.push(Column { name: "Type", width: 50 });
    v.push(Column { name: "Server", width: 50 });
    v.push(Column { name: "LocalIP", width: 100 });
    v.push(Column { name: "LocalPort", width: 60 });
    v.push(Column { name: "RemoteIP", width: 100 });
    v.push(Column { name: "RemotePort", width: 70 });
    v.push(Column { name: "Message", width: 250 });
    assert(v@.map_values(|c: Column| c.name@) =~= column_names());
    assert(v@.map_values(|c: Column| c.width) =~= seq![130i32, 50, 50, 100, 60, 100, 70, 250]);
    v
}

/// The fields of an entry, one for each column.
pub open spec fn row(e: LogEntry) -> Seq<Seq<char>> {
    seq![
        e.timestamp@,
        e.kind@,
        e.server@,
        e.local_ip@,
        digits::decimal(e.local_port as nat),
        e.remote_ip@,
        e.remote_port@,
        e.message@,
    ]
}

/// The fields of an entry, one for each column.
pub fn fields(e: &LogEntry) -> (v: Vec<String>)
    ensures
        text::texts(v@) == row(*e),
{
    let mut v: Vec<String> = Vec::new();
    v.push(e.timestamp.clone());
    v.push(e.kind.to_owned());
    v.push(e.server.to_owned());
    v.push(e.local_ip.clone());
    v.push(decimal_string(e.local_port as u64));
    v.push(e.remote_ip.clone());
    v.push(e.remote_port.clone());
    v.push(e.message.clone());
    assert(text::texts(v@) =~= row(*e));
    v
}

/// The entries of a log that were not shown yet, where `count` were.
pub open spec fn fresh(log: Seq<LogEntry>, count: int) -> Seq<LogEntry> {
    if log.len() <= count {
        Seq::empty()
    } else {
        log.skip(count)
    }
}

/// How many entries of a log were shown, after the fresh ones.
pub open spec fn shown(log: Seq<LogEntry>, count: int) -> int {
    if log.len() <= count {
        count
    } else {
        log.len() as int
    }
}

impl AppState {
    /// The rows for the entries that were not shown yet; they are shown now.
    pub fn on_timer(&mut self, logs: &Vec<LogEntry>) -> (rows: Vec<Vec<String>>)
        ensures
            rows@.map_values(|r: Vec<String>| text::texts(r@)) == fresh(
                logs@,
                old(self).last_log_count as int,
            ).map_values(|e: LogEntry| row(e)),
            *final(self) == (AppState {
                last_log_count: shown(logs@, old(self).last_log_count as int) as usize,
                ..*old(self)
            }),
    {
        let mut rows: Vec<Vec<String>> = Vec::new();
        let first: usize = self.last_log_count;
        let ghost want = fresh(logs@, first as int).map_values(|e: LogEntry| row(e));
        let count: usize = logs.len();
        if count <= first {
            assert(rows@.map_values(|r: Vec<String>| text::texts(r@)) =~= want);
            return rows;
        }
        let mut i: usize = first;
        while i < count
            invariant
                first <= i <= count,
                count == logs.len(),
                first < count,
                want == logs@.skip(first as int).map_values(|e: LogEntry| row(e)),
                rows@.map_values(|r: Vec<String>| text::texts(r@)) =~= want.take(i - first),
            decreases count - i,
        {
            let ghost before = rows@;
            rows.push(fields(&logs[i]));
            assert(want[i - first] == row(logs@[i as int]));
            assert(rows@.map_values(|r: Vec<String>| text::texts(r@)) =~= before.map_values(
                |r: Vec<String>| text::texts(r@),
            ).push(want[i - first]));
            i += 1;
        }
        self.last_log_count = count;
        assert(want.take(count - first) =~= want);
        rows
    }

    /// The row of the list to bring into view after new rows, if there are `count` in all.
    pub fn scroll_to(&self, count: isize) -> (r: Option<usize>)
        ensures
            r == (if self.auto_scroll && count > 0 {
                Some((count - 1) as usize)
            } else {
                None
            }),
            r matches Some(n) ==> n + 1 == count,
            r is Some <==> self.auto_scroll && count >= 1,
    {
        if self.auto_scroll && count > 0 {
            Some((count - 1) as usize)
        } else {
            None
        }
    }
}

/// The line of a saved log for some fields.
pub open spec fn table_line(row: Seq<Seq<char>>) -> Seq<char> {
    text::join(row, '\t').push('\n')
}

/// A saved log: a line with the names of the columns, and one for each entry.
pub open spec fn table(log: Seq<LogEntry>) -> Seq<char>
    decreases log.len(),
{
    if log.len() == 0 {
        table_line(column_names())
    } else {
        table(log.drop_last()) + table_line(row(log.last()))
    }
}

fn append_line(out: &mut String, row: &Vec<String>)
    ensures
        final(out)@ == old(out)@ + table_line(text::texts(row@)),
{
    let ghost all = text::texts(row@);
    let mut i: usize = 0;
    assert(out@ =~= old(out)@ + text::join(all.take(0), '\t'));
    while i < row.len()
        invariant
            i <= row.len(),
            all == text::texts(row@),
            out@ == old(out)@ + text::join(all.take(i as int), '\t'),
        decreases row.len() - i,
    {
        let ghost so_far = all.take(i + 1);
        assert(so_far.drop_last() =~= all.take(i as int));
        assert(so_far.last() == row@[i as int]@);
        if i > 0 {
            out.push('\t');
        }
        out.append(row[i].as_str());
        assert(out@ =~= old(out)@ + text::join(so_far, '\t'));
        i += 1;
    }
    assert(all.take(all.len() as int) =~= all);
    out.push('\n');
    assert(out@ =~= old(out)@ + table_line(all));
}

/// The text of a saved log.
pub fn log_table(logs: &Vec<LogEntry>) -> (out: String)
    ensures
        out@ == table(logs@),
{
    let cols: Vec<Column> = columns();
    let mut names: Vec<String> = Vec::new();
    let mut i: usize = 0;
    while i < cols.len()
        invariant
            i <= cols.len(),
            text::texts(names@) =~= cols@.map_values(|c: Column| c.name@).take(i as int),
        decreases cols.len() - i,
    {
        let ghost want = cols@.map_values(|c: Column| c.name@);
        let ghost before = text::texts(names@);
        names.push(cols[i].name.to_owned());
        assert(text::texts(names@) =~= before.push(want[i as int]));
        i += 1;
    }
    assert(text::texts(names@) =~= column_names());
    let mut out: String = String::new();
    append_line(&mut out, &names);
    assert(logs@.take(0).len() == 0);
    assert(out@ =~= table(logs@.take(0)));
    let mut k: usize = 0;
    while k < logs.len()
        invariant
            k <= logs.len(),
            out@ == table(logs@.take(k as int)),
        decreases logs.len() - k,
    {
        assert(logs@.take(k + 1).drop_last() =~= logs@.take(k as int));
        append_line(&mut out, &fields(&logs[k]));
        k += 1;
    }
    assert(logs@.take(logs@.len() as int) =~= logs@);
    out
}

// ---------------------------------------------------------------------------
// Laws
// ---------------------------------------------------------------------------

/// The addresses of the adapters are those that were found, each once, in the order in which they
/// first appeared.
pub proof fn law_addresses_are_distinct(found: Seq<[u8; 4]>)
    ensures
        distinct(found).no_duplicates(),
        forall|a: [u8; 4]| distinct(found).contains(a) <==> #[trigger] found.contains(a),
        forall|i: int, j: int|
            #![trigger distinct(found)[i], distinct(found)[j]]
            0 <= i < j < distinct(found).len() ==> text::first_at(found, distinct(found)[i])
                < text::first_at(found, distinct(found)[j]),
    decreases found.len(),
{
    if found.len() > 0 {
        let front = found.drop_last();
        let last = found.last();
        let before = distinct(front);
        let all = distinct(found);
        law_addresses_are_distinct(front);
        assert(front.contains(last) <==> before.contains(last));
        assert forall|a: [u8; 4]| all.contains(a) <==> #[trigger] found.contains(a) by {
            assert(front.contains(a) <==> before.contains(a));
            if front.contains(a) {
                let k = choose|k: int| 0 <= k < front.len() && front[k] == a;
                assert(found[k] == a);
                let m = choose|m: int| 0 <= m < before.len() && before[m] == a;
                assert(all[m] == a);
            }
            if found.contains(a) && !front.contains(a) {
                let k = choose|k: int| 0 <= k < found.len() && found[k] == a;
                assert(k < front.len() ==> front[k] == a);
                assert(a == last);
                assert(all[before.len() as int] == a);
            }
            if all.contains(a) {
                let m = choose|m: int| 0 <= m < all.len() && all[m] == a;
                if m < before.len() {
                    assert(before[m] == a);
                } else {
                    assert(found[found.len() - 1] == a);
                }
            }
        }
        assert forall|i: int, j: int|
            #![trigger all[i], all[j]]
            0 <= i < j < all.len() implies text::first_at(found, all[i]) < text::first_at(
            found,
            all[j],
        ) by {
            assert(before[i] == all[i]);
            assert(before.contains(all[i]));
            assert(front.contains(all[i]));
            lemma_first_in_front(found, all[i]);
            if j < before.len() {
                assert(before[j] == all[j]);
                assert(before.contains(all[j]));
                assert(front.contains(all[j]));
                lemma_first_in_front(found, all[j]);
            } else {
                assert(!front.contains(last));
                text::lemma_first_at(found, last);
                let p = text::first_at(found, last);
                assert(found[found.len() - 1] == last);
                assert(found.contains(last));
                assert(p < front.len() ==> front[p] == last);
            }
        }
    }
}

/// What occurs in front of the last element has its first appearance there.
proof fn lemma_first_in_front(found: Seq<[u8; 4]>, a: [u8; 4])
    requires
        found.len() > 0,
        found.drop_last().contains(a),
    ensures
        text::first_at(found, a) == text::first_at(found.drop_last(), a),
        text::first_at(found, a) < found.len() - 1,
{
    let front = found.drop_last();
    text::lemma_first_at(found, a);
    text::lemma_first_at(front, a);
    let p = text::first_at(found, a);
    let q = text::first_at(front, a);
    assert(found[q] == front[q]);
    assert(p <= q);
    assert(front[p] == found[p]);
}

/// No address is offered twice, and the first one is that of all interfaces.
pub proof fn law_offered_once(default_ip: Seq<char>, adapters: Seq<[u8; 4]>, i: int, j: int)
    requires
        0 <= i < j < offered(default_ip, adapters).len(),
    ensures
        offered(default_ip, adapters)[0].0 == "0.0.0.0"@,
        offered(default_ip, adapters)[i].0 != offered(default_ip, adapters)[j].0,
    decreases adapters.len(),
{
    let ips = offered(default_ip, adapters);
    if adapters.len() > 0 {
        let before = offered(default_ip, adapters.drop_last());
        lemma_offered_first(default_ip, adapters);
        if j < before.len() {
            law_offered_once(default_ip, adapters.drop_last(), i, j);
        } else {
            assert(before[i].0 == ips[i].0);
        }
    }
}

proof fn lemma_offered_first(default_ip: Seq<char>, adapters: Seq<[u8; 4]>)
    ensures
        offered(default_ip, adapters).len() > 0,
        offered(default_ip, adapters)[0].0 == "0.0.0.0"@,
    decreases adapters.len(),
{
    if adapters.len() > 0 {
        lemma_offered_first(default_ip, adapters.drop_last());
    }
}

/// The default address is offered, and it is the one that is selected at first.
pub proof fn law_default_is_selected(default_ip: Seq<char>, adapters: Seq<[u8; 4]>)
    ensures
        ({
            let ips = offered(default_ip, adapters);
            let n = first_selected(ips, default_ip);
            0 <= n < ips.len() && ips[n].0 == default_ip
        }),
{
    let ips = offered(default_ip, adapters);
    lemma_default_is_offered(default_ip, adapters);
    assert(lists(ips, default_ip));
    let k = if default_ip == "0.0.0.0"@ {
        0int
    } else {
        1
    };
    assert(ips[k].0 == default_ip);
    assert(forall|i: int| 0 <= i < k ==> (#[trigger] ips[i]).0 != default_ip);
}

proof fn lemma_default_is_offered(default_ip: Seq<char>, adapters: Seq<[u8; 4]>)
    ensures
        offered(default_ip, adapters).len() > 0,
        offered(default_ip, adapters)[0].0 == "0.0.0.0"@,
        default_ip != "0.0.0.0"@ ==> offered(default_ip, adapters).len() > 1 && offered(
            default_ip,
            adapters,
        )[1].0 == default_ip,
    decreases adapters.len(),
{
    if adapters.len() > 0 {
        lemma_default_is_offered(default_ip, adapters.drop_last());
    }
}

/// The address of every adapter is offered.
pub proof fn law_adapters_are_offered(default_ip: Seq<char>, adapters: Seq<[u8; 4]>, k: int)
    requires
        0 <= k < adapters.len(),
    ensures
        lists(offered(default_ip, adapters), dotted(adapters[k]@)),
    decreases adapters.len(),
{
    let before = offered(default_ip, adapters.drop_last());
    let ips = offered(default_ip, adapters);
    if k < adapters.len() - 1 {
        law_adapters_are_offered(default_ip, adapters.drop_last(), k);
        let i = choose|i: int| 0 <= i < before.len() && (#[trigger] before[i]).0 == dotted(adapters[k]@);
        assert(ips[i].0 == dotted(adapters[k]@));
    } else if !lists(before, dotted(adapters[k]@)) {
        assert(ips[before.len() as int].0 == dotted(adapters[k]@));
    }
}

/// While the log only grows, every entry is shown once, in order: what is shown at two moments is
/// what would have been shown at the later one alone.
pub proof fn law_entries_are_shown_once(log: Seq<LogEntry>, more: Seq<LogEntry>, count: int)
    requires
        0 <= count <= log.len(),
    ensures
        fresh(log, count) + fresh(log + more, shown(log, count)) == fresh(log + more, count),
        shown(log + more, shown(log, count)) == shown(log + more, count),
{
    assert(fresh(log, count) + fresh(log + more, shown(log, count)) =~= fresh(log + more, count));
}

/// The fields of a line of a saved log can be read back, unless one of them holds a tab.
pub proof fn law_table_line_splits(e: LogEntry)
    requires
        forall|i: int| 0 <= i < row(e).len() ==> !(#[trigger] row(e)[i]).contains('\t'),
    ensures
        text::split(table_line(row(e)).drop_last(), '\t') == row(e),
{
    assert(table_line(row(e)).drop_last() =~= text::join(row(e), '\t'));
    text::lemma_split_join(row(e), '\t');
}

/// While a server is running, the fields of its page and its browse button cannot be used, and the
/// rest of its page can.
pub proof fn law_running_server_is_locked(tab: Tab, running: Running, i: int)
    requires
        running.of(tab),
        0 <= i < controls::all_controls().len(),
        controls::all_controls()[i].page == Some(tab),
    ensures
        ({
            let c = controls::all_controls()[i];
            !controls::usable(c.id as int, running) <==> {
                ||| c.kind == ControlKind::Edit
                ||| c.kind == ControlKind::Secret
                ||| command_of(c.id as int, 0) == UiCommand::Browse(tab)
            }
        }),
{
    assert(controls::all_controls().len() == 33);
}

/// What is offered is all interfaces, the default address and addresses of adapters, each with its
/// label; of the addresses of adapters those that begin with 127 are marked.
pub proof fn law_offered_labels(default_ip: Seq<char>, adapters: Seq<[u8; 4]>, i: int)
    requires
        0 <= i < offered(default_ip, adapters).len(),
    ensures
        ({
            let (addr, label) = offered(default_ip, adapters)[i];
            ||| i == 0 && addr == "0.0.0.0"@ && label == "0.0.0.0 (All interfaces)"@
            ||| i == 1 && default_ip != "0.0.0.0"@ && addr == default_ip && label == default_ip
                + " (Default)"@
            ||| exists|k: int|
                0 <= k < adapters.len() && is_dotted(addr, #[trigger] adapters[k]@) && label == addr
                    + (if adapters[k][0] == 127 {
                    " (Localhost)"@
                } else {
                    Seq::<char>::empty()
                })
        }),
    decreases adapters.len(),
{
    if adapters.len() > 0 {
        let front = adapters.drop_last();
        let before = offered(default_ip, front);
        let ips = offered(default_ip, adapters);
        if i < before.len() {
            law_offered_labels(default_ip, front, i);
            assert(ips[i] == before[i]);
            let (addr, label) = before[i];
            if exists|k: int|
                0 <= k < front.len() && is_dotted(addr, #[trigger] front[k]@) && label == addr + (
                if front[k][0] == 127 {
                    " (Localhost)"@
                } else {
                    Seq::<char>::empty()
                }) {
                let k = choose|k: int|
                    0 <= k < front.len() && is_dotted(addr, #[trigger] front[k]@) && label == addr + (
                    if front[k][0] == 127 {
                        " (Localhost)"@
                    } else {
                        Seq::<char>::empty()
                    });
                assert(adapters[k] == front[k]);
            }
        } else {
            let k = adapters.len() - 1;
            let a = adapters[k]@;
            law_dotted(a);
            assert(ips[i] == (dotted(a), adapter_label(a)));
            assert(dotted(a) + Seq::<char>::empty() =~= dotted(a));
            assert(is_dotted(ips[i].0, adapters[k]@));
        }
    }
}

/// The entry that is selected at first is the first one for the address, or else the first of all.
pub proof fn law_first_selected(ips: Seq<(Seq<char>, Seq<char>)>, default_ip: Seq<char>, k: int)
    requires
        0 <= k < ips.len(),
        forall|i: int| 0 <= i < k ==> (#[trigger] ips[i]).0 != default_ip,
    ensures
        ips[k].0 == default_ip ==> first_selected(ips, default_ip) == k,
        k == ips.len() - 1 && ips[k].0 != default_ip ==> first_selected(ips, default_ip) == 0,
{
    if ips[k].0 == default_ip {
        assert(lists(ips, default_ip));
        let n = first_selected(ips, default_ip);
        assert(0 <= n < ips.len() && ips[n].0 == default_ip && (forall|i: int|
            0 <= i < n ==> (#[trigger] ips[i]).0 != default_ip));
    }
}

/// Every control asks for what it shows: a browse button for the folder of its page, a start button for
/// its server, and the others for what their text says. All the rest ask for nothing.
pub proof fn law_controls_ask_for(i: int, code: int)
    requires
        0 <= i < controls::all_controls().len(),
    ensures
        ({
            let c = controls::all_controls()[i];
            let asked = command_of(c.id as int, code);
            &&& asked matches UiCommand::Browse(tab) ==> c.page == Some(tab) && c.kind
                == ControlKind::Button && c.text@ == "Browse..."@
            &&& asked matches UiCommand::Toggle(tab) ==> c.page == Some(tab) && c.kind
                == ControlKind::Button && c.text@ == controls::start_text(tab, false)
            &&& asked is AutoScroll ==> c.kind == ControlKind::Check
            &&& asked is Clear ==> c.kind == ControlKind::Button && c.text@ == "Clear"@
            &&& asked is Save ==> c.kind == ControlKind::Button && c.text@ == "Save"@
            &&& asked is SelectBind <==> c.kind == ControlKind::DropDown && code == 1
            &&& c.kind == ControlKind::Button || c.kind == ControlKind::Check ==> !(asked is Nothing)
        }),
{
    assert(controls::all_controls().len() == 33);
}

/// The words on a page and its button are the name of the server and whether it is running.
pub proof fn law_labels(tab: Tab, running: bool)
    ensures
        controls::page_label(tab, running) == name_of(tab) + (if running {
            " (Running)"@
        } else {
            " (Stopped)"@
        }),
        controls::start_text(tab, running) == (if running {
            "Stop "@
        } else {
            "Start "@
        }) + name_of(tab),
        name_of(Tab::Ftp) == seq!['F', 'T', 'P'],
        name_of(Tab::Tftp) == seq!['T', 'F', 'T', 'P'],
        name_of(Tab::Http) == seq!['H', 'T', 'T', 'P'],
{
    reveal_strlit("FTP");
    reveal_strlit("TFTP");
    reveal_strlit("HTTP");
    reveal_strlit(" (Running)");
    reveal_strlit(" (Stopped)");
    reveal_strlit("FTP (Running)");
    reveal_strlit("FTP (Stopped)");
    reveal_strlit("TFTP (Running)");
    reveal_strlit("TFTP (Stopped)");
    reveal_strlit("HTTP (Running)");
    reveal_strlit("HTTP (Stopped)");
    reveal_strlit("Stop ");
    reveal_strlit("Start ");
    reveal_strlit("Stop FTP");
    reveal_strlit("Start FTP");
    reveal_strlit("Stop TFTP");
    reveal_strlit("Start TFTP");
    reveal_strlit("Stop HTTP");
    reveal_strlit("Start HTTP");
    assert(controls::page_label(tab, running) =~= name_of(tab) + (if running {
        " (Running)"@
    } else {
        " (Stopped)"@
    }));
    assert(controls::start_text(tab, running) =~= (if running {
        "Stop "@
    } else {
        "Start "@
    }) + name_of(tab));
    assert(name_of(Tab::Ftp) =~= seq!['F', 'T', 'P']);
    assert(name_of(Tab::Tftp) =~= seq!['T', 'F', 'T', 'P']);
    assert(name_of(Tab::Http) =~= seq!['H', 'T', 'T', 'P']);
}

/// A page is accepted exactly if its port is a number of 16 bits, with or without white space around
/// it, and its folder is named and there; the port is looked at first.
pub proof fn law_form(form: Form, front: Seq<char>, number: Seq<char>, back: Seq<char>)
    requires
        form.port@ == front + number + back,
        text::all_spaces(front),
        text::all_spaces(back),
        number.len() > 0,
        digits::all_digits(number),
    ensures
        digits::value(number) > 65535 ==> form.error() == Some(StartError::Port),
        digits::value(number) <= 65535 ==> {
            &&& form.port_number() is Some
            &&& form.port_number()->0 == digits::value(number)
            &&& form.root@.len() == 0 ==> form.error() == Some(StartError::NoFolder)
            &&& form.root@.len() > 0 && !form.root_is_dir ==> form.error() == Some(
                StartError::FolderMissing,
            )
            &&& form.root@.len() > 0 && form.root_is_dir ==> form.error() is None
        },
{
    assert(digits::is_digit(number[0]) && digits::is_digit(number[number.len() - 1]));
    text::law_trim(front, number, back);
    digits::law_number(number);
}

/// A port that is no number is refused.
pub proof fn law_form_needs_a_number(form: Form, front: Seq<char>, port: Seq<char>, back: Seq<char>)
    requires
        form.port@ == front + port + back,
        text::all_spaces(front),
        text::all_spaces(back),
        text::no_outer_spaces(port),
        port.len() == 0 || (port[0] != '+' && !digits::all_digits(port)),
    ensures
        form.error() == Some(StartError::Port),
{
    text::law_trim(front, port, back);
    digits::law_number(port);
}

/// A server listens on the address that is given, without the white space around it, and on all
/// interfaces if there is none.
pub proof fn law_host(front: Seq<char>, addr: Seq<char>, back: Seq<char>)
    requires
        text::all_spaces(front),
        text::all_spaces(back),
        text::no_outer_spaces(addr),
    ensures
        addr.len() > 0 ==> host(front + addr + back) == addr,
        addr.len() == 0 ==> host(front + addr + back) == "0.0.0.0"@,
{
    text::law_trim(front, addr, back);
}

/// The servers to stop are those that are running, each once, in the order of their pages.
pub proof fn law_to_stop(running: Running)
    ensures
        to_stop(running).no_duplicates(),
        to_stop(running).contains(Tab::Ftp) <==> running.ftp,
        to_stop(running).contains(Tab::Tftp) <==> running.tftp,
        to_stop(running).contains(Tab::Http) <==> running.http,
        running.ftp ==> to_stop(running)[0] == Tab::Ftp,
        running.http ==> to_stop(running).last() == Tab::Http,
{
    let all = seq![Tab::Ftp, Tab::Tftp, Tab::Http];
    let on = |tab: Tab| running.of(tab);
    reveal_with_fuel(Seq::filter, 4);
    assert(all.drop_last() =~= seq![Tab::Ftp, Tab::Tftp]);
    assert(all.drop_last().drop_last() =~= seq![Tab::Ftp]);
    assert(all.drop_last().drop_last().drop_last() =~= Seq::<Tab>::empty());
    let a = if running.ftp {
        seq![Tab::Ftp]
    } else {
        Seq::<Tab>::empty()
    };
    let b = if running.tftp {
        a.push(Tab::Tftp)
    } else {
        a
    };
    let c = if running.http {
        b.push(Tab::Http)
    } else {
        b
    };
    assert(to_stop(running) =~= c);
    assert(running.ftp ==> c[0] == Tab::Ftp);
    assert(running.tftp ==> c[a.len() as int] == Tab::Tftp);
    assert(running.http ==> c[b.len() as int] == Tab::Http);
}

/// Whether a line of a saved log holds the fields of an entry, with tabs between them.
pub open spec fn line_holds(line: Seq<char>, e: LogEntry) -> bool {
    let parts = text::split(line, '\t');
    &&& parts.len() == 8
    &&& parts[0] == e.timestamp@
    &&& parts[1] == e.kind@
    &&& parts[2] == e.server@
    &&& parts[3] == e.local_ip@
    &&& digits::writes(parts[4], e.local_port as nat)
    &&& parts[5] == e.remote_ip@
    &&& parts[6] == e.remote_port@
    &&& parts[7] == e.message@
}

/// Whether no field of an entry holds a tab or a line break.
pub open spec fn is_flat(e: LogEntry) -> bool {
    forall|i: int|
        #![trigger row(e)[i]]
        0 <= i < row(e).len() ==> !row(e)[i].contains('\t') && !row(e)[i].contains('\n')
}

/// A joined text holds what none of its pieces holds only as the separator.
proof fn lemma_join_without(parts: Seq<Seq<char>>, sep: char, c: char)
    requires
        sep != c,
        forall|i: int| 0 <= i < parts.len() ==> !(#[trigger] parts[i]).contains(c),
    ensures
        !text::join(parts, sep).contains(c),
    decreases parts.len(),
{
    if parts.len() > 0 {
        let front = parts.drop_last();
        assert forall|i: int| 0 <= i < front.len() implies !(#[trigger] front[i]).contains(c) by {
            assert(front[i] == parts[i]);
        }
        lemma_join_without(front, sep, c);
        assert(!parts[parts.len() - 1].contains(c));
        let all = text::join(parts, sep);
        if all.contains(c) && parts.len() > 1 {
            let k = all.index_of(c);
            let before = text::join(front, sep);
            if k < before.len() {
                assert(before[k] == c);
            } else if k > before.len() {
                assert(parts.last()[k - before.len() - 1] == c);
            }
        }
    }
}

/// A saved log has a line for the names of the columns and then a line for each entry, in order, which
/// holds its fields, as long as no field holds a tab or a line break.
pub proof fn law_saved_log_reads_back(log: Seq<LogEntry>, k: int)
    requires
        forall|i: int| 0 <= i < log.len() ==> is_flat(#[trigger] log[i]),
        0 <= k < log.len(),
    ensures
        ({
            let lines = text::split(table(log), '\n');
            &&& lines.len() == log.len() + 2
            &&& text::split(lines[0], '\t') == seq![
                "DateTime"@,
                "Type"@,
                "Server"@,
                "LocalIP"@,
                "LocalPort"@,
                "RemoteIP"@,
                "RemotePort"@,
                "Message"@,
            ]
            &&& line_holds(lines[k + 1], log[k])
            &&& lines[log.len() as int + 1].len() == 0
        }),
{
    lemma_table_lines(log);
    lemma_column_names();
    let t = table(log).drop_last();
    let none = Seq::<char>::empty();
    assert(table(log) =~= t.push('\n') + none);
    text::lemma_split_concat(t, none, '\n');
    text::lemma_split_whole(none, '\n');
    let e = log[k];
    assert(is_flat(e));
    assert forall|i: int| 0 <= i < row(e).len() implies !(#[trigger] row(e)[i]).contains('\t') by {}
    text::lemma_split_join(row(e), '\t');
    digits::law_decimal_writes(e.local_port as nat);
    text::lemma_split_join(column_names(), '\t');
}

/// The names of the columns hold no tab and no line break.
proof fn lemma_column_names()
    ensures
        forall|i: int|
            #![trigger column_names()[i]]
            0 <= i < column_names().len() ==> !column_names()[i].contains('\t')
                && !column_names()[i].contains('\n'),
{
    reveal_strlit("DateTime");
    reveal_strlit("Type");
    reveal_strlit("Server");
    reveal_strlit("LocalIP");
    reveal_strlit("LocalPort");
    reveal_strlit("RemoteIP");
    reveal_strlit("RemotePort");
    reveal_strlit("Message");
}

/// The lines of a saved log.
proof fn lemma_table_lines(log: Seq<LogEntry>)
    requires
        forall|i: int| 0 <= i < log.len() ==> is_flat(#[trigger] log[i]),
    ensures
        table(log).len() > 0,
        table(log).last() == '\n',
        ({
            let lines = text::split(table(log).drop_last(), '\n');
            &&& lines.len() == log.len() + 1
            &&& lines[0] == text::join(column_names(), '\t')
            &&& forall|i: int|
                0 <= i < log.len() ==> lines[i + 1] == text::join(row(#[trigger] log[i]), '\t')
        }),
    decreases log.len(),
{
    lemma_column_names();
    if log.len() == 0 {
        let line = text::join(column_names(), '\t');
        assert(table(log).drop_last() =~= line);
        lemma_join_without(column_names(), '\t', '\n');
        text::lemma_split_whole(line, '\n');
    } else {
        let front = log.drop_last();
        assert forall|i: int| 0 <= i < front.len() implies is_flat(#[trigger] front[i]) by {
            assert(front[i] == log[i]);
        }
        lemma_table_lines(front);
        let e = log[log.len() - 1];
        assert(is_flat(e));
        let before = table(front).drop_last();
        let line = text::join(row(e), '\t');
        assert(table(log).drop_last() =~= before.push('\n') + line);
        lemma_join_without(row(e), '\t', '\n');
        text::lemma_split_concat(before, line, '\n');
        text::lemma_split_whole(line, '\n');
        let lines = text::split(table(log).drop_last(), '\n');
        assert forall|i: int| 0 <= i < log.len() implies lines[i + 1] == text::join(
            row(#[trigger] log[i]),
            '\t',
        ) by {
            if i < front.len() {
                assert(front[i] == log[i]);
            }
        }
    }
}

/// The numbers in the port fields of a new window are those of the protocols.
pub proof fn law_usual_ports(i: int)
    requires
        0 <= i < controls::all_controls().len(),
        controls::all_controls()[i].kind == ControlKind::Edit,
        controls::all_controls()[i].text@.len() > 0,
    ensures
        ({
            let c = controls::all_controls()[i];
            &&& c.page == Some(Tab::Ftp) ==> digits::writes(c.text@, 21)
            &&& c.page == Some(Tab::Tftp) ==> digits::writes(c.text@, 69)
            &&& c.page == Some(Tab::Http) ==> digits::writes(c.text@, 80)
            &&& c.page is Some
        }),
{
    reveal_strlit("");
    reveal_strlit("21");
    reveal_strlit("69");
    reveal_strlit("80");
    let none = Seq::<char>::empty();
    assert("21"@ =~= none.push('2').push('1'));
    assert("69"@ =~= none.push('6').push('9'));
    assert("80"@ =~= none.push('8').push('0'));
    digits::law_place_value(none, '2');
    digits::law_place_value(none.push('2'), '1');
    digits::law_place_value(none, '6');
    digits::law_place_value(none.push('6'), '9');
    digits::law_place_value(none, '8');
    digits::law_place_value(none.push('8'), '0');
    assert(controls::all_controls().len() == 33);
}

/// Every entry that was not shown yet is shown, in order, and counts as shown from then on. After the
/// log has become shorter than what was shown, nothing is until it has grown again.
pub proof fn law_fresh_entries(log: Seq<LogEntry>, count: int, i: int)
    requires
        0 <= count,
    ensures
        count <= log.len() ==> fresh(log, count).len() == log.len() - count && shown(log, count)
            == log.len(),
        count <= i < log.len() ==> fresh(log, count)[i - count] == log[i],
        count > log.len() ==> fresh(log, count).len() == 0 && shown(log, count) == count,
{
}

} // verus!
