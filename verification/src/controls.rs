//! The controls of the window: where they stand, which page shows them, and when they can be used.

use vstd::prelude::*;

verus! {

/// The pages of the window, one for each server.
#[derive(Clone, Copy, Debug, PartialEq, Eq, Structural)]
pub enum Tab {
    Ftp,
    Tftp,
    Http,
}

/// Which servers are running.
#[derive(Clone, Copy, Debug, PartialEq, Eq, Structural)]
pub struct Running {
    pub ftp: bool,
    pub tftp: bool,
    pub http: bool,
}

impl Running {
    pub open spec fn of(self, tab: Tab) -> bool {
        match tab {
            Tab::Ftp => self.ftp,
            Tab::Tftp => self.tftp,
            Tab::Http => self.http,
        }
    }

    /// Whether the server of a page is running.
    pub fn get(self, tab: Tab) -> (r: bool)
        ensures
            r == self.of(tab),
    {
        match tab {
            Tab::Ftp => self.ftp,
            Tab::Tftp => self.tftp,
            Tab::Http => self.http,
        }
    }
}

/// The kinds of controls.
#[derive(Clone, Copy, Debug, PartialEq, Eq, Structural)]
pub enum ControlKind {
    /// Text, to the right.
    Label,
    /// Text, to the left.
    Title,
    /// Text, in the middle.
    Message,
    /// A line of text to edit.
    Edit,
    /// A line of text to edit that is not shown.
    Secret,
    Button,
    Check,
    DropDown,
    Pages,
    List,
}

/// A place in the window.
#[derive(Clone, Copy, Debug, PartialEq, Eq, Structural)]
pub struct Place {
    pub x: i32,
    pub y: i32,
    pub w: i32,
    pub h: i32,
}

/// A control: the page that shows it (all pages, if there is none), and whether it has the font of
/// the program.
#[derive(Clone, Copy, Debug)]
pub struct Control {
    pub kind: ControlKind,
    pub id: i32,
    pub text: &'static str,
    pub place: Place,
    pub page: Option<Tab>,
    pub font: bool,
}

pub const ID_COMBO_BIND: i32 = 100;

pub const ID_TAB_CTRL: i32 = 101;

pub const ID_FTP_ROOT: i32 = 200;

pub const ID_FTP_BROWSE: i32 = 201;

pub const ID_FTP_PORT: i32 = 202;

pub const ID_FTP_USER: i32 = 203;

pub const ID_FTP_PASS: i32 = 204;

pub const ID_FTP_START: i32 = 205;

pub const ID_FTP_ERROR: i32 = 210;

pub const ID_TFTP_ROOT: i32 = 300;

pub const ID_TFTP_BROWSE: i32 = 301;

pub const ID_TFTP_PORT: i32 = 302;

pub const ID_TFTP_START: i32 = 303;

pub const ID_TFTP_ERROR: i32 = 306;

pub const ID_HTTP_ROOT: i32 = 400;

pub const ID_HTTP_BROWSE: i32 = 401;

pub const ID_HTTP_PORT: i32 = 402;

pub const ID_HTTP_START: i32 = 403;

pub const ID_HTTP_ERROR: i32 = 406;

pub const ID_CHECK_SCROLL: i32 = 502;

pub const ID_BTN_CLEAR: i32 = 503;

pub const ID_LISTVIEW: i32 = 504;

pub const ID_BTN_SAVE: i32 = 505;

/// The smallest width and height of the window.
pub const MIN_SIZE: (i32, i32) = (520, 440);

/// The width and height of a new window.
pub const START_SIZE: (i32, i32) = (660, 580);

/// The number of the timer that makes the window look at the log.
pub const TIMER_LOG_UPDATE: usize = 1;

/// The milliseconds between two looks at the log.
pub const LOG_INTERVAL: u32 = 200;

/// A control that every page shows.
pub open spec fn shared(kind: ControlKind, id: i32, text: &'static str, place: Place, font: bool) -> Control {
    Control { kind, id, text, place, page: None, font }
}

/// A control that one page shows.
pub open spec fn paged(kind: ControlKind, id: i32, text: &'static str, place: Place, page: Tab) -> Control {
    Control { kind, id, text, place, page: Some(page), font: true }
}

/// The place at (`x`, `y`) with the width `w` and the height `h`.
pub open spec fn place(x: i32, y: i32, w: i32, h: i32) -> Place {
    Place { x, y, w, h }
}

/// The controls above the pages.
pub open spec fn top_controls() -> Seq<Control> {
    seq![
        shared(ControlKind::Label, 500, "Bind Address:", place(10, 13, 90, 20), false),
        shared(ControlKind::DropDown, ID_COMBO_BIND, "", place(105, 10, 300, 200), true),
        shared(ControlKind::Pages, ID_TAB_CTRL, "", place(10, 40, 630, 225), true),
    ]
}

/// The controls of the FTP page.
pub open spec fn ftp_controls() -> Seq<Control> {
    seq![
        paged(ControlKind::Label, 206, "Public Folder:", place(20, 83, 85, 20), Tab::Ftp),
        paged(ControlKind::Edit, ID_FTP_ROOT, "", place(110, 80, 300, 22), Tab::Ftp),
        paged(ControlKind::Button, ID_FTP_BROWSE, "Browse...", place(415, 80, 75, 22), Tab::Ftp),
        paged(ControlKind::Label, 207, "Port:", place(20, 113, 85, 20), Tab::Ftp),
        paged(ControlKind::Edit, ID_FTP_PORT, "21", place(110, 110, 80, 22), Tab::Ftp),
        paged(ControlKind::Label, 208, "Username:", place(20, 143, 85, 20), Tab::Ftp),
        paged(ControlKind::Edit, ID_FTP_USER, "", place(110, 140, 160, 22), Tab::Ftp),
        paged(ControlKind::Label, 209, "Password:", place(20, 173, 85, 20), Tab::Ftp),
        paged(ControlKind::Secret, ID_FTP_PASS, "", place(110, 170, 160, 22), Tab::Ftp),
        paged(ControlKind::Button, ID_FTP_START, "Start FTP", place(110, 202, 200, 36), Tab::Ftp),
        paged(ControlKind::Message, ID_FTP_ERROR, "", place(20, 242, 470, 18), Tab::Ftp),
    ]
}

/// The controls of the TFTP page.
pub open spec fn tftp_controls() -> Seq<Control> {
    seq![
        paged(ControlKind::Label, 304, "Public Folder:", place(20, 83, 85, 20), Tab::Tftp),
        paged(ControlKind::Edit, ID_TFTP_ROOT, "", place(110, 80, 300, 22), Tab::Tftp),
        paged(ControlKind::Button, ID_TFTP_BROWSE, "Browse...", place(415, 80, 75, 22), Tab::Tftp),
        paged(ControlKind::Label, 305, "Port:", place(20, 113, 85, 20), Tab::Tftp),
        paged(ControlKind::Edit, ID_TFTP_PORT, "69", place(110, 110, 80, 22), Tab::Tftp),
        paged(ControlKind::Button, ID_TFTP_START, "Start TFTP", place(110, 152, 200, 36), Tab::Tftp),
        paged(ControlKind::Message, ID_TFTP_ERROR, "", place(20, 192, 470, 18), Tab::Tftp),
    ]
}

/// The controls of the HTTP page.
pub open spec fn http_controls() -> Seq<Control> {
    seq![
        paged(ControlKind::Label, 404, "Public Folder:", place(20, 83, 85, 20), Tab::Http),
        paged(ControlKind::Edit, ID_HTTP_ROOT, "", place(110, 80, 300, 22), Tab::Http),
        paged(ControlKind::Button, ID_HTTP_BROWSE, "Browse...", place(415, 80, 75, 22), Tab::Http),
        paged(ControlKind::Label, 405, "Port:", place(20, 113, 85, 20), Tab::Http),
        paged(ControlKind::Edit, ID_HTTP_PORT, "80", place(110, 110, 80, 22), Tab::Http),
        paged(ControlKind::Button, ID_HTTP_START, "Start HTTP", place(110, 152, 200, 36), Tab::Http),
        paged(ControlKind::Message, ID_HTTP_ERROR, "", place(20, 192, 470, 18), Tab::Http),
    ]
}

/// The controls below the pages.
pub open spec fn log_controls() -> Seq<Control> {
    seq![
        shared(ControlKind::Title, 501, "Access Log", place(10, 270, 80, 20), false),
        shared(ControlKind::Check, ID_CHECK_SCROLL, "Auto-scroll", place(100, 270, 100, 20), true),
        shared(ControlKind::Button, ID_BTN_CLEAR, "Clear", place(210, 270, 60, 22), false),
        shared(ControlKind::Button, ID_BTN_SAVE, "Save", place(280, 270, 60, 22), true),
        shared(ControlKind::List, ID_LISTVIEW, "", place(10, 296, 620, 240), true),
    ]
}

/// All controls, in the order in which they are made.
pub open spec fn all_controls() -> Seq<Control> {
    top_controls() + ftp_controls() + tftp_controls() + http_controls() + log_controls()
}

fn push_shared(
    v: &mut Vec<Control>,
    kind: ControlKind,
    id: i32,
    text: &'static str,
    x: i32,
    y: i32,
    w: i32,
    h: i32,
    font: bool,
)
    ensures
        final(v)@ == old(v)@.push(shared(kind, id, text, place(x, y, w, h), font)),
{
    v.push(Control { kind, id, text, place: Place { x, y, w, h }, page: None, font });
}

fn push_paged(
    v: &mut Vec<Control>,
    kind: ControlKind,
    id: i32,
    text: &'static str,
    x: i32,
    y: i32,
    w: i32,
    h: i32,
    page: Tab,
)
    ensures
        final(v)@ == old(v)@.push(paged(kind, id, text, place(x, y, w, h), page)),
{
    v.push(Control { kind, id, text, place: Place { x, y, w, h }, page: Some(page), font: true });
}

/// All controls, in the order in which they are made.
pub fn controls() -> (v: Vec<Control>)
    ensures
        v@ == all_controls(),
{
    let mut v: Vec<Control> = Vec::new();
    push_shared(&mut v, ControlKind::Label, 500, "Bind Address:", 10, 13, 90, 20, false);
    push_shared(&mut v, ControlKind::DropDown, ID_COMBO_BIND, "", 105, 10, 300, 200, true);
    push_shared(&mut v, ControlKind::Pages, ID_TAB_CTRL, "", 10, 40, 630, 225, true);
    assert(v@ =~= top_controls());
    let ghost before = v@;
    let t: Tab = Tab::Ftp;
    push_paged(&mut v, ControlKind::Label, 206, "Public Folder:", 20, 83, 85, 20, t);
    push_paged(&mut v, ControlKind::Edit, ID_FTP_ROOT, "", 110, 80, 300, 22, t);
    push_paged(&mut v, ControlKind::Button, ID_FTP_BROWSE, "Browse...", 415, 80, 75, 22, t);
    push_paged(&mut v, ControlKind::Label, 207, "Port:", 20, 113, 85, 20, t);
    push_paged(&mut v, ControlKind::Edit, ID_FTP_PORT, "21", 110, 110, 80, 22, t);
    push_paged(&mut v, ControlKind::Label, 208, "Username:", 20, 143, 85, 20, t);
    push_paged(&mut v, ControlKind::Edit, ID_FTP_USER, "", 110, 140, 160, 22, t);
    push_paged(&mut v, ControlKind::Label, 209, "Password:", 20, 173, 85, 20, t);
    push_paged(&mut v, ControlKind::Secret, ID_FTP_PASS, "", 110, 170, 160, 22, t);
    push_paged(&mut v, ControlKind::Button, ID_FTP_START, "Start FTP", 110, 202, 200, 36, t);
    push_paged(&mut v, ControlKind::Message, ID_FTP_ERROR, "", 20, 242, 470, 18, t);
    assert(v@ =~= before + ftp_controls());
    let ghost before = v@;
    let t: Tab = Tab::Tftp;
    push_paged(&mut v, ControlKind::Label, 304, "Public Folder:", 20, 83, 85, 20, t);
    push_paged(&mut v, ControlKind::Edit, ID_TFTP_ROOT, "", 110, 80, 300, 22, t);
    push_paged(&mut v, ControlKind::Button, ID_TFTP_BROWSE, "Browse...", 415, 80, 75, 22, t);
    push_paged(&mut v, ControlKind::Label, 305, "Port:", 20, 113, 85, 20, t);
    push_paged(&mut v, ControlKind::Edit, ID_TFTP_PORT, "69", 110, 110, 80, 22, t);
    push_paged(&mut v, ControlKind::Button, ID_TFTP_START, "Start TFTP", 110, 152, 200, 36, t);
    push_paged(&mut v, ControlKind::Message, ID_TFTP_ERROR, "", 20, 192, 470, 18, t);
    assert(v@ =~= before + tftp_controls());
    let ghost before = v@;
    let t: Tab = Tab::Http;
    push_paged(&mut v, ControlKind::Label, 404, "Public Folder:", 20, 83, 85, 20, t);
    push_paged(&mut v, ControlKind::Edit, ID_HTTP_ROOT, "", 110, 80, 300, 22, t);
    push_paged(&mut v, ControlKind::Button, ID_HTTP_BROWSE, "Browse...", 415, 80, 75, 22, t);
    push_paged(&mut v, ControlKind::Label, 405, "Port:", 20, 113, 85, 20, t);
    push_paged(&mut v, ControlKind::Edit, ID_HTTP_PORT, "80", 110, 110, 80, 22, t);
    push_paged(&mut v, ControlKind::Button, ID_HTTP_START, "Start HTTP", 110, 152, 200, 36, t);
    push_paged(&mut v, ControlKind::Message, ID_HTTP_ERROR, "", 20, 192, 470, 18, t);
    assert(v@ =~= before + http_controls());
    let ghost before = v@;
    push_shared(&mut v, ControlKind::Title, 501, "Access Log", 10, 270, 80, 20, false);
    push_shared(&mut v, ControlKind::Check, ID_CHECK_SCROLL, "Auto-scroll", 100, 270, 100, 20, true);
    push_shared(&mut v, ControlKind::Button, ID_BTN_CLEAR, "Clear", 210, 270, 60, 22, false);
    push_shared(&mut v, ControlKind::Button, ID_BTN_SAVE, "Save", 280, 270, 60, 22, true);
    push_shared(&mut v, ControlKind::List, ID_LISTVIEW, "", 10, 296, 620, 240, true);
    assert(v@ =~= before + log_controls());
    v
}

/// Whether a control is shown while the page `tab` is.
pub open spec fn shown_on(control: Control, tab: Tab) -> bool {
    control.page matches Some(page) ==> page == tab
}

/// Whether a control is shown while the page `tab` is.
pub fn visible(control: &Control, tab: Tab) -> (r: bool)
    ensures
        r == shown_on(*control, tab),
{
    match control.page {
        Some(page) => page == tab,
        None => true,
    }
}

/// Whether a number is that of a control on a page, which is drawn on the background of the page.
pub open spec fn on_a_page(id: int) -> bool {
    200 <= id < 500
}

/// Whether a control is drawn on the background of a page.
pub fn on_ctlcolor_static(id: i32) -> (r: bool)
    ensures
        r == on_a_page(id as int),
{
    id >= 200 && id < 500
}

/// Whether the control with this number can be used: the settings of a server only while it is not
/// running, and the bind address only while no server is.
pub open spec fn usable(id: int, running: Running) -> bool {
    if id == ID_COMBO_BIND {
        !running.ftp && !running.tftp && !running.http
    } else if ID_FTP_ROOT <= id <= ID_FTP_PASS {
        !running.ftp
    } else if ID_TFTP_ROOT <= id <= ID_TFTP_PORT {
        !running.tftp
    } else if ID_HTTP_ROOT <= id <= ID_HTTP_PORT {
        !running.http
    } else {
        true
    }
}

/// Whether the control with this number can be used.
pub fn enabled(id: i32, running: Running) -> (r: bool)
    ensures
        r == usable(id as int, running),
{
    if id == ID_COMBO_BIND {
        !running.ftp && !running.tftp && !running.http
    } else if ID_FTP_ROOT <= id && id <= ID_FTP_PASS {
        !running.ftp
    } else if ID_TFTP_ROOT <= id && id <= ID_TFTP_PORT {
        !running.tftp
    } else if ID_HTTP_ROOT <= id && id <= ID_HTTP_PORT {
        !running.http
    } else {
        true
    }
}

/// The label of a page.
pub open spec fn page_label(tab: Tab, running: bool) -> Seq<char> {
    match (tab, running) {
        (Tab::Ftp, true) => "FTP (Running)"@,
        (Tab::Ftp, false) => "FTP (Stopped)"@,
        (Tab::Tftp, true) => "TFTP (Running)"@,
        (Tab::Tftp, false) => "TFTP (Stopped)"@,
        (Tab::Http, true) => "HTTP (Running)"@,
        (Tab::Http, false) => "HTTP (Stopped)"@,
    }
}

/// The label of a page.
pub fn tab_label(tab: Tab, running: bool) -> (s: &'static str)
    ensures
        s@ == page_label(tab, running),
{
    match (tab, running) {
        (Tab::Ftp, true) => "FTP (Running)",
        (Tab::Ftp, false) => "FTP (Stopped)",
        (Tab::Tftp, true) => "TFTP (Running)",
        (Tab::Tftp, false) => "TFTP (Stopped)",
        (Tab::Http, true) => "HTTP (Running)",
        (Tab::Http, false) => "HTTP (Stopped)",
    }
}

/// The text of the button that starts and stops a server.
pub open spec fn start_text(tab: Tab, running: bool) -> Seq<char> {
    match (tab, running) {
        (Tab::Ftp, true) => "Stop FTP"@,
        (Tab::Ftp, false) => "Start FTP"@,
        (Tab::Tftp, true) => "Stop TFTP"@,
        (Tab::Tftp, false) => "Start TFTP"@,
        (Tab::Http, true) => "Stop HTTP"@,
        (Tab::Http, false) => "Start HTTP"@,
    }
}

/// The text of the button that starts and stops a server.
pub fn start_button_text(tab: Tab, running: bool) -> (s: &'static str)
    ensures
        s@ == start_text(tab, running),
{
    match (tab, running) {
        (Tab::Ftp, true) => "Stop FTP",
        (Tab::Ftp, false) => "Start FTP",
        (Tab::Tftp, true) => "Stop TFTP",
        (Tab::Tftp, false) => "Start TFTP",
        (Tab::Http, true) => "Stop HTTP",
        (Tab::Http, false) => "Start HTTP",
    }
}

/// The page with this position, counted from 0.
pub fn on_notify(selected: isize) -> (r: Option<Tab>)
    ensures
        r == (if selected == 0 {
            Some(Tab::Ftp)
        } else if selected == 1 {
            Some(Tab::Tftp)
        } else if selected == 2 {
            Some(Tab::Http)
        } else {
            None
        }),
        r is Some <==> 0 <= selected < 3,
        r matches Some(tab) ==> (tab == Tab::Ftp <==> selected == 0) && (tab == Tab::Http <==> selected
            == 2),
{
    if selected == 0 {
        Some(Tab::Ftp)
    } else if selected == 1 {
        Some(Tab::Tftp)
    } else if selected == 2 {
        Some(Tab::Http)
    } else {
        None
    }
}

/// A control that is moved.
#[derive(Clone, Copy, Debug)]
pub struct Move {
    pub id: i32,
    pub place: Place,
}

/// The controls that are moved when the inside of the window is `w` wide and `h` high: the pages
/// take the width, the list takes what is left, and the folder fields of the pages leave room for
/// their buttons. What has no room stays where it is.
pub open spec fn moves(w: int, h: int) -> Seq<Move> {
    let edit = w - 210;
    seq![
        Move { id: ID_TAB_CTRL, place: place(10, 40, (w - 20) as i32, 225) },
    ] + (if h - 306 > 0 {
        seq![Move { id: ID_LISTVIEW, place: place(10, 296, (w - 20) as i32, (h - 306) as i32) }]
    } else {
        Seq::empty()
    }) + (if edit > 100 {
        seq![
            Move { id: ID_FTP_ROOT, place: place(110, 80, edit as i32, 22) },
            Move { id: ID_FTP_BROWSE, place: place((w - 95) as i32, 80, 75, 22) },
            Move { id: ID_TFTP_ROOT, place: place(110, 80, edit as i32, 22) },
            Move { id: ID_TFTP_BROWSE, place: place((w - 95) as i32, 80, 75, 22) },
            Move { id: ID_HTTP_ROOT, place: place(110, 80, edit as i32, 22) },
            Move { id: ID_HTTP_BROWSE, place: place((w - 95) as i32, 80, 75, 22) },
        ]
    } else {
        Seq::empty()
    })
}

fn push_move(v: &mut Vec<Move>, id: i32, x: i32, y: i32, w: i32, h: i32)
    ensures
        final(v)@ == old(v)@.push(Move { id, place: place(x, y, w, h) }),
{
    v.push(Move { id, place: Place { x, y, w, h } });
}

/// The controls that are moved when the inside of the window is `w` wide and `h` high.
pub fn on_size(w: u16, h: u16) -> (v: Vec<Move>)
    ensures
        v@ == moves(w as int, h as int),
{
    let w: i32 = w as i32;
    let h: i32 = h as i32;
    let margin: i32 = 10;
    let mut v: Vec<Move> = Vec::new();
    push_move(&mut v, ID_TAB_CTRL, margin, 40, w - margin * 2, 225);
    let list_top: i32 = 270 + 26;
    let list_h: i32 = h - list_top - margin;
    if list_h > 0 {
        push_move(&mut v, ID_LISTVIEW, margin, list_top, w - margin * 2, list_h);
    }
    let edit_x: i32 = 110;
    let browse_w: i32 = 75;
    let edit_w: i32 = w - edit_x - browse_w - margin * 2 - 5;
    if edit_w > 100 {
        let browse_x: i32 = edit_x + edit_w + 5;
        push_move(&mut v, ID_FTP_ROOT, edit_x, 80, edit_w, 22);
        push_move(&mut v, ID_FTP_BROWSE, browse_x, 80, browse_w, 22);
        push_move(&mut v, ID_TFTP_ROOT, edit_x, 80, edit_w, 22);
        push_move(&mut v, ID_TFTP_BROWSE, browse_x, 80, browse_w, 22);
        push_move(&mut v, ID_HTTP_ROOT, edit_x, 80, edit_w, 22);
        push_move(&mut v, ID_HTTP_BROWSE, browse_x, 80, browse_w, 22);
    }
    assert(v@ =~= moves(w as int, h as int));
    v
}

/// Whatever is moved has a positive width and height and ends inside the window, if the window is
/// wider than its margins.
pub proof fn law_moves_fit(w: int, h: int, i: int)
    requires
        20 < w <= 65535,
        0 <= h <= 65535,
        0 <= i < moves(w, h).len(),
    ensures
        ({
            let m = moves(w, h)[i];
            &&& m.place.w > 0 && m.place.h > 0
            &&& 0 <= m.place.x && m.place.x + m.place.w <= w
            &&& m.id == ID_LISTVIEW ==> m.place.y + m.place.h == h - 10
        }),
{
}

/// The controls that a page shows are those with its numbers, and no two controls have the same
/// number.
pub proof fn law_controls_are_told_apart(i: int, j: int)
    requires
        0 <= i < all_controls().len(),
        0 <= j < all_controls().len(),
    ensures
        i != j ==> all_controls()[i].id != all_controls()[j].id,
        all_controls()[i].page is Some <==> on_a_page(all_controls()[i].id as int),
        all_controls()[i].page == Some(Tab::Ftp) <==> 200 <= all_controls()[i].id < 300,
        all_controls()[i].page == Some(Tab::Tftp) <==> 300 <= all_controls()[i].id < 400,
        all_controls()[i].page == Some(Tab::Http) <==> 400 <= all_controls()[i].id < 500,
{
    assert(all_controls().len() == 33);
}

/// On a page nothing of another page is shown.
pub proof fn law_one_page_at_a_time(control: Control, a: Tab, b: Tab)
    requires
        shown_on(control, a),
        shown_on(control, b),
        a != b,
    ensures
        control.page is None,
{
}

/// What is moved keeps its margins: the pages and the list end as far from the right as they begin from
/// the left, the list ends as far above the bottom, and each folder field ends a little in front of its
/// button. The list is moved exactly if it has room, and the folder fields exactly if they are wider
/// than 100.
pub proof fn law_moves_keep_margins(w: int, h: int, i: int)
    requires
        0 <= w <= 65535,
        0 <= h <= 65535,
        0 <= i < moves(w, h).len(),
    ensures
        ({
            let m = moves(w, h)[i];
            let p = m.place;
            let field = m.id == ID_FTP_ROOT || m.id == ID_TFTP_ROOT || m.id == ID_HTTP_ROOT;
            let button = m.id == ID_FTP_BROWSE || m.id == ID_TFTP_BROWSE || m.id == ID_HTTP_BROWSE;
            &&& m.id == ID_TAB_CTRL || m.id == ID_LISTVIEW || field || button
            &&& m.id == ID_TAB_CTRL ==> p.x == 10 && p.x + p.w == w - 10 && p.y == 40 && p.h == 225
            &&& m.id == ID_LISTVIEW ==> p.x == 10 && p.x + p.w == w - 10 && p.y == 296 && p.y + p.h == h
                - 10 && p.h > 0
            &&& field ==> p.x == 110 && p.y == 80 && p.h == 22 && p.x + p.w + 5 == w - 95 && p.w > 100
            &&& button ==> p.x == w - 95 && p.y == 80 && p.w == 75 && p.h == 22
            &&& forall|j: int| 0 <= j < moves(w, h).len() && j != i ==> #[trigger] moves(w, h)[j].id
                != m.id
            &&& moves(w, h).len() == 1 + (if h > 306 {
                1int
            } else {
                0
            }) + (if w > 310 {
                6int
            } else {
                0
            })
        }),
{
}

/// The page of a server that is not running can be used as a whole; what belongs to no page can always
/// be used, but for the bind address, which can be used exactly while no server is running.
pub proof fn law_stopped_server_is_open(i: int, running: Running)
    requires
        0 <= i < all_controls().len(),
    ensures
        ({
            let c = all_controls()[i];
            &&& c.page == Some(Tab::Ftp) && !running.ftp ==> usable(c.id as int, running)
            &&& c.page == Some(Tab::Tftp) && !running.tftp ==> usable(c.id as int, running)
            &&& c.page == Some(Tab::Http) && !running.http ==> usable(c.id as int, running)
            &&& c.page is None && c.kind != ControlKind::DropDown ==> usable(c.id as int, running)
            &&& c.kind == ControlKind::DropDown ==> (usable(c.id as int, running) <==> !(running.ftp
                || running.tftp || running.http))
        }),
{
    assert(all_controls().len() == 33);
}

/// What is moved keeps the place that it was made with, except where it follows the size of the
/// window.
pub proof fn law_moves_start_from_places(w: int, h: int, i: int)
    requires
        0 <= w <= 65535,
        0 <= h <= 65535,
        0 <= i < moves(w, h).len(),
    ensures
        ({
            let m = moves(w, h)[i];
            exists|j: int|
                0 <= j < all_controls().len() && {
                    let c = #[trigger] all_controls()[j];
                    &&& c.id == m.id
                    &&& c.place.y == m.place.y
                    &&& c.kind != ControlKind::List ==> c.place.h == m.place.h
                    &&& c.kind == ControlKind::Button ==> c.place.w == m.place.w
                    &&& c.kind != ControlKind::Button ==> c.place.x == m.place.x
                }
        }),
{
    let m = moves(w, h)[i];
    let j = if m.id == ID_TAB_CTRL {
        2int
    } else if m.id == ID_LISTVIEW {
        32
    } else if m.id == ID_FTP_ROOT {
        4
    } else if m.id == ID_FTP_BROWSE {
        5
    } else if m.id == ID_TFTP_ROOT {
        15
    } else if m.id == ID_TFTP_BROWSE {
        16
    } else if m.id == ID_HTTP_ROOT {
        22
    } else {
        23
    };
    assert(all_controls()[j].id == m.id);
}

/// What a page shows lies inside the pages, and what every page shows lies outside them, but for the
/// pages themselves and for the list of addresses, which opens over them.
pub proof fn law_pages_hold_their_controls(i: int)
    requires
        0 <= i < all_controls().len(),
    ensures
        ({
            let c = all_controls()[i];
            let p = all_controls()[2].place;
            &&& all_controls()[2].kind == ControlKind::Pages
            &&& c.page is Some ==> p.x < c.place.x && p.y < c.place.y && c.place.x + c.place.w < p.x + p.w
                && c.place.y + c.place.h < p.y + p.h
            &&& c.page is None && c.kind != ControlKind::Pages && c.kind != ControlKind::DropDown
                ==> c.place.y + c.place.h <= p.y || p.y + p.h <= c.place.y
            &&& c.place.w > 0 && c.place.h > 0
        }),
{
    assert(all_controls().len() == 33);
}

/// No two controls that are shown together stand in the same place, but for the pages and what they
/// hold, and for the list of addresses, which opens over them.
#[verifier::rlimit(50)]
pub proof fn law_controls_do_not_overlap(i: int, j: int, tab: Tab)
    requires
        0 <= i < j < all_controls().len(),
        shown_on(all_controls()[i], tab),
        shown_on(all_controls()[j], tab),
        all_controls()[i].kind != ControlKind::Pages && all_controls()[j].kind != ControlKind::Pages,
        all_controls()[i].kind != ControlKind::DropDown && all_controls()[j].kind
            != ControlKind::DropDown,
    ensures
        ({
            let a = all_controls()[i].place;
            let b = all_controls()[j].place;
            a.x + a.w <= b.x || b.x + b.w <= a.x || a.y + a.h <= b.y || b.y + b.h <= a.y
        }),
{
    assert(all_controls().len() == 33);
}

/// A control is shown on its own page, or on every page if it belongs to none.
pub proof fn law_controls_are_shown(control: Control, tab: Tab)
    ensures
        control.page == Some(tab) ==> shown_on(control, tab),
        control.page is None ==> shown_on(control, tab),
        shown_on(control, tab) ==> control.page is None || control.page == Some(tab),
{
}

} // verus!
