use tiny_servers::app::{
    address_checked, address_text, check_servers, columns, default_index, detect_all_ips,
    detect_default_ip, fields, get_adapter_addresses, log_table, non_empty, on_command, on_create,
    on_destroy, server_name, toggle_server, validate_root, AppState, Form, StartError, Toggle,
    UiCommand,
};
use tiny_servers::common::{access_entry, log_access, log_system, system_entry, LogEntry};
use tiny_servers::controls::{
    controls, enabled, on_ctlcolor_static, on_notify, on_size, start_button_text, tab_label, visible,
    ControlKind, Running, Tab, ID_COMBO_BIND, ID_FTP_PASS, ID_FTP_START, ID_HTTP_BROWSE, ID_LISTVIEW,
    ID_TAB_CTRL, ID_TFTP_PORT,
};
use tiny_servers::icon::{generate_icon, icon_mask, icon_pixels, is_letter_t};

fn running(ftp: bool, tftp: bool, http: bool) -> Running {
    Running { ftp, tftp, http }
}

fn state(bind: &str) -> AppState {
    AppState::new(
        vec![
            ("0.0.0.0".to_string(), "all".to_string()),
            ("10.0.0.1".to_string(), "ten".to_string()),
        ],
        bind.to_string(),
    )
}

fn form(port: &str, root: &str, root_is_dir: bool) -> Form {
    Form { port: port.to_string(), root: root.to_string(), root_is_dir }
}

fn entry(msg: &str) -> LogEntry {
    access_entry("2024-01-02 03:04:05".to_string(), "HTTP", "0.0.0.0", 80, "10.0.0.9", 5000, msg)
}

#[test]
fn offered_addresses() {
    let ips = detect_all_ips("10.0.0.1", &vec![[127, 0, 0, 1], [10, 0, 0, 1], [192, 168, 1, 20]]);
    let expected = [
        ("0.0.0.0", "0.0.0.0 (All interfaces)"),
        ("10.0.0.1", "10.0.0.1 (Default)"),
        ("127.0.0.1", "127.0.0.1 (Localhost)"),
        ("192.168.1.20", "192.168.1.20"),
    ];
    let found: Vec<(&str, &str)> = ips.iter().map(|(a, l)| (a.as_str(), l.as_str())).collect();
    assert_eq!(found, expected);
    assert_eq!(default_index(&ips, "10.0.0.1"), 1);
    assert_eq!(default_index(&ips, "1.2.3.4"), 0);
    assert_eq!(detect_all_ips("0.0.0.0", &vec![]).len(), 1);
}

#[test]
fn addresses_as_text() {
    assert_eq!(address_text([255, 0, 10, 1]), "255.0.10.1");
    assert_eq!(detect_default_ip(Some("10.1.1.1".to_string())), "10.1.1.1");
    assert_eq!(detect_default_ip(None), "0.0.0.0");
}

#[test]
fn adapters_are_listed_once() {
    assert_eq!(
        get_adapter_addresses(&vec![[1, 2, 3, 4], [1, 2, 3, 5], [1, 2, 3, 4]]),
        vec![[1, 2, 3, 4], [1, 2, 3, 5]]
    );
    assert_eq!(get_adapter_addresses(&vec![]), Vec::<[u8; 4]>::new());
}

#[test]
fn a_new_window() {
    let w = on_create("10.0.0.1", &vec![[127, 0, 0, 1]], "10.0.0.1".to_string());
    assert!(w.state.active_tab == Tab::Ftp);
    assert!(w.state.auto_scroll);
    assert_eq!(w.state.last_log_count, 0);
    assert_eq!(w.state.bind_addr, "10.0.0.1");
    assert_eq!(w.state.available_ips.len(), 3);
    assert_eq!(w.selected, 1);
    assert_eq!(w.controls.len(), 33);
}

#[test]
fn selecting_an_address() {
    let mut s = state("10.0.0.1");
    s.select_bind(0);
    assert_eq!(s.bind_addr, "0.0.0.0");
    s.select_bind(1);
    assert_eq!(s.bind_addr, "10.0.0.1");
    s.select_bind(2);
    s.select_bind(-1);
    assert_eq!(s.bind_addr, "10.0.0.1");
}

#[test]
fn pages_and_scrolling() {
    let mut s = state("x");
    s.show_tab(Tab::Http);
    assert!(s.active_tab == Tab::Http);
    assert_eq!(s.scroll_to(5), Some(4));
    assert_eq!(s.scroll_to(0), None);
    assert_eq!(s.scroll_to(-1), None);
    s.set_auto_scroll(false);
    assert_eq!(s.scroll_to(5), None);
}

#[test]
fn commands_of_the_controls() {
    for (wparam, command) in [
        (100 + (1 << 16), UiCommand::SelectBind),
        (100, UiCommand::Nothing),
        (100 + (2 << 16), UiCommand::Nothing),
        (201, UiCommand::Browse(Tab::Ftp)),
        (301, UiCommand::Browse(Tab::Tftp)),
        (401, UiCommand::Browse(Tab::Http)),
        (205, UiCommand::Toggle(Tab::Ftp)),
        (303, UiCommand::Toggle(Tab::Tftp)),
        (403 + (7 << 16), UiCommand::Toggle(Tab::Http)),
        (502, UiCommand::AutoScroll),
        (503, UiCommand::Clear),
        (505, UiCommand::Save),
        (504, UiCommand::Nothing),
        (0, UiCommand::Nothing),
    ] {
        assert_eq!(on_command(wparam), command);
    }
}

#[test]
fn fields_that_are_wrong() {
    let s = state("");
    assert_eq!(s.start_tftp(&form("x", "", false)).err(), Some(StartError::Port));
    assert_eq!(s.start_tftp(&form("65536", "/srv", true)).err(), Some(StartError::Port));
    assert_eq!(s.start_http(&form("80", "", true)).err(), Some(StartError::NoFolder));
    assert_eq!(s.start_http(&form("80", "/srv", false)).err(), Some(StartError::FolderMissing));
    assert_eq!(s.start_ftp(&form("", "/srv", true), "", "").err(), Some(StartError::Port));
    assert_eq!(StartError::Port.message(), "Invalid port number");
    assert_eq!(StartError::NoFolder.message(), "Please select a public folder");
    assert_eq!(StartError::FolderMissing.message(), "The specified folder does not exist");
    assert_eq!(StartError::BindAddress.message(), "Invalid bind address");
    assert_eq!(validate_root("/srv", true), None);
}

#[test]
fn setting_up_the_servers() {
    let s = state(" 10.0.0.1 ");
    let c = s.start_ftp(&form(" 2121 ", "/srv", true), "me", "").ok().unwrap();
    assert_eq!((c.root_dir.as_str(), c.port, c.bind_addr.as_str()), ("/srv", 2121, "10.0.0.1:2121"));
    assert_eq!((c.username.as_deref(), c.password.as_deref()), (Some("me"), None));
    assert_eq!(address_checked(c.clone(), false).err(), Some(StartError::BindAddress));
    assert_eq!(address_checked(c, true).ok().unwrap().bind_addr, "10.0.0.1:2121");
    let c = s.start_tftp(&form("69", "/srv", true)).ok().unwrap();
    assert_eq!((c.root_dir.as_str(), c.port, c.bind_addr.as_str()), ("/srv", 69, "10.0.0.1"));
    let c = state("  ").start_http(&form("80", "/srv", true)).ok().unwrap();
    assert_eq!((c.root_dir.as_str(), c.port, c.bind_addr.as_str()), ("/srv", 80, "0.0.0.0"));
    assert_eq!(non_empty(""), None);
    assert_eq!(non_empty(" "), Some(" ".to_string()));
}

#[test]
fn starting_and_stopping() {
    assert_eq!(toggle_server(Tab::Tftp, running(false, true, false)), Toggle::Stop);
    assert_eq!(toggle_server(Tab::Ftp, running(false, true, true)), Toggle::Start);
    assert_eq!(
        check_servers(running(true, true, false), running(true, false, false)),
        (running(true, false, false), true)
    );
    assert_eq!(
        check_servers(running(false, true, false), running(true, true, true)),
        (running(false, true, false), false)
    );
    assert_eq!(on_destroy(running(true, false, true)), vec![Tab::Ftp, Tab::Http]);
    assert_eq!(on_destroy(running(false, false, false)), vec![]);
    assert_eq!(server_name(Tab::Http), "HTTP");
}

#[test]
fn stopping_is_logged() {
    let s = state("10.0.0.1");
    let mut logs = vec![entry("a")];
    s.log_stop(&mut logs, Tab::Ftp, false, "21");
    assert_eq!(logs.len(), 1);
    s.log_stop(&mut logs, Tab::Ftp, true, " 21");
    s.log_stop(&mut logs, Tab::Tftp, true, "x");
    assert_eq!(logs.len(), 3);
    assert_eq!(fields(&logs[1])[1..], ["System", "FTP", "10.0.0.1", "21", "-", "-", "FTP Server stopped"]);
    assert_eq!(fields(&logs[2])[1..], ["System", "TFTP", "10.0.0.1", "0", "-", "-", "TFTP Server stopped"]);
}

#[test]
fn entries_of_the_log() {
    let e = system_entry("now".to_string(), "FTP", "0.0.0.0", 21, "Server started");
    assert_eq!(fields(&e), ["now", "System", "FTP", "0.0.0.0", "21", "-", "-", "FTP Server started"]);
    let e = access_entry("now".to_string(), "TFTP", "::", 69, "::1", 65535, "RRQ a");
    assert_eq!(fields(&e), ["now", "Access", "TFTP", "::", "69", "::1", "65535", "RRQ a"]);
}

#[test]
fn entries_carry_the_time() {
    let mut logs = Vec::new();
    let before = chrono::Local::now().format("%Y-%m-%d %H:%M:%S").to_string();
    log_system(&mut logs, "HTTP", "0.0.0.0", 80, "x");
    log_access(&mut logs, "HTTP", "0.0.0.0", 80, "1.2.3.4", 9, "y");
    let after = chrono::Local::now().format("%Y-%m-%d %H:%M:%S").to_string();
    assert_eq!(logs.len(), 2);
    for e in &logs {
        assert_eq!(e.timestamp.len(), 19);
        assert!(before <= e.timestamp && e.timestamp <= after);
    }
    assert_eq!(logs[0].message, "HTTP x");
    assert_eq!(logs[1].message, "y");
    assert_eq!(logs[1].remote_port, "9");
}

#[test]
fn every_entry_is_shown_once() {
    let mut s = state("x");
    let mut logs = vec![entry("1"), entry("2")];
    let rows = s.on_timer(&logs);
    assert_eq!(rows.len(), 2);
    assert_eq!(rows[0], fields(&logs[0]));
    assert!(s.on_timer(&logs).is_empty());
    logs.push(entry("3"));
    let rows = s.on_timer(&logs);
    assert_eq!(rows.len(), 1);
    assert_eq!(rows[0][7], "3");
    assert_eq!(s.last_log_count, 3);
    s.clear_log(&mut logs);
    assert!(logs.is_empty());
    assert_eq!(s.last_log_count, 0);
}

#[test]
fn a_saved_log() {
    let head = "DateTime\tType\tServer\tLocalIP\tLocalPort\tRemoteIP\tRemotePort\tMessage\n";
    assert_eq!(log_table(&vec![]), head);
    let table = log_table(&vec![entry("GET /"), entry("GET /a")]);
    let line = "2024-01-02 03:04:05\tAccess\tHTTP\t0.0.0.0\t80\t10.0.0.9\t5000\tGET /";
    assert_eq!(table, format!("{}{}\n{}a\n", head, line, line));
    let split: Vec<&str> = table.lines().nth(1).unwrap().split('\t').collect();
    assert_eq!(split, fields(&entry("GET /")));
    let columns: Vec<i32> = columns().iter().map(|c| c.width).collect();
    assert_eq!(columns, [130, 50, 50, 100, 60, 100, 70, 250]);
}

#[test]
fn controls_of_the_window() {
    let all = controls();
    for (i, a) in all.iter().enumerate() {
        for b in &all[i + 1..] {
            assert_ne!(a.id, b.id);
        }
        assert_eq!(a.page.is_some(), on_ctlcolor_static(a.id));
        let pages = [Tab::Ftp, Tab::Tftp, Tab::Http].iter().filter(|t| visible(a, **t)).count();
        assert_eq!(pages, if a.page.is_some() { 1 } else { 3 });
    }
    let start = all.iter().find(|c| c.id == ID_FTP_START).unwrap();
    assert_eq!(start.text, "Start FTP");
    assert_eq!((start.place.x, start.place.y, start.place.w, start.place.h), (110, 202, 200, 36));
    let pass = all.iter().find(|c| c.id == ID_FTP_PASS).unwrap();
    assert_eq!(pass.kind, ControlKind::Secret);
    assert!(!on_ctlcolor_static(199) && !on_ctlcolor_static(500));
}

#[test]
fn controls_of_running_servers() {
    let r = running(false, true, false);
    assert!(!enabled(ID_COMBO_BIND, r));
    assert!(!enabled(ID_TFTP_PORT, r));
    assert!(enabled(ID_FTP_PASS, r));
    assert!(enabled(ID_HTTP_BROWSE, r));
    assert!(enabled(ID_FTP_START, running(true, true, true)));
    assert!(enabled(ID_COMBO_BIND, running(false, false, false)));
    assert!(!enabled(ID_FTP_PASS, running(true, false, false)));
    assert!(!enabled(ID_HTTP_BROWSE, running(false, false, true)));
}

#[test]
fn labels() {
    assert_eq!(tab_label(Tab::Ftp, true), "FTP (Running)");
    assert_eq!(tab_label(Tab::Ftp, false), "FTP (Stopped)");
    assert_eq!(tab_label(Tab::Tftp, true), "TFTP (Running)");
    assert_eq!(tab_label(Tab::Http, false), "HTTP (Stopped)");
    assert_eq!(start_button_text(Tab::Ftp, true), "Stop FTP");
    assert_eq!(start_button_text(Tab::Tftp, false), "Start TFTP");
    assert_eq!(start_button_text(Tab::Http, true), "Stop HTTP");
    assert_eq!(on_notify(0), Some(Tab::Ftp));
    assert_eq!(on_notify(1), Some(Tab::Tftp));
    assert_eq!(on_notify(2), Some(Tab::Http));
    assert_eq!(on_notify(3), None);
    assert_eq!(on_notify(-1), None);
}

#[test]
fn resizing_the_window() {
    let moves = on_size(644, 541);
    assert_eq!(moves.len(), 8);
    assert_eq!(moves[0].id, ID_TAB_CTRL);
    assert_eq!((moves[0].place.x, moves[0].place.y, moves[0].place.w, moves[0].place.h), (10, 40, 624, 225));
    assert_eq!(moves[1].id, ID_LISTVIEW);
    assert_eq!((moves[1].place.x, moves[1].place.y, moves[1].place.w, moves[1].place.h), (10, 296, 624, 235));
    assert_eq!((moves[2].id, moves[2].place.w), (200, 434));
    assert_eq!((moves[3].id, moves[3].place.x, moves[3].place.w), (201, 549, 75));
    assert_eq!(on_size(310, 306).len(), 1);
    assert_eq!(on_size(311, 307).len(), 8);
}

#[test]
fn the_picture_of_the_icon() {
    let pixels = icon_pixels();
    assert_eq!(pixels.len(), 4096);
    // The bottom left corner comes first, and the middle of the bar stands near the top.
    assert_eq!(pixels[..4], [0xd2, 0x76, 0x19, 0xff]);
    let at = ((31 - 7) * 32 + 16) * 4;
    assert_eq!(pixels[at..at + 4], [0xff, 0xff, 0xff, 0xff]);
    let at = ((31 - 7) * 32 + 5) * 4;
    assert_eq!(pixels[at..at + 4], [0xd2, 0x76, 0x19, 0xff]);
    assert!(is_letter_t(6, 5) && is_letter_t(25, 9) && is_letter_t(13, 26) && is_letter_t(18, 26));
    assert!(!is_letter_t(5, 5) && !is_letter_t(12, 10) && !is_letter_t(16, 27) && !is_letter_t(16, 4));
    assert_eq!(icon_mask(), vec![0; 128]);
}

#[test]
fn the_file_of_the_icon() {
    let data = generate_icon();
    assert_eq!(data.len(), 6 + 16 + 40 + 4096 + 128);
    assert_eq!(data[..6], [0, 0, 1, 0, 1, 0]);
    assert_eq!(data[6..22], [32, 32, 0, 0, 1, 0, 32, 0, 0xa8, 0x10, 0, 0, 22, 0, 0, 0]);
    assert_eq!(data[22..38], [40, 0, 0, 0, 32, 0, 0, 0, 64, 0, 0, 0, 1, 0, 32, 0]);
    assert_eq!(data[38..62], [0; 24]);
    assert_eq!(data[62..62 + 4096], icon_pixels()[..]);
    assert_eq!(data[62 + 4096..], icon_mask()[..]);
}
