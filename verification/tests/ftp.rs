use tiny_servers::common::{CanonicalPath, Metadata, ParentFacts, PathFacts};
use tiny_servers::ftp::{
    bytes_to_string, codepage_command, decode_system_codepage, display_line, new_command, opts_reply,
    parse_verb,
    split_line, strip_ls_flags, utf8_command, FtpAction, FtpSession, PathJob, PathOp, ServerConfig, Verb,
};
use tiny_servers::lines::LineRead;
use tiny_servers::paths::Platform;
use tiny_servers::transfer::{
    after_read, command_error, connect_failed, connected, disconnected, format_list_entry, list_finished, list_line,
    list_text, nlst_finished, nlst_text, passive_address, retr_finished, stor_finished, AfterRead,
    Command, ListEntry, ListMeta, Moved,
};

fn config(user: Option<&str>, pass: Option<&str>) -> ServerConfig {
    ServerConfig {
        root_dir: "/srv".to_string(),
        port: 21,
        bind_addr: "0.0.0.0:21".to_string(),
        username: user.map(|s| s.to_string()),
        password: pass.map(|s| s.to_string()),
    }
}

fn open_session() -> FtpSession {
    FtpSession::new(&config(None, None), Platform::Windows)
}

fn replied(s: &mut FtpSession, line: &str) -> String {
    match s.handle_command(line).1 {
        FtpAction::Reply(t) => t,
        _ => panic!("no reply to {}", line),
    }
}

fn asked(s: &mut FtpSession, line: &str) -> PathJob {
    match s.handle_command(line).1 {
        FtpAction::Inspect(job) => job,
        _ => panic!("no question for {}", line),
    }
}

fn canonical(parts: &[&str]) -> Option<CanonicalPath> {
    Some(CanonicalPath { parts: parts.iter().map(|p| p.as_bytes().to_vec()).collect() })
}

fn root() -> Option<CanonicalPath> {
    canonical(&["/", "srv"])
}

fn parent() -> Option<ParentFacts> {
    Some(ParentFacts { exists: true, is_dir: true, canonical: root() })
}

fn folder() -> PathFacts {
    PathFacts {
        meta: Some(Metadata { is_dir: true, is_file: false, len: 0 }),
        canonical: canonical(&["/", "srv", "d"]),
        parent: parent(),
    }
}

fn file() -> PathFacts {
    PathFacts {
        meta: Some(Metadata { is_dir: false, is_file: true, len: 1234 }),
        canonical: canonical(&["/", "srv", "f"]),
        parent: parent(),
    }
}

fn missing() -> PathFacts {
    PathFacts { meta: None, canonical: None, parent: parent() }
}

fn outside() -> PathFacts {
    PathFacts {
        meta: Some(Metadata { is_dir: true, is_file: true, len: 0 }),
        canonical: canonical(&["/", "etc"]),
        parent: parent(),
    }
}

fn seen(s: &mut FtpSession, line: &str, facts: &PathFacts) -> FtpAction {
    let job = asked(s, line);
    s.inspected(job, &root(), facts)
}

fn seen_reply(s: &mut FtpSession, line: &str, facts: &PathFacts) -> String {
    match seen(s, line, facts) {
        FtpAction::Reply(t) => t,
        _ => panic!("no reply to {}", line),
    }
}

#[test]
fn command_lines_as_text() {
    assert_eq!(utf8_command(b"USER x\r").as_deref(), Some("USER x"));
    assert_eq!(utf8_command(b"USER \xff"), None);
    assert_eq!(codepage_command(b"\x93\xfa \r", &Some(vec![0x65e5, 0x20, 0x0d])), "日");
    assert_eq!(codepage_command(b"a\xff\r", &None), "a\u{fffd}");
    assert_eq!(bytes_to_string("Größe".as_bytes(), &None), "Größe");
    // A code page is asked only for what is not UTF-8.
    assert_eq!(bytes_to_string(b"a", &Some(vec![0x42])), "a");
    assert_eq!(bytes_to_string(b"\x93\xfa", &Some(vec![0x65e5])), "日");
    assert_eq!(bytes_to_string(b"a\xff", &None), "a\u{fffd}");
    assert_eq!(decode_system_codepage("é".as_bytes(), &None), "é");
    assert_eq!(decode_system_codepage(b"\xff", &Some(vec![0xd800])), "\u{fffd}");
}

#[test]
fn the_limit_of_a_command_line() {
    let mut long = vec![b'x'; 4097];
    long.extend_from_slice(b"\nNOOP\r\n");
    let mut lines = new_command();
    assert!(matches!(lines.feed(&long), (4097, LineRead::More)));
    assert!(matches!(lines.feed(&long[4097..]), (1, LineRead::TooLong)));
    match lines.feed(&long[4098..]) {
        (6, LineRead::Line(line)) => assert_eq!(utf8_command(&line).as_deref(), Some("NOOP")),
        _ => panic!("no line"),
    }
}

#[test]
fn words_and_arguments() {
    assert_eq!(split_line("retr a b"), ("retr".to_string(), "a b".to_string()));
    assert_eq!(split_line("PWD"), ("PWD".to_string(), String::new()));
    assert_eq!(split_line(" x"), (String::new(), "x".to_string()));
    assert_eq!(split_line("A "), ("A".to_string(), String::new()));
}

#[test]
fn the_commands() {
    for (word, verb) in [
        ("USER", Verb::User),
        ("PASS", Verb::Pass),
        ("SYST", Verb::Syst),
        ("FEAT", Verb::Feat),
        ("OPTS", Verb::Opts),
        ("PWD", Verb::Pwd),
        ("XPWD", Verb::Pwd),
        ("CWD", Verb::Cwd),
        ("XCWD", Verb::Cwd),
        ("CDUP", Verb::Cdup),
        ("XCUP", Verb::Cdup),
        ("TYPE", Verb::Type),
        ("PASV", Verb::Pasv),
        ("EPSV", Verb::Epsv),
        ("LIST", Verb::List),
        ("NLST", Verb::Nlst),
        ("RETR", Verb::Retr),
        ("STOR", Verb::Stor),
        ("SIZE", Verb::Size),
        ("DELE", Verb::Dele),
        ("MKD", Verb::Mkd),
        ("XMKD", Verb::Mkd),
        ("RMD", Verb::Rmd),
        ("XRMD", Verb::Rmd),
        ("RNFR", Verb::Rnfr),
        ("RNTO", Verb::Rnto),
        ("NOOP", Verb::Noop),
        ("QUIT", Verb::Quit),
        ("MDTM", Verb::Unknown),
        ("", Verb::Unknown),
        ("user", Verb::Unknown),
    ] {
        assert!(parse_verb(word) == verb, "{}", word);
    }
}

#[test]
fn flags_of_listings() {
    for (args, rest) in [
        ("", ""),
        ("-la", ""),
        ("-la dir", "dir"),
        ("-l  -a  my dir", "my dir"),
        ("dir -la", "dir -la"),
        ("- x", "x"),
    ] {
        assert_eq!(strip_ls_flags(args), rest);
        assert_eq!(strip_ls_flags(rest), rest);
        assert!(args.ends_with(rest) && !rest.starts_with('-'));
    }
}

#[test]
fn the_greeting() {
    assert_eq!(FtpSession::greeting(), "220 Simple FTP Server ready\r\n");
}

#[test]
fn plain_replies() {
    let mut s = open_session();
    assert_eq!(replied(&mut s, "SYST"), "215 Windows_NT\r\n");
    assert_eq!(replied(&mut s, "feat"), "211-Features:\r\n PASV\r\n SIZE\r\n UTF8\r\n211 End\r\n");
    assert_eq!(replied(&mut s, "NOOP"), "200 OK\r\n");
    assert_eq!(replied(&mut s, "PWD"), "257 \"/\"\r\n");
    assert_eq!(replied(&mut s, "RNTO x"), "502 RNTO not fully implemented\r\n");
    assert_eq!(replied(&mut s, "site x"), "502 Command not implemented: SITE\r\n");
    assert_eq!(replied(&mut s, "ß"), "502 Command not implemented: SS\r\n");
    match s.handle_command("quit").1 {
        FtpAction::Close(t) => assert_eq!(t, "221 Goodbye\r\n"),
        _ => panic!("not closed"),
    }
}

#[test]
fn options() {
    let mut s = open_session();
    assert_eq!(replied(&mut s, "OPTS utf8 on"), "200 UTF8 mode enabled\r\n");
    assert_eq!(replied(&mut s, "OPTS MLST"), "501 Option not understood\r\n");
    assert_eq!(opts_reply("UTF8"), "200 UTF8 mode enabled\r\n");
    assert_eq!(opts_reply(" UTF8"), "501 Option not understood\r\n");
}

#[test]
fn transfer_types() {
    let mut s = open_session();
    assert_eq!(s.transfer_type, 'A');
    assert_eq!(replied(&mut s, "TYPE i"), "200 Type set to I\r\n");
    assert_eq!(s.transfer_type, 'I');
    assert_eq!(replied(&mut s, "TYPE L 8"), "504 Type not supported\r\n");
    assert_eq!(s.transfer_type, 'I');
    assert_eq!(replied(&mut s, "TYPE"), "200 Type set to A\r\n");
    assert_eq!(s.transfer_type, 'A');
}

#[test]
fn the_password_is_hidden_in_the_log() {
    let mut s = open_session();
    assert_eq!(s.handle_command("pass secret").0, "PASS ****");
    assert_eq!(s.handle_command("USER me").0, "USER me");
    assert_eq!(display_line("PASS", "PASS other"), "PASS ****");
}

#[test]
fn logging_in_without_a_name() {
    let mut s = open_session();
    assert!(s.require_auth());
    assert_eq!(replied(&mut s, "PASS x"), "503 Login with USER first\r\n");
    assert_eq!(replied(&mut s, "USER anyone"), "230 User logged in\r\n");
    assert_eq!(replied(&mut s, "PASS x"), "230 User logged in\r\n");
}

#[test]
fn logging_in_with_a_name() {
    let mut s = FtpSession::new(&config(Some("me"), None), Platform::Windows);
    assert!(!s.require_auth());
    assert_eq!(replied(&mut s, "USER you"), "530 Invalid username\r\n");
    assert!(!s.require_auth());
    assert_eq!(replied(&mut s, "USER  me "), "230 User logged in\r\n");
    assert!(s.require_auth());
}

#[test]
fn logging_in_with_a_password() {
    let mut s = FtpSession::new(&config(Some("me"), Some("pw")), Platform::Windows);
    assert_eq!(replied(&mut s, "PASS pw"), "503 Login with USER first\r\n");
    assert!(!s.require_auth());
    assert_eq!(replied(&mut s, "USER me"), "331 Password required\r\n");
    assert!(!s.require_auth());
    assert_eq!(replied(&mut s, "PASS no"), "530 Login incorrect\r\n");
    assert!(!s.require_auth());
    assert_eq!(replied(&mut s, "PASS pw"), "230 User logged in\r\n");
    assert!(s.require_auth());
    assert_eq!(replied(&mut s, "USER you"), "530 Invalid username\r\n");
    assert!(s.require_auth());
}

#[test]
fn nothing_before_the_login() {
    let mut s = FtpSession::new(&config(Some("me"), Some("pw")), Platform::Windows);
    for line in [
        "CWD /", "CDUP", "PASV", "EPSV", "LIST", "NLST", "RETR f", "STOR f", "SIZE f", "DELE f", "MKD d",
        "RMD d", "RNFR f",
    ] {
        assert_eq!(replied(&mut s, line), "530 Not logged in\r\n");
    }
    assert_eq!(s.current_dir, "/");
}

#[test]
fn paths_in_a_session() {
    let mut s = open_session();
    s.current_dir = "/a/b".to_string();
    assert_eq!(s.normalize_ftp_path("c"), "/a/b/c");
    assert_eq!(s.normalize_ftp_path("..\\d"), "/a/d");
    assert_eq!(s.normalize_ftp_path("/x/./y/"), "/x/y");
    assert_eq!(s.normalize_ftp_path("../../../.."), "/");
    assert_eq!(s.normalize_ftp_path(""), "/a/b");
    assert_eq!(s.resolve_path("c"), Some("a/b/c".to_string()));
    assert_eq!(s.resolve_path("/"), Some(String::new()));
    assert_eq!(s.resolve_path("/C:/x"), None);
    s.platform = Platform::Other;
    assert_eq!(s.resolve_path("/C:/x"), Some("C:/x".to_string()));
    s.platform = Platform::Windows;
    assert_eq!(replied(&mut s, "PWD"), "257 \"/a/b\"\r\n");
    assert_eq!(replied(&mut s, "RETR /c:x"), "550 Access denied\r\n");
}

#[test]
fn two_steps_are_one() {
    let mut s = open_session();
    for (a, b) in [("a", "b"), ("/x/y", "../z"), ("a/../..", "c")] {
        s.current_dir = "/d/e".to_string();
        let both = s.normalize_ftp_path(&format!("{}/{}", a, b));
        s.current_dir = s.normalize_ftp_path(a);
        assert_eq!(s.normalize_ftp_path(b), both);
    }
}

#[test]
fn changing_the_folder() {
    let mut s = open_session();
    assert_eq!(seen_reply(&mut s, "CWD d", &folder()), "250 Directory changed to /d\r\n");
    assert_eq!(s.current_dir, "/d");
    assert_eq!(seen_reply(&mut s, "CWD f", &file()), "550 Directory not found\r\n");
    assert_eq!(seen_reply(&mut s, "CWD x", &missing()), "550 Directory not found\r\n");
    assert_eq!(seen_reply(&mut s, "CWD x", &outside()), "550 Access denied\r\n");
    assert_eq!(s.current_dir, "/d");
    let job = asked(&mut s, "CDUP");
    assert!(job.op == PathOp::Cwd);
    assert_eq!(job.rel, "");
    match s.inspected(job, &root(), &folder()) {
        FtpAction::Reply(t) => assert_eq!(t, "250 Directory changed to /\r\n"),
        _ => panic!("no reply"),
    }
    assert_eq!(s.current_dir, "/");
}

#[test]
fn starting_transfers() {
    let mut s = open_session();
    match seen(&mut s, "LIST -la", &folder()) {
        FtpAction::Transfer(t, job, size) => {
            assert_eq!(t, "150 Opening data connection for directory listing\r\n");
            assert_eq!(job.rel, "");
            assert_eq!(size, 0);
        }
        _ => panic!("no transfer"),
    }
    match seen(&mut s, "NLST -a d", &folder()) {
        FtpAction::Transfer(t, job, _) => {
            assert_eq!(t, "150 Opening data connection\r\n");
            assert_eq!(job.rel, "d");
        }
        _ => panic!("no transfer"),
    }
    match seen(&mut s, "RETR  f ", &file()) {
        FtpAction::Transfer(t, job, size) => {
            assert_eq!(t, "150 Opening data connection for f (1234 bytes)\r\n");
            assert_eq!(job.arg, "f");
            assert_eq!(size, 1234);
        }
        _ => panic!("no transfer"),
    }
    match seen(&mut s, "STOR n", &missing()) {
        FtpAction::Transfer(t, job, _) => {
            assert_eq!(t, "150 Ready to receive data\r\n");
            assert!(job.op == PathOp::Stor);
        }
        _ => panic!("no transfer"),
    }
}

#[test]
fn transfers_that_are_refused() {
    let mut s = open_session();
    assert_eq!(seen_reply(&mut s, "LIST f", &file()), "550 Directory not found\r\n");
    assert_eq!(seen_reply(&mut s, "NLST f", &file()), "550 Directory not found\r\n");
    assert_eq!(seen_reply(&mut s, "RETR d", &folder()), "550 File not found\r\n");
    let mut odd = missing();
    odd.parent = Some(ParentFacts { exists: true, is_dir: false, canonical: root() });
    assert_eq!(seen_reply(&mut s, "STOR f/x", &odd), "550 Directory not found\r\n");
    let mut nowhere = missing();
    nowhere.parent = Some(ParentFacts { exists: false, is_dir: false, canonical: None });
    assert_eq!(seen_reply(&mut s, "STOR a/b/x", &nowhere), "550 Access denied\r\n");
    for line in ["LIST", "NLST", "RETR f", "STOR f", "SIZE f", "DELE f", "MKD d", "RMD d", "RNFR f"] {
        assert_eq!(seen_reply(&mut s, line, &outside()), "550 Access denied\r\n");
    }
}

#[test]
fn questions_about_files() {
    let mut s = open_session();
    assert_eq!(seen_reply(&mut s, "SIZE f", &file()), "213 1234\r\n");
    assert_eq!(seen_reply(&mut s, "SIZE d", &folder()), "550 File not found\r\n");
    assert_eq!(seen_reply(&mut s, "RNFR f", &file()), "350 Ready for RNTO\r\n");
    assert_eq!(seen_reply(&mut s, "RNFR x", &missing()), "550 File not found\r\n");
}

#[test]
fn changes_of_the_disk() {
    let mut s = open_session();
    assert_eq!(seen_reply(&mut s, "DELE d", &folder()), "550 File not found\r\n");
    assert_eq!(seen_reply(&mut s, "RMD f", &file()), "550 Directory not found\r\n");
    for (line, facts, done, log, failed) in [
        ("DELE f", file(), "250 File deleted\r\n", Some("DELE f"), "550 Cannot delete: no\r\n"),
        ("MKD d/../e", missing(), "257 \"/e\" created\r\n", None, "550 Cannot create directory: no\r\n"),
        ("RMD d", folder(), "250 Directory removed\r\n", None, "550 Cannot remove directory: no\r\n"),
    ] {
        let job = match seen(&mut s, line, &facts) {
            FtpAction::Change(job) => job,
            _ => panic!("no change"),
        };
        let ok = s.change_finished(&job, &None);
        assert_eq!(ok.reply, done);
        assert_eq!(ok.log.as_deref(), log);
        let bad = s.change_finished(&job, &Some("no".to_string()));
        assert_eq!(bad.reply, failed);
        assert_eq!(bad.log, None);
    }
}

#[test]
fn passive_mode() {
    let mut s = open_session();
    assert!(matches!(s.handle_command("PASV").1, FtpAction::ListenHere));
    let ip = passive_address(Some([192, 168, 0, 7]));
    assert_eq!(s.pasv_ready(ip, 50_001), "227 Entering Passive Mode (192,168,0,7,195,81)\r\n");
    assert!(s.data_listener);
    assert!(matches!(s.handle_command("epsv").1, FtpAction::ListenAnywhere));
    assert_eq!(s.epsv_ready(50_001), "229 Entering Extended Passive Mode (|||50001|)\r\n");
    assert_eq!(passive_address(None), [127, 0, 0, 1]);
}

#[test]
fn a_data_connection_is_used_once() {
    let mut s = open_session();
    s.epsv_ready(1);
    assert_eq!(s.accept_data(), None);
    assert_eq!(
        s.accept_data(),
        Some("425 Cannot open data connection: No data connection (use PASV first)\r\n".to_string())
    );
    assert_eq!(connect_failed("gone"), "425 Cannot open data connection: gone\r\n");
}

#[test]
fn how_transfers_end() {
    let done = "226 Transfer complete\r\n".to_string();
    assert_eq!(list_finished(&Ok(vec![])), (Some(String::new()), done.clone()));
    let refused = list_finished(&Err("no".to_string()));
    assert_eq!(refused, (None, "550 Cannot read directory: no\r\n".to_string()));
    assert_eq!(nlst_finished(&None), (String::new(), done.clone()));
    let one = vec![ListEntry { name: "a".to_string(), meta: None }];
    assert_eq!(nlst_finished(&Some(one)), ("a\r\n".to_string(), done));
    let r = retr_finished("f", 5, &Moved::All(4));
    assert_eq!((r.reply.as_str(), r.log.as_deref()), ("226 Transfer complete\r\n", Some("RETR f (5 bytes)")));
    let r = retr_finished("f", 5, &Moved::NotOpened("no".to_string()));
    assert_eq!((r.reply.as_str(), r.log.as_deref()), ("550 Cannot read file: no\r\n", None));
    let r = retr_finished("f", 5, &Moved::Broken("no".to_string()));
    assert_eq!((r.reply.as_str(), r.log.as_deref()), ("550 Transfer error: no\r\n", None));
    let r = stor_finished("f", &Moved::All(4));
    assert_eq!((r.reply.as_str(), r.log.as_deref()), ("226 Transfer complete\r\n", Some("STOR f (4 bytes)")));
    assert!(!r.discard);
    let r = stor_finished("f", &Moved::NotOpened("no".to_string()));
    assert_eq!((r.reply.as_str(), r.log.as_deref()), ("550 Cannot create file: no\r\n", None));
    assert!(!r.discard);
    let r = stor_finished("f", &Moved::Broken("no".to_string()));
    assert_eq!((r.reply.as_str(), r.log.as_deref()), ("550 Error receiving data: no\r\n", None));
    assert!(r.discard);
}

fn meta(is_dir: bool, readonly: bool, len: u64, modified: Option<i64>) -> ListMeta {
    ListMeta { is_dir, readonly, len, modified }
}

#[test]
fn lines_of_a_listing() {
    assert_eq!(
        list_line("d", &meta(true, true, 0, None), "Jan 01  2020"),
        "drwxr-xr-x 1 ftp ftp             0 Jan 01  2020 d"
    );
    assert_eq!(
        list_line("my file", &meta(false, true, 12345, None), "Jan 01 12:00"),
        "-r--r--r-- 1 ftp ftp         12345 Jan 01 12:00 my file"
    );
    assert_eq!(
        list_line("f", &meta(false, false, u64::MAX, None), "x"),
        "-rw-r--r-- 1 ftp ftp 18446744073709551615 x f"
    );
}

#[test]
fn the_date_of_an_old_file() {
    // The third of July 2001 at noon is the same day in every time zone but one or two.
    let line = format_list_entry("f", &meta(false, false, 1, Some(994_161_600)));
    let date = line.strip_prefix("-rw-r--r-- 1 ftp ftp             1 ").unwrap();
    let expected = chrono::DateTime::from_timestamp(994_161_600, 0)
        .unwrap()
        .with_timezone(&chrono::Local)
        .format("%b %d  %Y")
        .to_string();
    assert_eq!(date, format!("{} f", expected));
}

#[test]
fn the_date_of_a_new_file() {
    let line = format_list_entry("f", &meta(false, false, 1, None));
    let date = line.strip_prefix("-rw-r--r-- 1 ftp ftp             1 ").unwrap();
    assert_eq!(date.len(), "Jan 01 12:00 f".len());
    assert_eq!(date.as_bytes()[9], b':');
}

#[test]
fn whole_listings() {
    let entries = vec![
        ListEntry { name: "a".to_string(), meta: Some(meta(true, false, 0, Some(0))) },
        ListEntry { name: "lost".to_string(), meta: None },
        ListEntry { name: "b".to_string(), meta: Some(meta(false, false, 7, Some(0))) },
    ];
    let text = list_text(&entries);
    let lines: Vec<&str> = text.split("\r\n").collect();
    assert_eq!(lines.len(), 3);
    assert!(lines[0].starts_with("drwxr-xr-x 1 ftp ftp             0 ") && lines[0].ends_with(" a"));
    assert!(lines[1].starts_with("-rw-r--r-- 1 ftp ftp             7 ") && lines[1].ends_with(" b"));
    assert_eq!(lines[2], "");
    assert_eq!(nlst_text(&entries), "a\r\nlost\r\nb\r\n");
    assert_eq!(list_text(&vec![]), "");
}

#[test]
fn between_commands() {
    assert!(matches!(after_read(Command::Line("x".to_string())), AfterRead::Run(l) if l == "x"));
    assert!(matches!(after_read(Command::End), AfterRead::Stop(None)));
    assert!(matches!(after_read(Command::TooLong), AfterRead::Reply(t) if t == "500 Command line too long\r\n"));
    assert!(matches!(
        after_read(Command::Failed("reset".to_string())),
        AfterRead::Stop(Some(l)) if l == "Read error: reset"
    ));
    assert_eq!(command_error("QUIT"), "Error: QUIT");
    assert_eq!((connected(), disconnected()), ("Connected", "Disconnected"));
}
