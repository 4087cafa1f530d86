use tiny_servers::common::{CanonicalPath, Metadata, PathFacts};
use tiny_servers::exchange::{Exchange, HttpAction};
use tiny_servers::httpd::{build_forbidden, build_response, serve_content, Input};
use tiny_servers::pages::{serve_directory, FolderEntry};
use tiny_servers::paths::Platform;

fn line(s: &str) -> Input {
    Input::Line(s.to_string())
}

fn canonical(parts: &[&str]) -> Option<CanonicalPath> {
    Some(CanonicalPath { parts: parts.iter().map(|p| p.as_bytes().to_vec()).collect() })
}

fn facts(is_dir: bool, is_file: bool, parts: &[&str]) -> PathFacts {
    PathFacts {
        meta: Some(Metadata { is_dir, is_file, len: 0 }),
        canonical: canonical(parts),
        parent: None,
    }
}

fn look_at(request: &str) -> (Exchange, String, String) {
    let (mut e, action) = Exchange::new();
    assert!(matches!(action, HttpAction::ReadLine));
    assert!(matches!(e.on_line(line(request), Platform::Windows), HttpAction::ReadLine));
    assert!(matches!(e.on_line(line("Host: x\r\n"), Platform::Windows), HttpAction::ReadLine));
    assert!(e.can_take(&line("\r\n")));
    match e.on_line(line("\r\n"), Platform::Windows) {
        HttpAction::Look(log, rel) => (e, log, rel),
        _ => panic!("nothing to look at"),
    }
}

fn sent(action: HttpAction) -> Vec<u8> {
    match action {
        HttpAction::Send(None, bytes) => bytes,
        _ => panic!("nothing sent"),
    }
}

#[test]
fn a_file_is_served() {
    let (mut e, log, rel) = look_at("GET /d/../a.css?x HTTP/1.1\r\n");
    assert_eq!(log, "GET /a.css");
    assert_eq!(rel, "a.css");
    let root = canonical(&["/", "srv"]);
    match e.on_looked("", &root, &facts(false, true, &["/", "srv", "a.css"]), false, Platform::Windows) {
        HttpAction::ReadFile(path) => assert_eq!(path, "a.css"),
        _ => panic!("nothing to read"),
    }
    assert_eq!(sent(e.on_content(Some(b"p{}".to_vec()))), serve_content("text/css", b"p{}", false));
    assert!(matches!(e, Exchange::Over));
}

#[test]
fn the_header_of_an_index_page() {
    let (mut e, log, rel) = look_at("HEAD / HTTP/1.1\r\n");
    assert_eq!(log, "HEAD /");
    assert_eq!(rel, "");
    let root = canonical(&["/", "srv"]);
    match e.on_looked("", &root, &facts(true, false, &["/", "srv"]), true, Platform::Windows) {
        HttpAction::ReadFile(path) => assert_eq!(path, "index.html"),
        _ => panic!("nothing to read"),
    }
    assert_eq!(
        sent(e.on_content(Some(b"<p>".to_vec()))),
        serve_content("text/html; charset=utf-8", b"<p>", true)
    );
}

#[test]
fn a_folder_is_listed() {
    let (mut e, _, rel) = look_at("GET /d/ HTTP/1.1\r\n");
    assert_eq!(rel, "d");
    let root = canonical(&["/", "srv"]);
    let action = e.on_looked("", &root, &facts(true, false, &["/", "srv", "d"]), false, Platform::Windows);
    assert!(matches!(action, HttpAction::ReadFolder));
    let entry = || FolderEntry { key: b"x".to_vec(), name: "x".to_string(), meta: None };
    assert_eq!(
        sent(e.on_entries(Some(vec![entry()]))),
        serve_directory("/d", Some(vec![entry()]), false)
    );
}

#[test]
fn a_file_that_cannot_be_served() {
    let (mut e, _, _) = look_at("GET /a HTTP/1.1\r\n");
    let root = canonical(&["/", "srv"]);
    e.on_looked("", &root, &facts(false, true, &["/", "srv", "a"]), false, Platform::Windows);
    assert!(matches!(e.on_content(None), HttpAction::Close));
}

#[test]
fn links_out_of_the_root_are_forbidden() {
    let (mut e, _, _) = look_at("GET /a HTTP/1.1\r\n");
    let root = canonical(&["/", "srv"]);
    let action = e.on_looked("", &root, &facts(false, true, &["/", "etc", "a"]), false, Platform::Windows);
    assert_eq!(sent(action), build_forbidden());
    let (mut e, _, _) = look_at("GET /a HTTP/1.1\r\n");
    let action = e.on_looked("", &root, &facts(false, false, &["/", "srv", "a"]), false, Platform::Windows);
    assert_eq!(
        sent(action),
        build_response(404, "Not Found", "text/html", b"<h1>404 Not Found</h1>")
    );
}

#[test]
fn drives_are_logged_and_forbidden() {
    let (mut e, _) = Exchange::new();
    e.on_line(line("GET /c:/x HTTP/1.1\r\n"), Platform::Windows);
    match e.on_line(Input::End, Platform::Windows) {
        HttpAction::Send(Some(log), bytes) => {
            assert_eq!(log, "GET /c:/x");
            assert_eq!(bytes, build_forbidden());
        }
        _ => panic!("not refused"),
    }
}

#[test]
fn requests_that_are_refused() {
    let (mut e, _) = Exchange::new();
    assert!(matches!(e.on_line(Input::End, Platform::Windows), HttpAction::Close));
    let (mut e, _) = Exchange::new();
    assert_eq!(
        sent(e.on_line(Input::Failed, Platform::Windows)),
        build_response(414, "URI Too Long", "text/plain", b"URI Too Long")
    );
    let (mut e, _) = Exchange::new();
    e.on_line(line("POST / HTTP/1.1\r\n"), Platform::Windows);
    assert_eq!(
        sent(e.on_line(Input::Failed, Platform::Windows)),
        build_response(431, "Request Header Fields Too Large", "text/plain", b"Header too large")
    );
    for (request, status, text) in [
        ("POST / HTTP/1.1\r\n", 405, "Method Not Allowed"),
        ("\r\n", 400, "Bad Request"),
    ] {
        let (mut e, _) = Exchange::new();
        e.on_line(line(request), Platform::Windows);
        assert_eq!(
            sent(e.on_line(line("\r\n"), Platform::Windows)),
            build_response(status, text, "text/plain", text.as_bytes())
        );
        assert!(matches!(e, Exchange::Over));
    }
}

#[test]
fn lines_that_cannot_be_taken_in() {
    let (mut e, _) = Exchange::new();
    assert!(e.can_take(&line("GET /%a\u{e9} HTTP/1.1\r\n")));
    e.on_line(line("GET /%a\u{e9} HTTP/1.1\r\n"), Platform::Windows);
    assert!(e.can_take(&line("Host: x\r\n")));
    assert!(!e.can_take(&line("\r\n")));
    assert!(!e.can_take(&Input::End));
    assert!(e.can_take(&Input::Failed));
}
