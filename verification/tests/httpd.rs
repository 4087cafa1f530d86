use tiny_servers::common::{CanonicalPath, Metadata, ParentFacts, PathFacts};
use tiny_servers::httpd::{
    build_forbidden, build_header, build_response, can_decode, choose_serving, content_type_for,
    extension_of_path, guess_content_type, html_escape, index_path, line_text, new_line,
    normalize_path,
    on_header, on_request_line, parse_request_line, resolve_path, route, route_decoded,
    serve_content, url_decode, FirstStep, HeaderStep, Input, Serving, Wanted,
};
use tiny_servers::lines::LineRead;
use tiny_servers::pages::{build_page, parent_of, serve_directory, sort_entries, FolderEntry};
use tiny_servers::paths::Platform;

fn response(status: &str, kind: &str, body: &str) -> Vec<u8> {
    format!(
        "HTTP/1.1 {}\r\nContent-Type: {}\r\nContent-Length: {}\r\nConnection: close\r\n\r\n{}",
        status,
        kind,
        body.len(),
        body
    )
    .into_bytes()
}

fn canonical(parts: &[&str]) -> Option<CanonicalPath> {
    Some(CanonicalPath { parts: parts.iter().map(|p| p.as_bytes().to_vec()).collect() })
}

fn facts(is_dir: bool, is_file: bool, parts: &[&str]) -> PathFacts {
    PathFacts {
        meta: Some(Metadata { is_dir, is_file, len: 0 }),
        canonical: canonical(parts),
        parent: None,
    }
}

fn entry(name: &str, meta: Option<(bool, u64)>) -> FolderEntry {
    FolderEntry {
        key: name.as_bytes().to_vec(),
        name: name.to_string(),
        meta: meta.map(|(is_dir, len)| Metadata { is_dir, is_file: !is_dir, len }),
    }
}

#[test]
fn headers_and_responses() {
    assert_eq!(
        build_header(200, "OK", "text/css", 12),
        "HTTP/1.1 200 OK\r\nContent-Type: text/css\r\nContent-Length: 12\r\nConnection: close\r\n\r\n"
    );
    assert_eq!(
        build_response(404, "Not Found", "text/html", b"gone"),
        response("404 Not Found", "text/html", "gone")
    );
    assert_eq!(
        build_forbidden(),
        response("403 Forbidden", "text/html", "<h1>403 Forbidden</h1>")
    );
}

#[test]
fn head_is_the_header_of_get() {
    let get = serve_content("text/plain", b"body", false);
    let head = serve_content("text/plain", b"body", true);
    assert_eq!(get, response("200 OK", "text/plain", "body"));
    assert_eq!(get, [head.as_slice(), b"body"].concat());
}

#[test]
fn lines_keep_their_line_break() {
    assert_eq!(line_text(b"GET /\r".to_vec(), true), "GET /\r\n");
    assert_eq!(line_text(b"GET /".to_vec(), false), "GET /");
    assert_eq!(line_text(b"\xff".to_vec(), true), "\u{fffd}\n");
}

#[test]
fn the_limit_of_a_line() {
    let mut long = vec![b'x'; 9000];
    let mut b = new_line();
    assert!(matches!(b.feed(&long), (9000, LineRead::TooLong)));
    long.push(b'\n');
    match b.feed(&long) {
        (9001, LineRead::Line(line)) => assert_eq!(line.len(), 9000),
        _ => panic!("no line"),
    }
    assert!(matches!(b.feed(&long[..8192]), (8192, LineRead::More)));
    assert!(matches!(b.feed(b"x"), (1, LineRead::TooLong)));
}

#[test]
fn the_first_line() {
    assert!(matches!(on_request_line(Input::Line("x".to_string())), FirstStep::Headers(l) if l == "x"));
    assert!(matches!(on_request_line(Input::End), FirstStep::Close));
    match on_request_line(Input::Failed) {
        FirstStep::Respond(b) => assert_eq!(b, response("414 URI Too Long", "text/plain", "URI Too Long")),
        _ => panic!("no response"),
    }
}

#[test]
fn header_lines() {
    assert!(matches!(on_header(&Input::Line("Host: x\r\n".to_string())), HeaderStep::More));
    assert!(matches!(on_header(&Input::Line(" \r\n".to_string())), HeaderStep::Over));
    assert!(matches!(on_header(&Input::End), HeaderStep::Over));
    match on_header(&Input::Failed) {
        HeaderStep::Respond(b) => assert_eq!(
            b,
            response("431 Request Header Fields Too Large", "text/plain", "Header too large")
        ),
        _ => panic!("no response"),
    }
}

#[test]
fn request_lines() {
    match parse_request_line("GET /a%20b?x HTTP/1.1\r\n") {
        Wanted::Path { raw_path, head_only } => {
            assert_eq!(raw_path, "/a%20b?x");
            assert!(!head_only);
        }
        _ => panic!("no path"),
    }
    match parse_request_line("  HEAD   /\r\n") {
        Wanted::Path { raw_path, head_only } => {
            assert_eq!(raw_path, "/");
            assert!(head_only);
        }
        _ => panic!("no path"),
    }
    match parse_request_line("GET\r\n") {
        Wanted::Nothing(b) => assert_eq!(b, response("400 Bad Request", "text/plain", "Bad Request")),
        _ => panic!("not refused"),
    }
    for line in ["POST / HTTP/1.1", "get / HTTP/1.1", "GETS /"] {
        match parse_request_line(line) {
            Wanted::Nothing(b) => assert_eq!(
                b,
                response("405 Method Not Allowed", "text/plain", "Method Not Allowed")
            ),
            _ => panic!("not refused"),
        }
    }
}

#[test]
fn decoding_paths() {
    assert_eq!(url_decode("/a%20b%2Fc?q=%41"), "/a b/c");
    assert_eq!(url_decode("/%e6%97%a5"), "/日");
    assert_eq!(url_decode("/%ff"), "/\u{fffd}");
    assert_eq!(url_decode("/100%"), "/100%");
    assert_eq!(url_decode("/100%4"), "/100%4");
    assert_eq!(url_decode("/%zz%41"), "/%zzA");
    assert_eq!(url_decode("/%+5"), "/\u{5}");
    assert_eq!(url_decode("/%-5%5-"), "/%-5%5-");
    assert_eq!(url_decode("/%%41"), "/%A");
    assert_eq!(url_decode("/日本?"), "/日本");
    assert_eq!(url_decode("?"), "");
}

#[test]
fn every_byte_can_be_escaped() {
    for b in 0..=127u8 {
        let c = (b as char).to_string();
        assert_eq!(url_decode(&format!("%{:02X}", b)), c);
        assert_eq!(url_decode(&format!("%{:02x}", b)), c);
    }
    let all: String = "/日本 é".bytes().map(|b| format!("%{:02X}", b)).collect();
    assert_eq!(url_decode(&all), "/日本 é");
    assert_eq!(url_decode("%e6%97%A5%E6%9c%aC"), "日本");
}

#[test]
fn paths_that_cannot_be_decoded() {
    assert!(can_decode("/%41日"));
    assert!(can_decode("/%é"));
    assert!(can_decode("/日%"));
    assert!(!can_decode("/%aé"));
    assert!(!can_decode("/%日"));
    assert!(can_decode("/x?%aé"));
}

#[test]
fn normal_forms() {
    for (path, normal) in [
        ("", "/"),
        ("/", "/"),
        ("a", "/a"),
        ("/a/./b//c/", "/a/b/c"),
        ("/a/../..", "/"),
        ("/a/b/../c", "/a/c"),
        ("\\a\\..\\b", "/b"),
        ("/...", "/..."),
    ] {
        assert_eq!(normalize_path(path), normal);
        assert_eq!(normalize_path(normal), normal);
    }
}

#[test]
fn normal_forms_go_on() {
    for (a, b) in [("", ""), ("/a/../b", "c"), ("..", "../d"), ("x\\y", "/z"), ("a/", "..\\..")] {
        let on = normalize_path(&format!("{}/{}", normalize_path(a), b));
        assert_eq!(on, normalize_path(&format!("{}/{}", a, b)));
    }
}

#[test]
fn paths_below_the_root() {
    assert_eq!(resolve_path("/", Platform::Windows), Some(String::new()));
    assert_eq!(resolve_path("/a/b", Platform::Windows), Some("a/b".to_string()));
    assert_eq!(resolve_path("/c:/x", Platform::Windows), None);
    assert_eq!(resolve_path("/Z:", Platform::Windows), None);
    assert_eq!(resolve_path("/1:", Platform::Windows), Some("1:".to_string()));
    assert_eq!(resolve_path("/a/../b", Platform::Windows), None);
}

#[test]
fn routes() {
    let r = route("/x/../a%20b?c", false, Platform::Windows);
    assert_eq!(r.log, "GET /a b");
    assert_eq!(r.clean, "/a b");
    assert_eq!(r.rel, Some("a b".to_string()));
    let r = route("/", true, Platform::Windows);
    assert_eq!(r.log, "HEAD /");
    assert_eq!(r.rel, Some(String::new()));
    let r = route_decoded("C:\\Windows", false, Platform::Windows);
    assert_eq!(r.clean, "/C:/Windows");
    assert_eq!(r.rel, None);
    let r = route_decoded("C:\\Windows", false, Platform::Other);
    assert_eq!(r.rel, Some("C:/Windows".to_string()));
}

#[test]
fn what_is_served() {
    let root = canonical(&["/", "srv"]);
    match choose_serving("a.PNG", "", &root, &facts(false, true, &["/", "srv", "a.PNG"]), false, Platform::Other) {
        Serving::File(path, kind) => assert_eq!((path.as_str(), kind), ("a.PNG", "image/png")),
        _ => panic!("no file"),
    }
    match choose_serving("d", "", &root, &facts(true, false, &["/", "srv", "d"]), true, Platform::Other) {
        Serving::File(path, kind) => {
            assert_eq!((path.as_str(), kind), ("d/index.html", "text/html; charset=utf-8"))
        }
        _ => panic!("no file"),
    }
    assert!(matches!(
        choose_serving("d", "", &root, &facts(true, false, &["/", "srv", "d"]), false, Platform::Other),
        Serving::Folder
    ));
    match choose_serving("d", "", &root, &facts(true, false, &["/", "else"]), true, Platform::Other) {
        Serving::Respond(b) => assert_eq!(b, build_forbidden()),
        _ => panic!("not refused"),
    }
    let missing = PathFacts {
        meta: None,
        canonical: None,
        parent: Some(ParentFacts { exists: true, is_dir: true, canonical: canonical(&["/", "srv"]) }),
    };
    match choose_serving("x", "", &root, &missing, false, Platform::Other) {
        Serving::Respond(b) => {
            assert_eq!(b, response("404 Not Found", "text/html", "<h1>404 Not Found</h1>"))
        }
        _ => panic!("not refused"),
    }
    match choose_serving("", "css", &root, &facts(false, true, &["/", "srv"]), false, Platform::Other) {
        Serving::File(path, kind) => assert_eq!((path.as_str(), kind), ("", "text/css")),
        _ => panic!("no file"),
    }
}

#[test]
fn index_pages() {
    assert_eq!(index_path(""), "index.html");
    assert_eq!(index_path("a/b"), "a/b/index.html");
}

#[test]
fn extensions() {
    for (path, ext) in [
        ("a.txt", "txt"),
        ("d.x/a", ""),
        ("a/.hidden", ""),
        ("a/.hidden.JS", "JS"),
        ("a.", ""),
        ("a..b", "b"),
        ("..", ""),
        ("", ""),
        ("a.css/", "css"),
        ("a.css/.", "css"),
    ] {
        assert_eq!(extension_of_path(path, Platform::Windows), ext, "{:?}", path);
        assert_eq!(extension_of_path(path, Platform::Other), ext, "{:?}", path);
    }
    for (path, windows, other) in [
        ("C:.html", "", "html"),
        ("C:a.html", "html", "html"),
        ("C:", "", ""),
        ("x.y\\.html", "", "html"),
        ("x.d\\y", "", "d\\y"),
        ("\\x.js", "js", "js"),
    ] {
        assert_eq!(extension_of_path(path, Platform::Windows), windows, "{:?}", path);
        assert_eq!(extension_of_path(path, Platform::Other), other, "{:?}", path);
    }
}

#[test]
fn extensions_agree_with_those_of_paths_here() {
    let here = if std::path::MAIN_SEPARATOR == '\\' { Platform::Windows } else { Platform::Other };
    for path in ["a.txt", "a/b.c/d", ".x", "..x", "a..", "a.b.", "/", "a/..", "a/.", "C:.html", "x.y\\.z", "é.日"] {
        let expected = std::path::Path::new(path).extension().and_then(|e| e.to_str()).unwrap_or("");
        assert_eq!(extension_of_path(path, here), expected, "{:?}", path);
    }
}

#[test]
fn content_types() {
    for (ext, kind) in [
        ("html", "text/html; charset=utf-8"),
        ("htm", "text/html; charset=utf-8"),
        ("css", "text/css"),
        ("js", "application/javascript"),
        ("json", "application/json"),
        ("txt", "text/plain; charset=utf-8"),
        ("log", "text/plain; charset=utf-8"),
        ("md", "text/plain; charset=utf-8"),
        ("xml", "application/xml"),
        ("png", "image/png"),
        ("jpg", "image/jpeg"),
        ("jpeg", "image/jpeg"),
        ("gif", "image/gif"),
        ("svg", "image/svg+xml"),
        ("ico", "image/x-icon"),
        ("pdf", "application/pdf"),
        ("zip", "application/zip"),
        ("woff", "font/woff"),
        ("woff2", "font/woff2"),
        ("", "application/octet-stream"),
        ("exe", "application/octet-stream"),
        ("HTML", "application/octet-stream"),
    ] {
        assert_eq!(content_type_for(ext), kind);
    }
    assert_eq!(guess_content_type("x/INDEX.Html", Platform::Other), "text/html; charset=utf-8");
    // The Kelvin sign has a small k for its lower-case form.
    assert_eq!(guess_content_type("x.\u{212a}", Platform::Other), "application/octet-stream");
}

#[test]
fn escaping_text() {
    assert_eq!(html_escape("a<b>&\"c'd"), "a&lt;b&gt;&amp;&quot;c&#x27;d");
    assert_eq!(html_escape("日本"), "日本");
    assert_eq!(html_escape(""), "");
}

#[test]
fn entries_by_name() {
    let sorted = sort_entries(vec![
        entry("b", Some((false, 1))),
        entry("ab", None),
        entry("B", None),
        entry("a", None),
        entry("b", Some((false, 2))),
    ]);
    let names: Vec<&str> = sorted.iter().map(|e| e.name.as_str()).collect();
    assert_eq!(names, ["B", "a", "ab", "b", "b"]);
    assert_eq!(sorted[3].meta.as_ref().map(|m| m.len), Some(1));
    assert_eq!(sorted[4].meta.as_ref().map(|m| m.len), Some(2));
}

#[test]
fn parents_of_paths() {
    assert_eq!(parent_of("/a"), "/");
    assert_eq!(parent_of("/a/b"), "/a");
    assert_eq!(parent_of("/a/b/c"), "/a/b");
}

#[test]
fn a_folder_page() {
    let page = build_page(
        "/a&b",
        vec![entry("z.txt", Some((false, 2048))), entry("dir", Some((true, 4096))), entry("<x>", None)],
    );
    let expected = "<!DOCTYPE html><html><head><meta charset=\"utf-8\">\
         <title>Index of /a&amp;b</title>\
         <style>body{font-family:sans-serif;margin:20px}a{text-decoration:none;color:#1565C0}\
         a:hover{text-decoration:underline}table{border-collapse:collapse}\
         td{padding:4px 16px}</style></head>\
         <body><h2>Index of /a&amp;b</h2><hr><table>\
         <tr><td><a href=\"/\">../</a></td><td></td></tr>\
         <tr><td><a href=\"/a&amp;b/&lt;x&gt;\">&lt;x&gt;</a></td><td align=\"right\"></td></tr>\
         <tr><td><a href=\"/a&amp;b/dir/\">dir/</a></td><td align=\"right\">-</td></tr>\
         <tr><td><a href=\"/a&amp;b/z.txt\">z.txt</a></td><td align=\"right\">2.0 KB</td></tr>\
         </table><hr></body></html>";
    assert_eq!(page, expected);
}

#[test]
fn the_page_of_the_top_folder() {
    let page = build_page("/", vec![entry("a", Some((false, 0)))]);
    assert!(page.contains("<table><tr><td><a href=\"/a\">a</a></td><td align=\"right\">0 B</td></tr></table>"));
    assert_eq!(normalize_path("/dir/"), "/dir");
}

#[test]
fn serving_a_folder() {
    let get = serve_directory("/", Some(vec![]), false);
    let body = build_page("/", vec![]);
    assert_eq!(get, response("200 OK", "text/html; charset=utf-8", &body));
    assert_eq!(serve_directory("/", None, false), get);
    let head = serve_directory("/", None, true);
    assert_eq!(get, [head.as_slice(), body.as_bytes()].concat());
}
