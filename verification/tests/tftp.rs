use tiny_servers::common::{CanonicalPath, Metadata, ParentFacts, PathFacts};
use tiny_servers::paths::Platform;
use tiny_servers::tftp::{
    build_ack, build_data, build_error, handle_request, handle_rrq, handle_wrq,
    open_download, open_upload, parse_request, resolve_path, Download, DownloadStep, Opening,
    Request, Upload, UploadStep, MAX_FILE_SIZE,
};

fn root() -> Option<CanonicalPath> {
    Some(CanonicalPath { parts: vec![b"/".to_vec(), b"srv".to_vec()] })
}

fn path(parts: &[&str]) -> Option<CanonicalPath> {
    Some(CanonicalPath { parts: parts.iter().map(|p| p.as_bytes().to_vec()).collect() })
}

fn file_at(parts: &[&str]) -> PathFacts {
    PathFacts {
        meta: Some(Metadata { is_dir: false, is_file: true, len: 3 }),
        canonical: path(parts),
        parent: None,
    }
}

fn new_file_in(parts: &[&str]) -> PathFacts {
    PathFacts {
        meta: None,
        canonical: None,
        parent: Some(ParentFacts { exists: true, is_dir: true, canonical: path(parts) }),
    }
}

#[test]
fn ack_of_block() {
    assert_eq!(build_ack(0x1234), [0, 4, 0x12, 0x34]);
    assert_eq!(build_ack(0), [0, 4, 0, 0]);
}

#[test]
fn packets() {
    assert_eq!(build_data(258, b"xy"), vec![0, 3, 1, 2, b'x', b'y']);
    assert_eq!(build_error(2, "No"), vec![0, 5, 0, 2, b'N', b'o', 0]);
    assert_eq!(build_error(1, "File not found"), b"\0\x05\0\x01File not found\0");
}

#[test]
fn requests_are_parsed() {
    assert_eq!(
        parse_request(b"\0\x01a.txt\0octet\0"),
        Some(("a.txt".to_string(), "octet".to_string()))
    );
    assert_eq!(parse_request(b"\0\x01\0\0"), Some((String::new(), String::new())));
    assert_eq!(parse_request(b"\0\x01a.txt"), None);
    assert_eq!(parse_request(b"\0\x01a.txt\0"), None);
    assert_eq!(parse_request(b"\0\x01a.txt\0octet"), None);
    assert_eq!(parse_request(b"\0\x01"), None);
    let odd = parse_request(b"\0\x01a\xffb\0\xc3\xa9\0").unwrap();
    assert_eq!(odd, ("a\u{fffd}b".to_string(), "é".to_string()));
}

#[test]
fn what_a_datagram_asks_for() {
    assert!(matches!(handle_request(b"\0\x01a"), Request::Nothing));
    assert!(matches!(handle_request(b"\0\x01ab"), Request::Nothing));
    match handle_request(b"\0\x01f\0octet\0") {
        Request::Read(name) => assert_eq!(name, "f"),
        _ => panic!("not a read request"),
    }
    match handle_request(b"\0\x02g\0octet\0") {
        Request::Write(name) => assert_eq!(name, "g"),
        _ => panic!("not a write request"),
    }
    match handle_request(b"\x01\x02g\0octet\0") {
        Request::Unknown(log) => assert_eq!(log, "Unknown opcode: 258"),
        _ => panic!("not unknown"),
    }
}

#[test]
fn names_below_the_root() {
    assert_eq!(resolve_path("a/b.txt", Platform::Windows), Some("a/b.txt".to_string()));
    assert_eq!(resolve_path("\\\\a\\b", Platform::Windows), Some("a/b".to_string()));
    assert_eq!(resolve_path("/../x", Platform::Windows), None);
    assert_eq!(resolve_path("a/..", Platform::Windows), None);
    assert_eq!(resolve_path("C:x", Platform::Windows), None);
    assert_eq!(resolve_path("C:x", Platform::Other), Some("C:x".to_string()));
    assert_eq!(resolve_path("C:/../x", Platform::Other), None);
    assert_eq!(resolve_path("a..b", Platform::Windows), Some("a..b".to_string()));
}

#[test]
fn opening_a_file() {
    let (log, opening) = handle_rrq("a.txt", Platform::Windows);
    assert_eq!(log, "RRQ a.txt");
    assert!(matches!(opening, Opening::LookAt(rel) if rel == "a.txt"));
    let (_, opening) = handle_rrq("../a.txt", Platform::Windows);
    assert!(matches!(opening, Opening::Refuse(pkt) if pkt == build_error(1, "File not found")));
    let (log, opening) = handle_wrq("../a.txt", Platform::Windows);
    assert_eq!(log, "WRQ ../a.txt");
    assert!(matches!(opening, Opening::Refuse(pkt) if pkt == build_error(2, "Access violation")));
    let (_, opening) = handle_wrq("b", Platform::Windows);
    assert!(matches!(opening, Opening::LookAt(rel) if rel == "b"));
}

#[test]
fn only_files_in_the_root_are_read() {
    assert_eq!(open_download(&root(), &file_at(&["/", "srv", "a"])), None);
    let refusal = Some(build_error(1, "File not found"));
    assert_eq!(open_download(&root(), &file_at(&["/", "etc", "a"])), refusal);
    assert_eq!(open_download(&None, &file_at(&["/", "srv", "a"])), refusal);
    assert_eq!(open_download(&root(), &new_file_in(&["/", "srv"])), refusal);
}

#[test]
fn only_files_in_the_root_are_written() {
    assert_eq!(open_upload(&root(), &new_file_in(&["/", "srv"])), None);
    assert_eq!(open_upload(&root(), &file_at(&["/", "srv", "a"])), None);
    let refusal = Some(build_error(2, "Access violation"));
    assert_eq!(open_upload(&root(), &new_file_in(&["/", "srv2"])), refusal);
    assert_eq!(open_upload(&None, &new_file_in(&["/", "srv"])), refusal);
}

#[test]
fn a_download_in_blocks() {
    let data: Vec<u8> = (0..1024u32).map(|i| (i % 251) as u8).collect();
    let mut d = Download::new("f".to_string(), data.clone());
    assert_eq!(d.packet(), build_data(1, &data[..512]));
    assert!(matches!(d.on_reply(Some(build_ack(1))), DownloadStep::Send));
    assert_eq!(d.packet(), build_data(2, &data[512..]));
    assert!(matches!(d.on_reply(Some(build_ack(2))), DownloadStep::Send));
    assert_eq!(d.packet(), build_data(3, b""));
    match d.on_reply(Some(build_ack(3))) {
        DownloadStep::Done(log) => assert_eq!(log, "Sent f (1024 bytes)"),
        _ => panic!("not done"),
    }
}

#[test]
fn a_file_that_cannot_be_read() {
    match Download::open("f".to_string(), None) {
        Err(packet) => assert_eq!(packet, build_error(1, "File not found")),
        Ok(_) => panic!("opened"),
    }
    match Download::open("f".to_string(), Some(vec![1, 2])) {
        Ok(d) => assert_eq!(d.packet(), build_data(1, &[1, 2])),
        Err(_) => panic!("not opened"),
    }
}

#[test]
fn a_download_gives_up_after_three_waits() {
    let mut d = Download::new("f".to_string(), vec![1]);
    assert!(matches!(d.on_reply(None), DownloadStep::Send));
    assert!(matches!(d.on_reply(None), DownloadStep::Send));
    // Another packet is no acknowledgement, and is not counted.
    assert!(matches!(d.on_reply(Some([0, 4, 0, 9])), DownloadStep::Send));
    assert!(matches!(d.on_reply(Some([0, 5, 0, 1])), DownloadStep::Send));
    match d.on_reply(None) {
        DownloadStep::GiveUp(log) => assert_eq!(log, "Transfer timeout"),
        _ => panic!("not given up"),
    }
}

#[test]
fn block_numbers_wrap_around() {
    let mut d = Download::new("f".to_string(), vec![0; 65536 * 512]);
    for n in 1..=65535u16 {
        assert_eq!(d.packet()[2..4], n.to_be_bytes());
        assert!(matches!(d.on_reply(Some(build_ack(n))), DownloadStep::Send));
    }
    assert_eq!(d.packet()[2..4], [0, 0]);
    assert!(matches!(d.on_reply(Some(build_ack(0))), DownloadStep::Send));
    assert_eq!(d.packet(), build_data(1, b""));
}

#[test]
fn an_upload_of_a_download() {
    for len in [0usize, 1, 511, 512, 513, 1024, 5000] {
        let data: Vec<u8> = (0..len).map(|i| (i * 7) as u8).collect();
        let mut d = Download::new("f".to_string(), data.clone());
        let (mut u, ack) = Upload::new("f".to_string());
        assert_eq!(ack, build_ack(0));
        loop {
            let (ack, last) = match u.on_datagram(Some(&d.packet())) {
                UploadStep::Ack(ack) => (ack, false),
                UploadStep::Finish(ack) => (ack, true),
                _ => panic!("no acknowledgement"),
            };
            let done = matches!(d.on_reply(Some(ack)), DownloadStep::Done(_));
            assert_eq!(done, last);
            if done {
                break;
            }
        }
        assert_eq!(u.data, data);
        assert_eq!(u.stored(None), format!("Received f ({} bytes)", len));
    }
}

#[test]
fn stray_datagrams_are_ignored() {
    let (mut u, _) = Upload::new("f".to_string());
    assert!(matches!(u.on_datagram(Some(&build_data(2, b"x"))), UploadStep::Wait));
    assert!(matches!(u.on_datagram(Some(&build_ack(1))), UploadStep::Wait));
    assert!(u.data.is_empty());
    assert!(matches!(u.on_datagram(Some(&build_data(1, &[7; 512]))), UploadStep::Ack(_)));
    assert!(matches!(u.on_datagram(Some(&build_data(1, &[8; 512]))), UploadStep::Wait));
    assert_eq!(u.data, vec![7; 512]);
}

#[test]
fn an_upload_expires() {
    for input in [None, Some(&b"abc"[..])] {
        let (mut u, _) = Upload::new("f".to_string());
        match u.on_datagram(input) {
            UploadStep::Expire(log) => assert_eq!(log, "Write timeout"),
            _ => panic!("not expired"),
        }
    }
}

#[test]
fn an_upload_that_is_too_large() {
    let (mut u, _) = Upload::new("f".to_string());
    let blocks = MAX_FILE_SIZE / 512;
    for k in 1..=blocks {
        let number = (k % 65536) as u16;
        assert!(matches!(u.on_datagram(Some(&build_data(number, &[0; 512]))), UploadStep::Ack(_)));
    }
    let number = ((blocks + 1) % 65536) as u16;
    match u.on_datagram(Some(&build_data(number, b"x"))) {
        UploadStep::Reject(pkt, log) => {
            assert_eq!(pkt, build_error(3, "File too large (max 64 MB)"));
            assert_eq!(log, "WRQ f rejected: exceeds size limit");
        }
        _ => panic!("not rejected"),
    }
}

#[test]
fn a_file_of_the_largest_size_is_taken() {
    let (mut u, _) = Upload::new("f".to_string());
    let blocks = MAX_FILE_SIZE / 512;
    for k in 1..=blocks {
        let number = (k % 65536) as u16;
        assert!(matches!(u.on_datagram(Some(&build_data(number, &[0; 512]))), UploadStep::Ack(_)));
    }
    let number = ((blocks + 1) % 65536) as u16;
    assert!(matches!(u.on_datagram(Some(&build_data(number, b""))), UploadStep::Finish(_)));
    assert_eq!(u.data.len(), MAX_FILE_SIZE);
}

#[test]
fn storing_an_upload_may_fail() {
    let (u, _) = Upload::new("f".to_string());
    assert_eq!(u.stored(Some("disk full".to_string())), "Write error: disk full");
    assert_eq!(u.stored(None), "Received f (0 bytes)");
}
