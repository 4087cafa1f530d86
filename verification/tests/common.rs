use tiny_servers::clock::{list_date, log_date, timestamp, LocalTime};
use tiny_servers::common::{
    is_within_root, listener_step, path_lies_in, CanonicalPath, ListenerEvent, Metadata, ParentFacts,
    PathFacts,
};

fn canonical(parts: &[&str]) -> CanonicalPath {
    CanonicalPath { parts: parts.iter().map(|p| p.as_bytes().to_vec()).collect() }
}

fn existing(parts: Option<&[&str]>) -> PathFacts {
    PathFacts {
        meta: Some(Metadata { is_dir: false, is_file: true, len: 0 }),
        canonical: parts.map(canonical),
        parent: None,
    }
}

fn new_in(exists: bool, parts: Option<&[&str]>) -> PathFacts {
    PathFacts {
        meta: None,
        canonical: None,
        parent: Some(ParentFacts { exists, is_dir: true, canonical: parts.map(canonical) }),
    }
}

#[test]
fn lying_in_a_folder() {
    let root = canonical(&["/", "a", "b"]);
    assert!(path_lies_in(&canonical(&["/", "a", "b"]), &root));
    assert!(path_lies_in(&canonical(&["/", "a", "b", "c"]), &root));
    assert!(!path_lies_in(&canonical(&["/", "a"]), &root));
    assert!(!path_lies_in(&canonical(&["/", "a", "bc"]), &root));
    assert!(!path_lies_in(&canonical(&["/", "a", "c", "b"]), &root));
}

#[test]
fn lying_within_the_root() {
    let root = Some(canonical(&["/", "srv"]));
    assert!(is_within_root(&root, &existing(Some(&["/", "srv", "x"]))));
    assert!(is_within_root(&root, &existing(Some(&["/", "srv"]))));
    assert!(!is_within_root(&root, &existing(Some(&["/", "etc"]))));
    assert!(!is_within_root(&root, &existing(None)));
    assert!(!is_within_root(&None, &existing(Some(&["/", "srv", "x"]))));
    assert!(is_within_root(&root, &new_in(true, Some(&["/", "srv", "d"]))));
    assert!(!is_within_root(&root, &new_in(false, Some(&["/", "srv", "d"]))));
    assert!(!is_within_root(&root, &new_in(true, Some(&["/", "d"]))));
    assert!(!is_within_root(&root, &new_in(true, None)));
    assert!(!is_within_root(&root, &PathFacts { meta: None, canonical: None, parent: None }));
}

#[test]
fn a_folder_of_a_folder() {
    let root = canonical(&["/", "a"]);
    let folder = canonical(&["/", "a", "b"]);
    let path = canonical(&["/", "a", "b", "c"]);
    assert!(path_lies_in(&path, &folder) && path_lies_in(&folder, &root) && path_lies_in(&path, &root));
}

#[test]
fn a_server_that_listens() {
    let step = listener_step(&ListenerEvent::Bound("/srv".to_string()), "Accept");
    assert_eq!(step.log.as_deref(), Some("Server started (folder: /srv)"));
    assert!(step.listening);
    let step = listener_step(&ListenerEvent::BindFailed("in use".to_string()), "Accept");
    assert_eq!(step.log.as_deref(), Some("Failed to bind: in use"));
    assert!(!step.listening);
    let step = listener_step(&ListenerEvent::Signal(false), "Accept");
    assert_eq!(step.log, None);
    assert!(step.listening);
    let step = listener_step(&ListenerEvent::Signal(true), "Accept");
    assert_eq!(step.log.as_deref(), Some("Server listener closed"));
    assert!(!step.listening);
    let step = listener_step(&ListenerEvent::WaitFailed("reset".to_string()), "Recv");
    assert_eq!(step.log.as_deref(), Some("Recv error: reset"));
    assert!(step.listening);
}

#[test]
fn dates_by_the_year() {
    // 2024-03-05 06:07:08 in UTC, and the same moment a year before.
    let a = LocalTime { secs: 1_709_618_828, offset: 0 };
    let b = LocalTime { secs: 1_709_618_828 - 366 * 86_400, offset: 0 };
    assert_eq!(list_date(a, a), "Mar 05 06:07");
    assert_eq!(list_date(b, a), "Mar 05  2023");
    assert_eq!(list_date(a, b), "Mar 05  2024");
}

#[test]
fn every_day_of_two_years() {
    let names = ["Jan", "Feb", "Mar", "Apr", "May", "Jun", "Jul", "Aug", "Sep", "Oct", "Nov", "Dec"];
    let far = LocalTime { secs: 0, offset: 0 };
    // The first of January 2023 in UTC.
    let mut secs = 1_672_531_200;
    for year in [2023, 2024] {
        let lengths = [31, if year == 2024 { 29 } else { 28 }, 31, 30, 31, 30, 31, 31, 30, 31, 30, 31];
        for (name, days) in names.iter().zip(lengths) {
            for day in 1..=days {
                let t = LocalTime { secs, offset: 0 };
                assert_eq!(list_date(t, far), format!("{} {:02}  {}", name, day, year));
                assert_eq!(list_date(t, t), format!("{} {:02} 00:00", name, day));
                secs += 86_400;
            }
        }
    }
}

#[test]
fn years_with_few_digits() {
    let now = LocalTime { secs: 0, offset: 0 };
    let date = |secs: i64| list_date(LocalTime { secs, offset: 0 }, now);
    assert_eq!(date(-62_135_596_800), "Jan 01  0001");
    assert_eq!(date(-62_135_596_801), "Dec 31  0000");
    assert_eq!(date(-62_167_219_201), "Dec 31  -0001");
    assert_eq!(date(253_402_300_799), "Dec 31  9999");
    assert_eq!(date(253_402_300_800), "Jan 01  +10000");
}

#[test]
fn dates_by_the_local_year() {
    // A second before the year 2024 in UTC, seen one hour to the east and to the west.
    let east = LocalTime { secs: 1_704_067_199, offset: 3600 };
    let west = LocalTime { secs: 1_704_067_199, offset: -3600 };
    assert_eq!(list_date(east, east), "Jan 01 00:59");
    assert_eq!(list_date(west, west), "Dec 31 22:59");
    assert_eq!(list_date(west, east), "Dec 31  2023");
    assert_eq!(list_date(east, west), "Jan 01  2024");
}

#[test]
fn dates_at_the_ends_of_the_range() {
    let first = LocalTime { secs: tiny_servers::clock::MIN_SECONDS, offset: -86_399 };
    let last = LocalTime { secs: tiny_servers::clock::MAX_SECONDS, offset: 86_399 };
    let now = LocalTime { secs: 0, offset: 0 };
    assert_eq!(list_date(first, now), "Dec 31  -262144");
    assert_eq!(list_date(last, now), "Jan 01  +262143");
    assert_eq!(list_date(last, last), "Jan 01 23:59");
}

#[test]
fn dates_in_the_log() {
    let date = |secs: i64, offset: i32| log_date(LocalTime { secs, offset });
    assert_eq!(date(1_709_618_828, 0), "2024-03-05 06:07:08");
    assert_eq!(date(1_709_618_828, -7 * 3600), "2024-03-04 23:07:08");
    assert_eq!(date(-1, 0), "1969-12-31 23:59:59");
    assert_eq!(date(0, 19_800), "1970-01-01 05:30:00");
    assert_eq!(date(253_402_300_800, 0), "+10000-01-01 00:00:00");
}

#[test]
fn the_time_of_now() {
    let before = chrono::Local::now().format("%Y-%m-%d %H:%M:%S").to_string();
    let now = timestamp();
    let after = chrono::Local::now().format("%Y-%m-%d %H:%M:%S").to_string();
    assert!(before <= now && now <= after);
}
