use haul::calendar::{civil_from_days, Date};
use haul::log::{iso8601, numbered, tail, tail_files, Entry, Logger, KEEP, MAX_BYTES};
use haul::paths::Platform;

#[test]
fn formats_known_epochs() {
    assert_eq!(iso8601(0), "1970-01-01T00:00:00Z");
    assert_eq!(iso8601(1_000_000_000), "2001-09-09T01:46:40Z");
    assert_eq!(iso8601(1_700_000_000), "2023-11-14T22:13:20Z");
}

#[test]
fn handles_leap_days() {
    assert_eq!(iso8601(951_782_400), "2000-02-29T00:00:00Z");
    assert_eq!(iso8601(1_709_164_800), "2024-02-29T00:00:00Z");
}

#[test]
fn centuries_are_no_leap_years_unless_they_divide_by_four() {
    assert_eq!(iso8601(4_107_542_399), "2100-02-28T23:59:59Z");
    assert_eq!(iso8601(4_107_542_400), "2100-03-01T00:00:00Z");
    assert_eq!(iso8601(253_402_300_799), "9999-12-31T23:59:59Z");
    assert_eq!(iso8601(253_402_300_800), "10000-01-01T00:00:00Z");
    assert_eq!(civil_from_days(11_016), Date { year: 2000, month: 2, day: 29 });
    assert_eq!(iso8601(u64::MAX), "584554051223-11-09T07:00:15Z");
}

#[test]
fn days_follow_one_another() {
    let mut last = civil_from_days(0);
    for n in 1..200_000u64 {
        let d = civil_from_days(n);
        let next_day = d.year == last.year && d.month == last.month && d.day == last.day + 1;
        let next_month = d.day == 1 && d.year == last.year && d.month == last.month + 1;
        let next_year = d.day == 1 && d.month == 1 && d.year == last.year + 1 && last.month == 12;
        assert!(next_day || next_month || next_year, "{last:?} {d:?}");
        last = d;
    }
}

fn entry(ts: u64, event: &str) -> Entry {
    Entry {
        time: String::new(),
        ts,
        level: "info".to_string(),
        event: event.to_string(),
        data: "null".to_string(),
    }
}

#[test]
fn the_tail_is_the_most_recent_in_order() {
    let all = vec![entry(3, "c"), entry(1, "a"), entry(3, "d"), entry(2, "b")];
    let names = |v: Vec<Entry>| v.into_iter().map(|e| e.event).collect::<Vec<_>>();
    assert_eq!(names(tail(all.clone(), 10)), ["a", "b", "c", "d"]);
    assert_eq!(names(tail(all.clone(), 2)), ["c", "d"]);
    assert_eq!(names(tail(all.clone(), 4)).len(), 4);
    assert!(tail(all, 0).is_empty());
    assert!(tail(vec![], 5).is_empty());
}

#[test]
fn tail_returns_the_most_recent() {
    let all: Vec<Entry> = (0..20).map(|i| entry(i, &i.to_string())).collect();
    let last = tail(all, 5);
    assert_eq!(last.len(), 5);
    assert_eq!(last[4].event, "19");
}

#[test]
fn a_full_file_is_pushed_back_and_the_oldest_is_lost() {
    let l = Logger::new(Platform::Linux, "/logs");
    assert_eq!(l.path(), "/logs/haul.log");
    assert!(l.rotate_if_needed(None).is_empty());
    assert!(l.rotate_if_needed(Some(MAX_BYTES - 1)).is_empty());
    let steps = l.rotate_if_needed(Some(MAX_BYTES));
    assert_eq!(steps, [(2, 3), (1, 2), (0, 1)]);
    let mut files: Vec<Option<&str>> = vec![Some("now"), Some("one"), Some("two"), Some("three")];
    for (a, b) in steps {
        files[b] = files[a].take();
    }
    assert_eq!(files, [None, Some("now"), Some("one"), Some("two")]);
    assert_eq!((MAX_BYTES, KEEP), (4 * 1024 * 1024, 3));
}

#[test]
fn the_files_are_read_back_oldest_first() {
    assert_eq!(tail_files("/l/haul.log"), ["/l/haul.log.3", "/l/haul.log.2", "/l/haul.log.1", "/l/haul.log"]);
    assert_eq!(numbered("/l/haul.log", 12), "/l/haul.log.12");
}

#[test]
fn entries_carry_their_level_and_both_times() {
    let l = Logger::new(Platform::Linux, "logs/");
    let e = l.warn("x.y", "{\"a\":1}", 1_700_000_000_123);
    assert_eq!((e.level.as_str(), e.ts), ("warn", 1_700_000_000_123));
    assert_eq!(e.time, "2023-11-14T22:13:20Z");
    assert_eq!((e.event.as_str(), e.data.as_str()), ("x.y", "{\"a\":1}"));
    assert_eq!(l.info("e", "null", 0).level, "info");
    assert_eq!(l.error("e", "null", 0).level, "error");
    assert_eq!(l.path(), "logs/haul.log");
}

#[test]
fn times_stand_in_order_as_text() {
    let times = [0, 59, 60, 3_600, 86_399, 86_400, 951_782_400, 1_700_000_000, 253_402_300_799];
    for pair in times.windows(2) {
        let (a, b) = (iso8601(pair[0]), iso8601(pair[1]));
        assert!(a < b, "{a} {b}");
        assert_eq!((a.len(), b.len()), (20, 20));
    }
    assert_eq!(iso8601(253_402_300_799), "9999-12-31T23:59:59Z");
}
