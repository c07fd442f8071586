use haul::browser::sniff::{
    classify, is_ad_host, keep_headers, mime_of, Candidate, Candidates, Kind, StopRule,
    MIN_FILE_BYTES,
};
use haul::clock::{Duration, Instant};

fn c(url: &str, kind: Kind, size: Option<u64>) -> Candidate {
    Candidate {
        url: url.into(),
        kind,
        size,
        mime: String::new(),
        headers: vec![],
    }
}

fn start() -> Instant {
    Instant { nanos: 1_000_000_000_000 }
}

fn secs(n: u64) -> Duration {
    Duration::from_secs(n)
}

#[test]
fn classifies_by_mime_first_then_extension() {
    assert_eq!(
        classify("https://x/a?e=1", "application/vnd.apple.mpegurl", "Fetch"),
        Some(Kind::Manifest)
    );
    assert_eq!(classify("https://x/a.m3u8", "text/plain", "Fetch"), Some(Kind::Manifest));
    assert_eq!(
        classify("https://x/a.mpd", "application/dash+xml", "Fetch"),
        Some(Kind::Manifest)
    );
    assert_eq!(classify("https://x/v.mp4", "video/mp4", "Media"), Some(Kind::File));
    assert_eq!(classify("https://x/v", "audio/mpeg", "Media"), Some(Kind::File));
    assert_eq!(classify("https://x/seg-12.ts", "video/mp2t", "Fetch"), Some(Kind::Segment));
    assert_eq!(
        classify("https://x/seg-12.m4s", "application/octet-stream", "Fetch"),
        Some(Kind::Segment)
    );
    assert_eq!(
        classify("https://x/stream", "application/octet-stream", "Media"),
        Some(Kind::File)
    );
    assert_eq!(classify("https://x/page", "text/html", "Document"), None);
    assert_eq!(classify("https://x/app.js", "application/javascript", "Script"), None);
}

#[test]
fn parameters_case_and_fragments_do_not_hide_a_kind() {
    assert_eq!(
        classify("https://x/a", " Application/X-MpegURL ; charset=utf-8", "Fetch"),
        Some(Kind::Manifest)
    );
    assert_eq!(classify("https://x/v.MP4#t=3", "", "Fetch"), Some(Kind::File));
    assert_eq!(classify("https://x.mp4/page", "", "Fetch"), None);
    assert_eq!(mime_of("Image/PNG; q=1"), "image/png");
}

#[test]
fn ad_hosts_are_dropped() {
    assert!(is_ad_host("pagead2.googlesyndication.com"));
    assert!(is_ad_host("ad.doubleclick.net"));
    assert!(!is_ad_host("cdn.example.com"));
}

#[test]
fn a_host_that_only_ends_like_an_ad_host_is_none() {
    assert!(is_ad_host("DoubleClick.net"));
    assert!(!is_ad_host("notdoubleclick.net"));
    assert!(!is_ad_host("doubleclick.net.example.com"));
}

#[test]
fn range_requests_to_the_same_url_merge_into_one() {
    let mut set = Candidates::default();
    set.push(c("https://x/v.mp4", Kind::File, Some(1_000)));
    set.push(c("https://x/v.mp4", Kind::File, Some(50_000_000)));
    set.push(c("https://x/v.mp4", Kind::File, None));
    assert_eq!(set.list().len(), 1);
    assert_eq!(set.list()[0].size, Some(50_000_000));
}

#[test]
fn the_first_known_headers_are_kept() {
    let mut set = Candidates::default();
    set.push(c("https://x/v.mp4", Kind::File, None));
    let mut second = c("https://x/v.mp4", Kind::File, Some(20_000));
    second.headers = vec![("Referer".into(), "https://x/".into())];
    set.push(second);
    let mut third = c("https://x/v.mp4", Kind::Manifest, Some(10));
    third.headers = vec![("Referer".into(), "https://y/".into())];
    set.push(third);
    assert_eq!(set.list().len(), 1);
    assert_eq!(set.list()[0].kind, Kind::File);
    assert_eq!(set.list()[0].size, Some(20_000));
    assert_eq!(set.list()[0].headers, vec![("Referer".to_string(), "https://x/".to_string())]);
}

#[test]
fn best_prefers_manifest_then_largest_file() {
    let mut set = Candidates::default();
    set.push(c("https://x/small.mp4", Kind::File, Some(20_000)));
    set.push(c("https://x/big.mp4", Kind::File, Some(90_000_000)));
    assert_eq!(set.best().unwrap().url, "https://x/big.mp4");
    assert_eq!(set.best_index(), Some(1));
    set.push(c("https://x/master.m3u8", Kind::Manifest, None));
    assert_eq!(set.best().unwrap().url, "https://x/master.m3u8");
    assert_eq!(set.best_index(), Some(2));
}

#[test]
fn of_equal_files_the_last_is_taken_and_of_manifests_the_first() {
    let mut set = Candidates::default();
    set.push(c("https://x/a.mp4", Kind::File, Some(30_000)));
    set.push(c("https://x/b.mp4", Kind::File, Some(30_000)));
    assert_eq!(set.best_index(), Some(1));
    set.push(c("https://x/1.m3u8", Kind::Manifest, None));
    set.push(c("https://x/2.m3u8", Kind::Manifest, Some(99)));
    assert_eq!(set.best_index(), Some(2));
}

#[test]
fn the_smallest_file_that_counts_is_exactly_the_limit() {
    let mut set = Candidates::default();
    set.push(c("https://x/a.mp4", Kind::File, Some(MIN_FILE_BYTES - 1)));
    assert!(set.best_index().is_none());
    set.push(c("https://x/b.mp4", Kind::File, Some(MIN_FILE_BYTES)));
    assert_eq!(set.best_index(), Some(1));
}

#[test]
fn tiny_files_and_segments_never_win() {
    let mut set = Candidates::default();
    set.push(c("https://x/beacon.mp3", Kind::File, Some(2_000)));
    set.push(c("https://x/seg.ts", Kind::Segment, Some(500_000)));
    assert!(set.best().is_none());
    assert!(set.saw_segments());
}

#[test]
fn only_forwardable_headers_are_kept() {
    let kept = keep_headers(&[
        ("Referer".into(), "https://x/".into()),
        ("cookie".into(), "a=b".into()),
        ("Accept-Encoding".into(), "gzip".into()),
        ("Range".into(), "bytes=0-".into()),
        ("User-Agent".into(), "UA".into()),
        ("Authorization".into(), "Bearer t".into()),
    ]);
    let names: Vec<_> = kept.iter().map(|(k, _)| k.as_str()).collect();
    assert_eq!(names, ["Referer", "cookie", "User-Agent", "Authorization"]);
}

#[test]
fn stop_rule_waits_briefly_after_a_manifest() {
    let t0 = start();
    let mut r = StopRule::new(t0);
    assert_eq!(r.deadline(), t0 + secs(StopRule::OVERALL));
    r.saw(Kind::Manifest, t0 + secs(4));
    assert_eq!(r.deadline(), t0 + secs(4) + secs(StopRule::AFTER_MANIFEST));
}

#[test]
fn stop_rule_extends_quiet_window_per_file() {
    let t0 = start();
    let mut r = StopRule::new(t0);
    r.saw(Kind::File, t0 + secs(2));
    assert_eq!(r.deadline(), t0 + secs(2) + secs(StopRule::QUIET_AFTER_FILE));
    r.saw(Kind::File, t0 + secs(5));
    assert_eq!(r.deadline(), t0 + secs(5) + secs(StopRule::QUIET_AFTER_FILE));
    r.saw(Kind::Manifest, t0 + secs(6));
    r.saw(Kind::File, t0 + secs(7));
    assert_eq!(r.deadline(), t0 + secs(6) + secs(StopRule::AFTER_MANIFEST));
}

#[test]
fn stop_rule_never_exceeds_overall_timeout() {
    let t0 = start();
    let mut r = StopRule::new(t0);
    r.saw(Kind::File, t0 + secs(StopRule::OVERALL - 1));
    assert_eq!(r.deadline(), t0 + secs(StopRule::OVERALL));
}

#[test]
fn segments_do_not_affect_the_deadline() {
    let t0 = start();
    let mut r = StopRule::new(t0);
    r.saw(Kind::Segment, t0 + secs(3));
    assert_eq!(r.deadline(), t0 + secs(StopRule::OVERALL));
}

#[test]
fn a_second_manifest_changes_nothing() {
    let t0 = start();
    let mut r = StopRule::new(t0);
    r.saw(Kind::Manifest, t0 + secs(1));
    r.saw(Kind::Manifest, t0 + secs(2));
    assert_eq!(r.deadline(), t0 + secs(4));
    assert_eq!((StopRule::OVERALL, StopRule::AFTER_MANIFEST, StopRule::QUIET_AFTER_FILE), (60, 3, 5));
}
