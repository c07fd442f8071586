use haul::cli::{
    describe, log_line, parse_args, status_line, update_line, Args, Cmd, Tally, HELP,
};
use haul::clock::Duration;
use haul::engine::queue::Item;
use haul::extract::Mode;
use haul::log::Entry;

fn parse(args: &[&str]) -> Result<Args, String> {
    parse_args(&args.iter().map(|s| s.to_string()).collect(), "/home/u/Downloads/Haul")
}

#[test]
fn links_alone_are_downloaded_as_video() {
    let a = parse(&["https://x/a", "http://y/b"]).unwrap();
    assert_eq!(a.cmd, Cmd::Get);
    assert_eq!(a.urls, ["https://x/a", "http://y/b"]);
    assert_eq!(a.mode, Mode::Video);
    assert!(!a.any && !a.overwrite && !a.browser && !a.json);
    assert_eq!((a.concurrency, a.lines), (3, 50));
    assert_eq!(a.out, "/home/u/Downloads/Haul");
    assert_eq!(a.max, Duration::from_secs(3 * 3600));
    assert_eq!((a.max_height, a.cookies_from), (None, None));
}

#[test]
fn flags_may_stand_anywhere() {
    let a = parse(&[
        "-a", "http://x", "--any", "--overwrite", "--browser", "--json", "-o", "out", "-c", "8", "-n",
        "7", "-q", "1080p", "--cookies", "Chrome:Work", "--max", "1h30m",
    ])
    .unwrap();
    assert_eq!(a.mode, Mode::Audio);
    assert!(a.any && a.overwrite && a.browser && a.json);
    assert_eq!((a.out.as_str(), a.concurrency, a.lines), ("out", 8, 7));
    assert_eq!(a.max_height, Some(1080));
    assert_eq!(a.cookies_from.as_deref(), Some("Chrome:Work"));
    assert_eq!(a.max, Duration::from_secs(5400));
    assert_eq!(parse(&["-q", "720", "-q", "BEST"]).unwrap().max_height, None);
    assert_eq!(parse(&["-a", "--image"]).unwrap().mode, Mode::Image);
}

#[test]
fn commands_come_first_only() {
    assert_eq!(parse(&["status", "--json"]).unwrap().cmd, Cmd::Status);
    assert_eq!(parse(&["logs"]).unwrap().cmd, Cmd::Logs);
    assert_eq!(parse(&["update"]).unwrap().cmd, Cmd::Update);
    let r = parse(&["record", "-a", "http://x"]).unwrap();
    assert_eq!((r.cmd, r.mode), (Cmd::Record, Mode::Audio));
    assert_eq!(parse(&["http://x", "-h"]).unwrap().cmd, Cmd::Help);
    assert_eq!(parse(&["--json", "status"]).unwrap_err(), "看不懂的參數：status");
    assert_eq!(parse(&["ftp://x"]).unwrap_err(), "看不懂的參數：ftp://x");
    assert_eq!(parse(&[]).unwrap().cmd, Cmd::Get);
}

#[test]
fn values_that_are_missing_or_wrong_are_named() {
    assert_eq!(parse(&["--cookies"]).unwrap_err(), "--cookies 後面要接瀏覽器名稱");
    assert!(parse(&["--cookies", "mosaic"]).unwrap_err().starts_with("不認得的瀏覽器：mosaic（支援 brave、"));
    assert_eq!(parse(&["-q"]).unwrap_err(), "--quality 後面要接數字或 best");
    assert_eq!(parse(&["-q", "hd"]).unwrap_err(), "--quality 要接數字（例如 1080）或 best");
    assert_eq!(parse(&["-o"]).unwrap_err(), "--out 後面要接資料夾路徑");
    assert_eq!(parse(&["-c"]).unwrap_err(), "--concurrency 後面要接數字");
    assert_eq!(parse(&["-c", "x"]).unwrap_err(), "--concurrency 要接數字");
    assert_eq!(parse(&["-c", "0"]).unwrap_err(), "--concurrency 至少要是 1");
    assert_eq!(parse(&["-n"]).unwrap_err(), "--lines 後面要接數字");
    assert_eq!(parse(&["-n", "-1"]).unwrap_err(), "--lines 要接數字");
    assert_eq!(parse(&["--max"]).unwrap_err(), "--max 後面要接時長");
    assert_eq!(parse(&["--max", "soon"]).unwrap_err(), "--max 要接時長（例如 30m、2h）");
    assert_eq!(parse(&["-q", "4294967296"]).unwrap_err(), "--quality 要接數字（例如 1080）或 best");
}

fn item(status: &str) -> Item {
    Item {
        id: 7,
        input: "http://x".into(),
        title: "T".into(),
        kind: "video".into(),
        status: status.into(),
        bytes: 1,
        total: 2,
        secs: None,
        file: None,
        verified: None,
        path: None,
        error: None,
    }
}

#[test]
fn items_are_described_by_their_status() {
    let line = |i: &Item| describe(i, "1.0 MB", "2.0 MB", Some("61"));
    assert_eq!(line(&item("queued")), None);
    assert_eq!(line(&item("resolving")).unwrap(), "[7] 解析中 T");
    assert_eq!(line(&item("downloading")).unwrap(), "[7] 下載中 T — 1.0 MB / 2.0 MB");
    let mut unknown = item("downloading");
    unknown.total = 0;
    assert_eq!(line(&unknown), None);
    assert_eq!(line(&item("verifying")).unwrap(), "[7] 驗證中 T");
    let mut done = item("done");
    done.file = Some("f.mp4".into());
    done.verified = Some("media".into());
    assert_eq!(line(&done).unwrap(), "[7] ✓ f.mp4  61s  [media]");
    assert_eq!(describe(&item("done"), "", "", None).unwrap(), "[7] ✓ T  [?]");
    let mut bad = item("failed");
    bad.error = Some("why".into());
    assert_eq!(line(&bad).unwrap(), "[7] ✗ T — why");
}

#[test]
fn the_exit_code_is_the_answer() {
    let mut t = Tally::new();
    t.observe(&item("downloading"));
    t.observe(&item("done"));
    assert_eq!((t.totals(), t.exit_code()), ((1, 0), 0));
    t.observe(&item("failed"));
    t.observe(&item("done"));
    assert_eq!((t.totals(), t.exit_code()), ((2, 1), 1));
}

#[test]
fn records_and_totals_are_shown_in_lines() {
    let mut e = Entry {
        time: "T".into(),
        ts: 0,
        level: "info".into(),
        event: "e".into(),
        data: "null".into(),
    };
    assert_eq!(log_line(&e), "T  info  e");
    e.level = "critical".into();
    e.data = "{\"a\":1}".into();
    assert_eq!(log_line(&e), "T  critical e  {\"a\":1}");
    assert_eq!(status_line(&vec![item("done"), item("failed"), item("done")]), "共 3 筆，其中 2 筆可播");
    assert_eq!(update_line(""), "yt-dlp 已是最新版");
    assert_eq!(update_line("x"), "x");
    assert!(HELP.contains("haul record <網址>") && HELP.contains("--browser"));
}
