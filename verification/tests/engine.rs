use haul::browser::sniff::{Candidate, Kind};
use haul::clock::{Duration, Instant};
use haul::direct::Found;
use haul::engine::names::{
    default_bin_dir, default_log_dir, default_out_dir, direct_ext, ext_of, host_of,
    numbered_paths, opener, sanitize, short, unique_path, validate_playable,
};
use haul::engine::queue::{
    is_final, kind_of, load_history, Config, CookieStep, Engine, Item, Job, Patch, Remembered,
    Resolution, Seconds, Throttle,
};
use haul::engine::resolve::{advance, in_browser, start, GalleryAnswer, Move, Reply, Stage};
use haul::engine::run::{
    direct_dest, level_of, Check, Finding, Happened, Placed, Plan, Run, Staged, Todo,
};
use haul::extract::{Entry, Mode, Probe};
use haul::gallery;
use haul::page_images::{Image, Page};
use haul::paths::Platform;
use haul::settings::Settings;
use haul::verify::{Audio, Level};

#[test]
fn sanitize_strips_windows_illegal_chars() {
    assert_eq!(sanitize(r#"a/b\c:d*e?f"g<h>i|j"#), "a b c d e f g h i j");
}

#[test]
fn sanitize_handles_windows_trailing_dot_and_space() {
    assert_eq!(sanitize("song name."), "song name");
    assert_eq!(sanitize("song name   "), "song name");
}

#[test]
fn sanitize_escapes_windows_reserved_names() {
    assert_eq!(sanitize("NUL"), "_NUL");
    assert_eq!(sanitize("con"), "_con");
    assert_eq!(sanitize("COM1.mp4"), "_COM1.mp4");
    assert_eq!(sanitize("CONCERT"), "CONCERT");
}

#[test]
fn sanitize_never_splits_multibyte_chars() {
    let long = "宮".repeat(200);
    let out = sanitize(&long);
    assert_eq!(out.chars().count(), 110);
    assert!(out.is_char_boundary(out.len()));
}

#[test]
fn sanitize_falls_back_when_everything_stripped() {
    assert_eq!(sanitize("///"), "untitled");
    assert_eq!(sanitize(""), "untitled");
}

#[test]
fn sanitized_names_are_legal_whatever_comes_in() {
    for name in ["a\u{7f}b\tc", "...", " . ", "aux.", "\u{3000}x\u{85}y", "x . . .", "LPT9.a.b"] {
        let s = sanitize(name);
        assert!(!s.is_empty() && !s.ends_with('.') && !s.ends_with(' '), "{s}");
        assert!(!s.chars().any(|c| "<>:\"/\\|?*".contains(c) || (c as u32) < 0x20));
    }
    assert_eq!(sanitize("a\u{7f}b\tc"), "a b c");
    assert_eq!(sanitize("aux."), "_aux");
    assert_eq!(sanitize("\u{3000}x\u{85}y"), "x y");
    let cut = sanitize(&format!("{}. x", "a".repeat(109)));
    assert_eq!(cut, "a".repeat(109));
}

#[test]
fn only_ascii_letters_can_spell_a_device() {
    for c in (0x80u32..=0x10ffff).filter_map(char::from_u32) {
        let spells = c.to_uppercase().all(|u| "CONPRAUXLMT123456789".contains(u));
        assert!(!spells, "{c:?}");
    }
}

#[test]
fn short_takes_the_tail_of_a_url() {
    assert_eq!(short("https://example.com/watch/abc"), "abc");
    assert_eq!(short("https://example.com/watch/abc/"), "abc");
    assert_eq!(short(&"宮".repeat(40)), "宮".repeat(28));
    assert_eq!(short("///"), "");
}

#[test]
fn direct_ext_matches_what_audio_mode_actually_produces() {
    assert_eq!(direct_ext("https://x.com/a.mp4", Mode::Audio), "m4a");
    assert_eq!(direct_ext("https://x.com/a.mp4", Mode::Video), "mp4");
    assert_eq!(direct_ext("https://x.com/a.mp3", Mode::Audio), "mp3");
    assert_eq!(direct_ext("https://x.com/a.jpg", Mode::Image), "jpg");
}

#[test]
fn host_of_drops_port_so_it_matches_cookie_domains() {
    assert_eq!(host_of("http://127.0.0.1:8731/locked.jpg"), "127.0.0.1");
    assert_eq!(host_of("https://nas.local:5001/a/b.mp4"), "nas.local");
    assert_eq!(host_of("https://Example.COM/x"), "example.com");
}

#[test]
fn ext_of_ignores_query_strings_and_junk() {
    assert_eq!(ext_of("https://x.com/a.mp4"), "mp4");
    assert_eq!(ext_of("https://x.com/a.MP4?t=1"), "mp4");
    assert_eq!(ext_of("https://x.com/watch"), "bin");
    assert_eq!(ext_of("https://x.com/a.toolong"), "bin");
    assert_eq!(ext_of("https://x.com/a.m-4"), "bin");
    assert_eq!(ext_of("https://x.com/a."), "");
}

fn parts(p: &str) -> Vec<String> {
    p.split('/').map(|s| s.to_string()).collect()
}

#[test]
fn open_only_accepts_paths_inside_the_download_folder() {
    let root = || Ok(parts("/dl"));
    assert_eq!(validate_playable(root(), Ok(parts("/dl/a/ok.mp4")), true), Ok(parts("/dl/a/ok.mp4")));
    assert_eq!(validate_playable(root(), Ok(parts("/dl")), false).unwrap_err(), "這不是一個檔案");
    assert_eq!(
        validate_playable(root(), Ok(parts("/dl2/x")), true).unwrap_err(),
        "這個檔案不在下載資料夾裡"
    );
    assert_eq!(
        validate_playable(root(), Ok(parts("/")), true).unwrap_err(),
        "這個檔案不在下載資料夾裡"
    );
    assert_eq!(validate_playable(root(), Err("e".into()), true).unwrap_err(), "找不到這個檔案：e");
    assert_eq!(
        validate_playable(Err("e".into()), Ok(parts("/dl/x")), true).unwrap_err(),
        "輸出資料夾有問題：e"
    );
}

#[test]
fn names_in_use_get_a_number() {
    let taken = |names: &[&str]| names.iter().map(|n| format!("/d/{n}")).collect::<Vec<_>>();
    assert_eq!(unique_path(Platform::Linux, "/d", "a", "mp4", &vec![], 9), "/d/a.mp4");
    assert_eq!(unique_path(Platform::Linux, "/d", "a", "mp4", &taken(&["a.mp4", "a (3).mp4"]), 9), "/d/a (2).mp4");
    assert_eq!(
        unique_path(Platform::Linux, "/d", "a", "mp4", &taken(&["a.mp4", "a (2).mp4"]), 9),
        "/d/a (3).mp4"
    );
    let mut all = vec!["/d/a.mp4".to_string()];
    all.extend((2..1000).map(|n| format!("/d/a ({n}).mp4")));
    assert_eq!(numbered_paths(Platform::Linux, "/d", "a", "mp4"), all);
    assert_eq!(unique_path(Platform::Linux, "/d", "a", "mp4", &all, 9), "/d/a 9.mp4");
}

#[test]
fn the_usual_places_of_each_platform() {
    assert_eq!(default_out_dir(Platform::Linux, "/home/u"), "/home/u/Downloads/Haul");
    assert_eq!(
        default_bin_dir(Platform::Linux, "/home/u", None),
        "/home/u/.local/share/com.haul.desktop/bin"
    );
    assert_eq!(default_bin_dir(Platform::Linux, "/home/u", Some("/x/")), "/x/com.haul.desktop/bin");
    assert_eq!(
        default_log_dir(Platform::MacOs, "/Users/u", Some("/ignored")),
        "/Users/u/Library/Application Support/com.haul.desktop/logs"
    );
    assert_eq!(
        default_log_dir(Platform::Windows, r"C:\u", None),
        r"C:\u\AppData\Roaming\com.haul.desktop\logs"
    );
    assert_eq!(opener(Platform::MacOs), ["open"]);
    assert_eq!(opener(Platform::Windows), ["cmd", "/C", "start", ""]);
    assert_eq!(opener(Platform::Linux), ["xdg-open"]);
}

fn config() -> Config {
    Config::new(Platform::Linux, "/out".into(), "/bin".into(), "/logs".into())
}

#[test]
fn settings_become_a_configuration() {
    let mut s = Settings::default();
    let c = Config::from_settings(&s, Platform::Linux, "/dl", "/b", "/l");
    assert_eq!((c.out_dir.as_str(), c.bin_dir.as_str(), c.log_dir.as_str()), ("/dl", "/b", "/l"));
    assert_eq!((c.max_downloads, c.cookies_from), (3, None));
    s.out_dir = Some("/mine".into());
    s.cookies_from = Some("edge".into());
    s.concurrency = 0;
    let c = Config::from_settings(&s, Platform::Linux, "/dl", "/b", "/l");
    assert_eq!((c.out_dir.as_str(), c.max_downloads, c.cookies_from.as_deref()), ("/mine", 1, Some("edge")));
    s.concurrency = 99;
    assert_eq!(Config::from_settings(&s, Platform::Linux, "/dl", "/b", "/l").max_downloads, 8);
}

fn engine() -> Engine {
    Engine::new(config(), vec![])
}

fn past(id: u64, status: &str, path: Option<&str>) -> Item {
    let mut e = Engine::new(config(), vec![]);
    let mut i = e.push("http://p", "p", "video");
    i.id = id;
    i.status = status.to_string();
    i.path = path.map(|p| p.to_string());
    i
}

fn ytdlp(url: &str) -> Job {
    Job::Ytdlp { url: url.to_string() }
}

#[test]
fn new_items_are_numbered_after_the_old_ones() {
    let c = config();
    assert_eq!((c.max_downloads, c.max_verifies), (3, 2));
    assert!(!c.allow_html && !c.overwrite && c.cookies_from.is_none());
    let mut e = Engine::new(c, vec![past(9, "done", None), past(4, "failed", None)]);
    let i = e.push("http://x", "t", "audio");
    assert_eq!((i.id, i.status.as_str(), i.kind.as_str()), (10, "queued", "audio"));
    assert_eq!(e.push("http://y", "t", "video").id, 11);
    assert_eq!(e.snapshot().len(), 4);
    assert_eq!(e.out_dir(), "/out");
    assert_eq!(engine().push("http://x", "t", "video").id, 1);
    assert_eq!(Engine::tools_error("x"), "準備下載工具失敗：x");
}

#[test]
fn changes_touch_one_item() {
    let mut e = engine();
    let a = e.push("http://a", "a", "video").id;
    let b = e.push("http://b", "b", "video").id;
    let i = e.update(a, &Patch::Status("resolving".into())).unwrap();
    assert_eq!((i.id, i.status.as_str()), (a, "resolving"));
    e.update(b, &Patch::Progress { bytes: 5, total: 9 });
    e.update(b, &Patch::Title("B".into()));
    let done = Patch::Done {
        secs: Some(Seconds { bits: 1 }),
        file: "f".into(),
        level: "media".into(),
        path: "/out/f".into(),
        size: 77,
    };
    assert!(is_final(&done) && !is_final(&Patch::Title("x".into())));
    assert!(!is_final(&Patch::Needless("x".into())) && is_final(&Patch::Failed("x".into())));
    let d = e.update(b, &done).unwrap();
    assert_eq!((d.title.as_str(), d.status.as_str(), d.bytes, d.total), ("B", "done", 77, 77));
    assert_eq!((d.file.as_deref(), d.verified.as_deref()), (Some("f"), Some("media")));
    assert_eq!(d.secs, Some(Seconds { bits: 1 }));
    assert!(e.update(99, &done).is_none());
    let left = e.clear_finished();
    assert_eq!(left.len(), 1);
    assert_eq!((left[0].id, left[0].status.as_str()), (a, "resolving"));
}

#[test]
fn a_missing_login_opens_one_page_once() {
    let mut e = engine();
    let a = e.push("http://a", "a", "video").id;
    let b = e.push("http://b", "b", "video").id;
    let c = e.push("abc", "c", "video").id;
    assert!(e.fail(c, "HTTP 401").login.is_none());
    assert!(e.fail(a, "no such video").login.is_none());
    let f = e.fail(a, "HTTP 403 Forbidden");
    assert_eq!(f.login.as_deref(), Some("http://a"));
    let item = f.item.unwrap();
    assert_eq!((item.status.as_str(), item.error.as_deref()), ("failed", Some("HTTP 403 Forbidden")));
    assert!(e.fail(b, "需要登入").login.is_none());
    assert!(e.fail(99, "HTTP 401").item.is_none());
}

#[test]
fn cookies_are_exported_once_for_each_browser() {
    let mut e = engine();
    assert!(matches!(e.cookie_file(), CookieStep::Without));
    e.set_cookies_from(Some("chrome".into()));
    match e.cookie_file() {
        CookieStep::Export { browser, dest } => {
            assert_eq!((browser.as_str(), dest.as_str()), ("chrome", "/bin/cookies.txt"));
            e.exported(browser, dest);
        }
        other => panic!("{other:?}"),
    }
    assert!(matches!(e.cookie_file(), CookieStep::Use(p) if p == "/bin/cookies.txt"));
    e.set_cookies_from(Some("chrome".into()));
    assert_eq!(e.exported_cookies().as_deref(), Some("/bin/cookies.txt"));
    e.set_cookies_from(Some("edge".into()));
    assert_eq!(e.exported_cookies(), None);
    assert_eq!(e.cookies_from().as_deref(), Some("edge"));
}

#[test]
fn a_link_is_taken_in_once() {
    let mut e = engine();
    let a = e.push("http://a", "a", "video").id;
    let one = || Resolution::Single { job: ytdlp("http://a"), title: "A".into() };
    let q = e.enqueue(a, "http://a", "video", one());
    assert_eq!(q.jobs.len(), 1);
    assert_eq!(q.jobs[0].0, a);
    assert_eq!(q.events[0].title, "A");
    let b = e.push("http://a", "a", "video").id;
    let again = e.enqueue(b, "http://a", "video", one());
    assert!(again.jobs.is_empty());
    assert_eq!(again.events[0].status, "done");
    assert_eq!(again.events[0].error.as_deref(), Some("這個項目已經在佇列裡了"));
}

#[test]
fn a_playlist_becomes_one_item_for_each_entry() {
    let list = || Resolution::Playlist {
        title: "L".into(),
        items: vec![
            (ytdlp("u1"), "t1".to_string()),
            (ytdlp("u1"), "again".to_string()),
            (ytdlp("u2"), "t2".to_string()),
        ],
    };
    let mut e = engine();
    let a = e.push("http://l", "l", "audio").id;
    let q = e.enqueue(a, "http://l", "audio", list());
    let ids: Vec<u64> = q.jobs.iter().map(|j| j.0).collect();
    assert_eq!(ids, [a, a + 1]);
    assert_eq!(q.jobs[1].1.key(), "u2");
    let titles: Vec<_> = q.events.iter().map(|i| i.title.as_str()).collect();
    assert_eq!(titles, ["L（清單）", "t1", "t2"]);
    let all = e.snapshot();
    assert_eq!(all.len(), 2);
    assert_eq!((all[1].input.as_str(), all[1].kind.as_str()), ("u2", "audio"));
    let b = e.push("http://l", "l", "audio").id;
    let again = e.enqueue(b, "http://l", "audio", list());
    assert!(again.jobs.is_empty());
    assert_eq!(
        again.events.last().unwrap().error.as_deref(),
        Some("這份清單裡的項目都已經排過了")
    );
}

#[test]
fn history_keeps_what_can_still_be_shown() {
    let r = |id: u64, status: &str, path: Option<&str>, is_file: bool| Remembered {
        item: past(id, status, path),
        is_file,
    };
    let all = vec![
        r(1, "done", Some("/out/a"), true),
        r(2, "done", Some("/out/gone"), false),
        r(3, "failed", None, false),
        r(4, "done", None, false),
        r(5, "done", Some("/out/b"), true),
    ];
    let ids = |v: Vec<Item>| v.into_iter().map(|i| i.id).collect::<Vec<_>>();
    assert_eq!(ids(load_history(&all, 100)), [1, 3, 5]);
    assert_eq!(ids(load_history(&all, 2)), [3, 5]);
    assert!(load_history(&vec![], 5).is_empty());
}

#[test]
fn progress_is_told_now_and_then_and_at_the_end() {
    let t0 = Instant { nanos: 0 };
    let mut t = Throttle::new();
    assert!(t.due(t0, 1, 10));
    assert!(!t.due(t0 + Duration::from_millis(199), 2, 10));
    assert!(t.due(t0 + Duration::from_millis(199), 10, 10));
    assert!(!t.due(t0 + Duration::from_millis(398), 3, 0));
    assert!(t.tick(t0 + Duration::from_millis(399)));
    assert!(!t.tick(t0 + Duration::from_millis(400)));
}

fn found(title: &str) -> Found {
    Found { media: "http://m/f.bin".into(), title: title.into(), content_type: Some("a/b".into()) }
}

fn next(m: Move) -> Stage {
    match m {
        Move::Ask(s) => s,
        other => panic!("{other:?}"),
    }
}

#[test]
fn a_file_is_never_taken_to_an_extractor() {
    let s = start("https://x.com/a.mp4");
    assert!(matches!(s, Stage::File));
    match advance(s, Reply::Found(Ok(found("T"))), "https://x.com/a.mp4", Mode::Video) {
        Move::Resolved(Resolution::Single { job: Job::Direct { media, subdir, content_type, .. }, title }) => {
            assert_eq!((media.as_str(), title.as_str()), ("http://m/f.bin", "T"));
            assert!(subdir.is_none());
            assert_eq!(content_type.as_deref(), Some("a/b"));
        }
        other => panic!("{other:?}"),
    }
    let f = advance(Stage::File, Reply::Found(Err("e".into())), "x", Mode::Video);
    assert!(matches!(f, Move::Failed(e) if e == "e"));
}

#[test]
fn the_layers_are_asked_one_after_the_other() {
    let input = "https://site.com/gallery/nice.page/";
    let s = start(input);
    assert!(matches!(s, Stage::Ytdlp));
    let s = next(advance(s, Reply::Probed(Err("unsupported".into())), input, Mode::Video));
    let s = next(advance(s, Reply::Gallery(GalleryAnswer::Missing), input, Mode::Video));
    match advance(s, Reply::Found(Err("page".into())), input, Mode::Video) {
        Move::Failed(e) => assert_eq!(
            e,
            "unsupported\n若這是圖庫或漫畫頁，安裝 gallery-dl 後可支援：pipx install gallery-dl"
        ),
        other => panic!("{other:?}"),
    }
    let g = || Stage::Gallery { refusal: "no".into() };
    let s = next(advance(g(), Reply::Gallery(GalleryAnswer::Unsupported), input, Mode::Video));
    assert!(matches!(advance(s, Reply::Found(Err("x".into())), input, Mode::Audio), Move::Failed(e) if e == "no"));
    let s = next(advance(g(), Reply::Gallery(GalleryAnswer::Listed(Err("g".into()))), input, Mode::Image));
    let s = next(advance(s, Reply::Found(Err("x".into())), input, Mode::Image));
    assert!(matches!(advance(s, Reply::Page(Err("p".into())), input, Mode::Image), Move::Failed(e) if e == "no\n（圖庫萃取器：g）"));
}

#[test]
fn galleries_and_pages_get_a_directory_of_their_own() {
    let input = "https://site.com/gallery/a:b/";
    let entries = vec![gallery::Entry { url: "u".into(), title: "t".into(), ext: "jpg".into() }];
    let g = Stage::Gallery { refusal: "no".into() };
    match advance(g, Reply::Gallery(GalleryAnswer::Listed(Ok(entries))), input, Mode::Video) {
        Move::Resolved(Resolution::Playlist { title, items }) => {
            assert_eq!(title, "a b");
            assert_eq!(items[0].1, "t");
            assert!(matches!(&items[0].0, Job::Direct { subdir: Some(s), .. } if s == "a b"));
        }
        other => panic!("{other:?}"),
    }
    let p = Page {
        title: "P?".into(),
        images: vec![Image { url: "i".into(), title: "n".into(), content_type: Some("image/png".into()) }],
    };
    let s = Stage::Page { refusal: "no".into(), hint: None };
    match advance(s, Reply::Page(Ok(p)), input, Mode::Image) {
        Move::Resolved(Resolution::Playlist { title, items }) => {
            assert_eq!(title, "P");
            assert!(matches!(&items[0].0, Job::Direct { content_type: Some(c), .. } if c == "image/png"));
        }
        other => panic!("{other:?}"),
    }
}

#[test]
fn entries_without_a_title_are_named_by_their_address() {
    let list = Probe::Playlist {
        title: "L".into(),
        entries: vec![
            Entry { url: "http://x/watch/abc".into(), title: None },
            Entry { url: "http://x/2".into(), title: Some("two".into()) },
        ],
    };
    match advance(Stage::Ytdlp, Reply::Probed(Ok(list)), "http://x/l", Mode::Video) {
        Move::Resolved(Resolution::Playlist { items, .. }) => {
            assert_eq!((items[0].1.as_str(), items[1].1.as_str()), ("abc", "two"));
        }
        other => panic!("{other:?}"),
    }
    let single = Reply::Probed(Ok(Probe::Single { title: "S".into() }));
    match advance(Stage::Ytdlp, single, "http://x/1", Mode::Video) {
        Move::Resolved(Resolution::Single { job: Job::Ytdlp { url }, title }) => {
            assert_eq!((url.as_str(), title.as_str()), ("http://x/1", "S"));
        }
        other => panic!("{other:?}"),
    }
    assert!(matches!(advance(Stage::Ytdlp, Reply::Page(Err("x".into())), "u", Mode::Video), Move::Ask(Stage::Ytdlp)));
}

fn direct(media: &str, title: &str, ct: Option<&str>, sub: Option<&str>) -> Job {
    Job::Direct {
        media: media.into(),
        title: title.into(),
        content_type: ct.map(|s| s.to_string()),
        subdir: sub.map(|s| s.to_string()),
    }
}

fn a_run(job: Job, mode: Mode) -> Run {
    Run::new(Platform::Linux, job, mode, 5, "/out", "/out/.haul-part", false)
}

fn staged(name: &str, reported: Option<u64>) -> Happened {
    Happened::Fetched(Ok(Staged {
        name: name.into(),
        reported: reported.map(|bits| Seconds { bits }),
    }))
}

fn checked(finding: Finding) -> Happened {
    Happened::Checked { finding, measured: None }
}

#[test]
fn a_file_that_is_there_is_not_fetched_again() {
    let job = || direct("http://x/a.mp4", "My: Clip", None, Some("Set"));
    let mut r = a_run(job(), Mode::Audio);
    assert_eq!(r.dest().as_deref(), Some("/out/Set/My Clip.m4a"));
    match r.step(Happened::Looked(true), None) {
        Todo::Finish(Patch::Existing { file, path }) => {
            assert_eq!((file.as_str(), path.as_str()), ("My Clip.m4a", "/out/Set/My Clip.m4a"));
        }
        other => panic!("{other:?}"),
    }
    assert!(matches!(r.step(Happened::Looked(true), None), Todo::Nothing));
    let mut again = Run::new(Platform::Linux, job(), Mode::Audio, 5, "/out", "/s", true);
    assert!(matches!(again.step(Happened::Looked(true), None), Todo::Fetch(_)));
    assert_eq!(direct_dest(Platform::Linux, "/out", &ytdlp("u"), Mode::Video), None);
}

#[test]
fn a_direct_fetch_goes_through_all_its_steps() {
    let cookies = "x.com\tTRUE\t/\tTRUE\t0\tk\tv\n";
    let mut r = a_run(direct("http://x.com:8/a.mp4", "T", None, None), Mode::Audio);
    match r.step(Happened::Looked(false), Some(cookies)) {
        Todo::Fetch(Plan::Direct { url, raw, headers, sound, title }) => {
            assert_eq!(url, "http://x.com:8/a.mp4");
            assert_eq!(raw, "/out/.haul-part/5-raw.mp4");
            assert_eq!(headers, vec![("cookie".to_string(), "k=v".to_string())]);
            assert_eq!(sound.as_deref(), Some("/out/.haul-part/5.m4a"));
            assert_eq!(title, "T");
        }
        other => panic!("{other:?}"),
    }
    assert!(matches!(r.step(staged("5.m4a", None), None), Todo::Check(Check::Decode)));
    let measured = Some(Seconds { bits: 42 });
    let next = r.step(Happened::Checked { finding: Finding::Decoded(Ok(())), measured }, None);
    match next {
        Todo::Place { dir, make_dir, stem, ext } => {
            assert_eq!((dir.as_str(), stem.as_str(), ext.as_str()), ("/out", "T", "m4a"));
            assert!(!make_dir);
        }
        other => panic!("{other:?}"),
    }
    let placed = Placed { path: "/out/T (2).m4a".into(), size: 9 };
    match r.step(Happened::Placed(Ok(placed)), None) {
        Todo::Finish(Patch::Done { secs, file, level, path, size }) => {
            assert_eq!(secs, measured);
            assert_eq!((file.as_str(), level.as_str(), size), ("T (2).m4a", "media", 9));
            assert_eq!(path, "/out/T (2).m4a");
        }
        other => panic!("{other:?}"),
    }
}

#[test]
fn a_video_has_to_show_its_pictures() {
    let mut r = a_run(ytdlp("u"), Mode::Video);
    assert!(matches!(r.step(Happened::Looked(false), None), Todo::Fetch(Plan::Ytdlp { url }) if url == "u"));
    assert!(matches!(r.step(staged("Some: clip.webm", Some(7)), None), Todo::Check(Check::Decode)));
    assert!(matches!(r.step(checked(Finding::Decoded(Err("opus".into()))), None), Todo::Check(Check::Ffmpeg { why }) if why == "opus"));
    assert!(matches!(r.step(checked(Finding::Sound(Ok(Audio::Absent))), None), Todo::Check(Check::Frames)));
    assert!(matches!(r.step(Happened::Looked(true), None), Todo::Nothing));
    match r.step(checked(Finding::Seen(Ok(()))), None) {
        Todo::Place { stem, ext, .. } => assert_eq!((stem.as_str(), ext.as_str()), ("Some clip", "webm")),
        other => panic!("{other:?}"),
    }
    assert!(matches!(r.step(Happened::Placed(Err("搬移失敗：x".into())), None), Todo::Fail { why, discard: false } if why == "搬移失敗：x"));
}

#[test]
fn a_file_that_does_not_pass_is_deleted() {
    let mut r = a_run(ytdlp("u"), Mode::Audio);
    r.step(Happened::Looked(false), None);
    r.step(staged("a.opus", None), None);
    r.step(checked(Finding::Decoded(Err("s".into()))), None);
    match r.step(checked(Finding::Sound(Ok(Audio::Absent))), None) {
        Todo::Fail { why, discard } => {
            assert!(discard);
            assert_eq!(why, "驗證未通過：檔案裡沒有音軌（symphonia：s）");
        }
        other => panic!("{other:?}"),
    }
    let mut t = a_run(direct("http://x/a.json", "J", None, None), Mode::Video);
    t.step(Happened::Looked(false), None);
    assert!(matches!(t.step(staged("5-raw.json", None), None), Todo::Check(Check::Content(Level::Json))));
    match t.step(checked(Finding::Seen(Err("bad".into()))), None) {
        Todo::Fail { why, discard: true } => assert_eq!(why, "驗證未通過：bad"),
        other => panic!("{other:?}"),
    }
    let mut c = a_run(ytdlp("u"), Mode::Video);
    c.step(Happened::Looked(false), None);
    c.step(staged("a.mp4", None), None);
    assert!(matches!(c.step(checked(Finding::Crashed("boom".into())), None), Todo::Fail { why, discard: true } if why == "驗證程序異常：boom"));
    let mut f = a_run(ytdlp("u"), Mode::Video);
    f.step(Happened::Looked(false), None);
    assert!(matches!(f.step(Happened::Fetched(Err("e".into())), None), Todo::Fail { why, discard: false } if why == "e"));
}

#[test]
fn covers_and_unknown_files_have_their_own_checks() {
    let mut r = a_run(ytdlp("u"), Mode::Image);
    match r.step(Happened::Looked(false), None) {
        Todo::Fetch(Plan::Cover { url, dir }) => {
            assert_eq!((url.as_str(), dir.as_str()), ("u", "/out/.haul-part/5-thumb"));
        }
        other => panic!("{other:?}"),
    }
    assert!(matches!(r.step(staged("c.jpg", None), None), Todo::Check(Check::Picture)));
    assert!(matches!(r.step(checked(Finding::Seen(Ok(()))), None), Todo::Place { .. }));
    let mut u = a_run(direct("http://x/a.xyz", "U", None, Some("S")), Mode::Video);
    u.step(Happened::Looked(false), None);
    assert!(matches!(u.step(staged("noext", None), None), Todo::Place { make_dir: true, ext, .. } if ext == "bin"));
    assert_eq!(level_of(&direct("m", "t", Some("image/png"), None), Mode::Video, "x.mp4"), Level::Image);
    assert_eq!(level_of(&direct("m", "t", Some("a/b"), None), Mode::Video, "x.PDF"), Level::Archive);
    assert_eq!(level_of(&direct("m", "t", None, None), Mode::Video, ".pdf"), Level::Integrity);
    assert_eq!(level_of(&ytdlp("u"), Mode::Audio, "x.txt"), Level::Media);
}

#[test]
fn what_a_browser_found_becomes_an_item() {
    let found = |kind: Kind| Candidate {
        url: "https://cdn.x/v".to_string(),
        kind,
        size: None,
        mime: "video/mp4".to_string(),
        headers: vec![],
    };
    match in_browser(&found(Kind::Manifest), "標題", "https://x.com/watch/9") {
        Resolution::Single { job: Job::Ytdlp { url }, title } => {
            assert_eq!((url.as_str(), title.as_str()), ("https://cdn.x/v", "標題"));
        }
        other => panic!("{other:?}"),
    }
    match in_browser(&found(Kind::File), "", "https://x.com/watch/9") {
        Resolution::Single { job: Job::Direct { media, title, content_type, subdir }, title: shown } => {
            assert_eq!((media.as_str(), title.as_str(), shown.as_str()), ("https://cdn.x/v", "9", "9"));
            assert_eq!((content_type.as_deref(), subdir), (Some("video/mp4"), None));
        }
        other => panic!("{other:?}"),
    }
}

#[test]
fn an_item_remembers_the_mode_it_was_fetched_in() {
    for mode in [Mode::Video, Mode::Audio, Mode::Image] {
        assert_eq!(Mode::parse(kind_of(mode)), mode);
    }
    assert_eq!(kind_of(Mode::Image), "image");
}

#[test]
fn a_plain_file_meets_no_extractor() {
    for url in ["https://x/a.pdf", "https://x/a.JPG?w=1", "https://x/b/c.zip", "https://x/v.mp4"] {
        assert!(matches!(start(url), Stage::File), "{url}");
    }
    for url in ["https://x/watch.html", "https://x/watch", "https://x.md", "https://x.zip?a=/b.pdf"] {
        assert!(matches!(start(url), Stage::Ytdlp), "{url}");
    }
}

#[test]
fn windows_paths_have_their_own_separator() {
    let job = Job::Direct {
        media: "https://x/a.mp4".to_string(),
        title: "t".to_string(),
        content_type: None,
        subdir: Some("s".to_string()),
    };
    let dest = direct_dest(Platform::Windows, r"D:\out", &job, Mode::Video);
    assert_eq!(dest.as_deref(), Some(r"D:\out\s\t.mp4"));
}

#[test]
fn sanitized_names_are_words_with_single_spaces() {
    assert_eq!(sanitize("  a \t\u{3000} b  ?  c . "), "a b c");
    assert_eq!(sanitize(" \n "), "untitled");
    assert_eq!(sanitize("  con  "), "_con");
}
