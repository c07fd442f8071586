use haul::extract::{
    call_error, download_args, download_thumbnail, header_args, probe, probe_args, probe_value,
    stderr_tail, thumbnail_args, video_format, Mode, Options, Probe, Scan, STDERR_TAIL,
};
use haul::json::Json;

#[test]
fn header_args_are_one_add_headers_per_pair() {
    let got = header_args(&[
        ("Referer".into(), "https://x/".into()),
        ("Cookie".into(), "a=b".into()),
    ]);
    assert_eq!(got, ["--add-headers", "Referer:https://x/", "--add-headers", "Cookie:a=b"]);
    assert!(header_args(&[]).is_empty());
}

#[test]
fn mode_parsing() {
    assert_eq!(Mode::parse("audio"), Mode::Audio);
    assert_eq!(Mode::parse("video"), Mode::Video);
    assert_eq!(Mode::parse("image"), Mode::Image);
    assert_eq!(Mode::parse("nonsense"), Mode::Video);
}

#[test]
fn mode_names_read_back() {
    for m in [Mode::Video, Mode::Audio, Mode::Image] {
        assert_eq!(Mode::parse(m.as_str()), m);
    }
}

#[test]
fn quality_cap_keeps_an_uncapped_fallback() {
    let opts = Options { max_height: Some(1080), ..Default::default() };
    let f = video_format(opts.max_height);
    assert!(f.contains("height<=1080"));
    assert!(f.ends_with("/bv*+ba/b"), "{f}");
    assert_eq!(f, "bv*[height<=1080]+ba/b[height<=1080]/bv*+ba/b");
    assert_eq!(video_format(None), "bv*+ba/b");
}

#[test]
fn stderr_tail_picks_last_meaningful_lines() {
    let lines: Vec<String> = vec!["a".into(), "".into(), "b".into(), "c".into()];
    let got = stderr_tail(&lines);
    assert!(got.contains('c') && got.contains('b'));
    assert_eq!(got, "c / b / a");
    let more: Vec<String> = vec!["z".into(), " a ".into(), "b".into(), " ".into(), "c".into()];
    assert_eq!(stderr_tail(&more), "c / b / a");
}

#[test]
fn stderr_tail_handles_silence() {
    assert!(stderr_tail(&[]).contains("沒有給出原因"));
}

#[test]
fn a_probe_asks_without_downloading() {
    assert_eq!(
        probe_args("https://x/", Some("chrome")),
        [
            "--ignore-config",
            "--no-warnings",
            "--no-colors",
            "--cookies-from-browser",
            "chrome",
            "-J",
            "--flat-playlist",
            "https://x/"
        ]
    );
    assert_eq!(probe_args("u", None).len(), 6);
}

#[test]
fn a_probe_tells_single_items_from_playlists() {
    match probe(true, br#"{"title":"One"}"#, b"").unwrap() {
        Probe::Single { title } => assert_eq!(title, "One"),
        other => panic!("{other:?}"),
    }
    let list = r#"{"_type":"playlist","title":"L","entries":[
        {"url":"u1","title":"t1"},{"webpage_url":"u2"},{"url":null,"webpage_url":"u3"},{"title":"x"}]}"#;
    match probe(true, list.as_bytes(), b"").unwrap() {
        Probe::Playlist { title, entries } => {
            assert_eq!(title, "L");
            assert_eq!(entries.len(), 2);
            assert_eq!((entries[0].url.as_str(), entries[0].title.as_deref()), ("u1", Some("t1")));
            assert_eq!((entries[1].url.as_str(), entries[1].title.as_deref()), ("u2", None));
        }
        other => panic!("{other:?}"),
    }
    let empty = Json::parse(r#"{"_type":"playlist","entries":[]}"#).unwrap();
    assert_eq!(probe_value(&empty).unwrap_err(), "這是一份清單，但裡面沒有可下載的項目");
    match probe_value(&Json::parse("[]").unwrap()).unwrap() {
        Probe::Single { title } => assert_eq!(title, "untitled"),
        other => panic!("{other:?}"),
    }
}

#[test]
fn a_probe_that_fails_says_why() {
    assert_eq!(probe(false, b"", b"WARN x\nERROR: no\n").unwrap_err(), "ERROR: no / WARN x");
    assert!(probe(true, b"not json", b"").unwrap_err().starts_with("看不懂 yt-dlp 的輸出："));
    assert!(probe(true, b"{\"title\":\"\xff\"}", b"").is_err());
    assert_eq!(call_error(b" \xff \n"), "\u{fffd}");
}

#[test]
fn a_download_names_its_streams_and_its_place() {
    let opts = Options {
        max_height: Some(720),
        headers: vec![("Referer".into(), "r".into())],
    };
    let a = download_args("/bin/ffmpeg", "https://x/", Mode::Video, &opts, None, "/stage");
    assert_eq!(&a[3..5], ["--add-headers", "Referer:r"]);
    assert!(a.windows(2).any(|w| w == ["--ffmpeg-location", "/bin/ffmpeg"]));
    assert!(a.windows(2).any(|w| w == ["--paths", "home:/stage"]));
    assert!(a.windows(2).any(|w| w == ["--merge-output-format", "mp4"]));
    assert_eq!(a.last().unwrap(), "https://x/");
    let b = download_args("f", "u", Mode::Audio, &Options::default(), Some("edge"), "s");
    assert!(b.windows(3).any(|w| w == ["-x", "--audio-format", "best"]));
    assert!(b.windows(2).any(|w| w == ["--cookies-from-browser", "edge"]));
    let c = download_args("f", "u", Mode::Image, &Options::default(), None, "s");
    assert_eq!(&c[c.len() - 3..], ["-f", "ba/b", "u"]);
}

#[test]
fn the_lines_of_a_download_are_understood() {
    let mut s = Scan::new();
    assert_eq!(s.line(false, "x HAULPROG 5 100 NA"), Some((5, 100)));
    assert_eq!(s.line(true, "HAULPROG 5 NA 90"), Some((5, 90)));
    assert_eq!(s.line(false, "HAULPROG NA"), Some((0, 0)));
    assert_eq!(s.line(false, "HAULFILE   /stage/a b.mp4 "), None);
    assert_eq!(s.line(false, "HAULFILE   "), None);
    assert_eq!(s.line(false, "HAULDUR 12.5"), None);
    assert_eq!(s.line(false, "chatter"), None);
    assert_eq!(s.file().as_deref(), Some("/stage/a b.mp4"));
    let d = s.finish(true, true).unwrap();
    assert_eq!((d.path.as_str(), d.duration.as_deref()), ("/stage/a b.mp4", Some("12.5")));
}

#[test]
fn a_download_without_its_file_fails() {
    let mut s = Scan::new();
    for i in 0..20 {
        s.line(true, &format!("e{i}"));
    }
    assert_eq!(
        s.finish(true, false).unwrap_err(),
        "yt-dlp 沒有回報輸出檔案：e19 / e18 / e17"
    );
    let mut t = Scan::new();
    t.line(true, "only");
    assert_eq!(t.finish(false, true).unwrap_err(), "only");
    let mut u = Scan::new();
    u.line(false, "HAULFILE /gone.mp4");
    assert_eq!(u.finish(true, false).unwrap_err(), "yt-dlp 回報的檔案不存在：/gone.mp4");
    assert_eq!(STDERR_TAIL, 12);
}

#[test]
fn a_cover_is_the_one_file_in_its_directory() {
    let a = thumbnail_args("f", "u", "d", None);
    assert!(a.windows(2).any(|w| w == ["--convert-thumbnails", "jpg"]));
    assert_eq!(&a[a.len() - 3..], ["--paths", "home:d", "u"]);
    assert_eq!(download_thumbnail(true, b"", Some("x.jpg".into())), Ok("x.jpg".to_string()));
    assert_eq!(download_thumbnail(true, b"", None).unwrap_err(), "這個來源沒有可用的封面圖");
    assert_eq!(download_thumbnail(false, b"why", Some("x".into())).unwrap_err(), "why");
}
