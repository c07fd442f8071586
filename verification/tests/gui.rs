use haul::engine::queue::Event;
use haul::gui::{add, picked, read_audio, setup_event, thumb, verify_audio, MAX_CHIME_BYTES};

#[test]
fn pasted_links_are_taken_without_punctuation() {
    let text = "看這個 https://x.com/a。 (http://y.com/b) http://z.com/c,\nftp://no https://w.com/d)]";
    assert_eq!(
        add(text, &None).unwrap(),
        ["https://x.com/a", "http://z.com/c", "https://w.com/d"]
    );
    assert_eq!(
        add("nothing", &Some("mosaic".into())).unwrap_err(),
        "沒看到網址。貼上影片或音樂的連結，一行一個。"
    );
    assert_eq!(add("http://x", &Some("mosaic".into())).unwrap_err(), "不認得的瀏覽器：mosaic");
    assert!(add("http://x", &Some("Edge".into())).is_ok());
}

#[test]
fn preparations_are_told_in_one_shape() {
    let p = setup_event(&Event::Setup { tool: "ffmpeg".into(), bytes: 1, total: 2 }).unwrap();
    assert_eq!((p.stage.as_str(), p.tool.as_str(), p.bytes, p.total), ("progress", "ffmpeg", 1, 2));
    assert_eq!(setup_event(&Event::SetupDone).unwrap().stage, "done");
    let f = setup_event(&Event::SetupFailed { error: "e".into() }).unwrap();
    assert_eq!((f.stage.as_str(), f.error.as_deref()), ("failed", Some("e")));
}

#[test]
fn bytes_reach_the_window_as_text() {
    assert_eq!(thumb(b"haul"), "aGF1bA==");
    assert_eq!(read_audio(&[0, 255]).unwrap(), "AP8=");
    assert_eq!(read_audio(&vec![0; MAX_CHIME_BYTES + 1]).unwrap_err(), "音檔太大（上限 8 MB）");
}

#[test]
fn dialogs_and_chimes() {
    assert_eq!(picked(b" /a b.mp3\n").as_deref(), Some("/a b.mp3"));
    assert_eq!(picked(b"\n"), None);
    assert!(verify_audio(true, Ok(())).is_ok());
    assert_eq!(verify_audio(false, Ok(())).unwrap_err(), "找不到這個檔案");
    assert_eq!(verify_audio(true, Err("x".into())).unwrap_err(), "這個檔案不能當提示音：x");
}
