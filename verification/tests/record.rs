use haul::browser::cdp::CdpEvent;
use haul::browser::record::{
    eval_text, output_ext, parse_duration, pick_mime, record_js, remux_args, remux_command,
    remux_error, reply_id, start_error, supported_formats, Act, Recording, Stop, StopWhen, Turn,
};
use haul::clock::{Duration, Instant};
use haul::json::Json;

fn start() -> Instant {
    Instant { nanos: 5_000_000_000 }
}

fn secs(n: u64) -> Duration {
    Duration::from_secs(n)
}

#[test]
fn stops_at_max_duration() {
    let t0 = start();
    let mut s = StopWhen::new(t0, Duration::from_secs(10));
    assert_eq!(s.check(t0 + secs(9)), None);
    assert_eq!(s.check(t0 + secs(10)), Some(Stop::MaxDuration));
}

#[test]
fn user_stop_wins_immediately() {
    let t0 = start();
    let mut s = StopWhen::new(t0, Duration::from_secs(3600));
    s.user_stopped();
    assert_eq!(s.check(t0 + Duration::from_millis(1)), Some(Stop::User));
}

#[test]
fn media_ended_needs_prior_playback_and_quiet_window() {
    let t0 = start();
    let mut s = StopWhen::new(t0, Duration::from_secs(3600));
    s.playing(false, t0 + secs(1));
    assert_eq!(s.check(t0 + secs(30)), None);
    s.playing(true, t0 + secs(31));
    s.playing(false, t0 + secs(40));
    assert_eq!(s.check(t0 + secs(44)), None);
    assert_eq!(s.check(t0 + secs(45)), Some(Stop::MediaEnded));
}

#[test]
fn new_playback_resets_quiet_window() {
    let t0 = start();
    let mut s = StopWhen::new(t0, Duration::from_secs(3600));
    s.playing(true, t0 + secs(1));
    s.playing(false, t0 + secs(10));
    s.playing(true, t0 + secs(13));
    s.playing(false, t0 + secs(20));
    assert_eq!(s.check(t0 + secs(24)), None);
    assert_eq!(s.check(t0 + secs(25)), Some(Stop::MediaEnded));
}

#[test]
fn quiet_is_counted_from_its_first_report() {
    let t0 = start();
    let mut s = StopWhen::new(t0, secs(3600));
    s.playing(true, t0);
    s.playing(false, t0 + secs(1));
    s.playing(false, t0 + secs(4));
    assert_eq!(s.check(t0 + secs(6)), Some(Stop::MediaEnded));
}

#[test]
fn parses_human_durations() {
    assert_eq!(parse_duration("90"), Some(Duration::from_secs(90)));
    assert_eq!(parse_duration("90s"), Some(Duration::from_secs(90)));
    assert_eq!(parse_duration("30m"), Some(Duration::from_secs(1800)));
    assert_eq!(parse_duration("2h"), Some(Duration::from_secs(7200)));
    assert_eq!(parse_duration("1h30m"), Some(Duration::from_secs(5400)));
    assert_eq!(parse_duration("abc"), None);
    assert_eq!(parse_duration("0"), None);
    assert_eq!(parse_duration("5x"), None);
}

#[test]
fn odd_durations_are_read_or_refused() {
    assert_eq!(parse_duration("  1h 30m"), None);
    assert_eq!(parse_duration(" 1h1h "), Some(secs(7200)));
    assert_eq!(parse_duration("1h30"), None);
    assert_eq!(parse_duration("h"), None);
    assert_eq!(parse_duration(""), None);
    assert_eq!(parse_duration("0h0m"), None);
    assert_eq!(parse_duration("+7"), Some(secs(7)));
    assert_eq!(parse_duration("18446744073709551615"), Some(secs(u64::MAX)));
    assert_eq!(parse_duration("18446744073709551616"), None);
    assert_eq!(parse_duration("18446744073709551615h"), None);
}

#[test]
fn picks_h264_when_available_else_falls_back() {
    let all = vec![
        "video/webm;codecs=vp9,opus".to_string(),
        "video/webm;codecs=h264,opus".to_string(),
    ];
    assert_eq!(pick_mime(false, &all).unwrap(), "video/webm;codecs=h264,opus");
    let vp9 = vec!["video/webm;codecs=vp9,opus".to_string()];
    assert_eq!(pick_mime(false, &vp9).unwrap(), "video/webm;codecs=vp9,opus");
    assert!(pick_mime(false, &[]).is_none());
    assert_eq!(
        pick_mime(true, &["audio/webm;codecs=opus".to_string()]).unwrap(),
        "audio/webm;codecs=opus"
    );
}

#[test]
fn record_js_substitutes_placeholders() {
    let js = record_js("video/webm;codecs=h264,opus", true);
    assert!(js.contains("mimeType: 'video/webm;codecs=h264,opus'"));
    assert!(js.contains("const audioOnly = true;"));
    assert!(!js.contains("{{"));
}

#[test]
fn remux_copies_h264_and_reencodes_everything_else() {
    let a = remux_args(false, "video/webm;codecs=h264,opus");
    assert!(a.windows(2).any(|w| w == ["-c:v", "copy"]), "{a:?}");
    assert!(a.windows(2).any(|w| w == ["-c:a", "aac"]));
    assert!(a.contains(&"+faststart".to_string()));
    let b = remux_args(false, "video/webm;codecs=vp9,opus");
    assert!(b.windows(2).any(|w| w == ["-c:v", "libx264"]), "{b:?}");
    let c = remux_args(true, "audio/webm;codecs=opus");
    assert!(c.contains(&"-vn".to_string()));
    assert!(c.windows(2).any(|w| w == ["-c:a", "aac"]));
}

#[test]
fn the_remux_command_goes_from_source_to_destination() {
    assert_eq!(
        remux_command("in.webm", "out.m4a", true, "audio/webm;codecs=opus"),
        ["-v", "error", "-nostdin", "-y", "-i", "in.webm", "-vn", "-c:a", "aac", "-b:a", "192k", "out.m4a"]
    );
    assert_eq!(remux_error(" \n\n bad moov\nmore"), "錄製轉檔失敗： bad moov");
    assert_eq!(remux_error("\n"), "錄製轉檔失敗：");
}

#[test]
fn output_extension_follows_mode() {
    assert_eq!(output_ext(false), "mp4");
    assert_eq!(output_ext(true), "m4a");
}

fn binding(session: &str, payload: &str) -> CdpEvent {
    let quoted = payload.replace('\\', "\\\\").replace('"', "\\\"");
    CdpEvent {
        method: "Runtime.bindingCalled".to_string(),
        params: Json::parse(&format!("{{\"name\":\"haulRec\",\"payload\":\"{quoted}\"}}")).unwrap(),
        session_id: Some(session.to_string()),
    }
}

fn write_of(a: Act) -> Vec<u8> {
    match a {
        Act::Write(v) => v,
        other => panic!("{other:?}"),
    }
}

#[test]
fn a_recording_collects_its_chunks_and_ends_with_its_media() {
    let t0 = start();
    let mut r = Recording::new(t0, secs(60));
    assert_eq!(r.turn(t0), Turn::Wait);
    assert!(matches!(r.see(&binding("S", r#"{"type":"started"}"#), "S", "T", t0), Act::Nothing));
    let got = write_of(r.see(&binding("S", r#"{"type":"chunk","data":"aGF1bA=="}"#), "S", "T", t0 + secs(1)));
    assert_eq!(got, b"haul");
    assert_eq!(r.progress(t0 + Duration::from_millis(2900)), (4, 2));
    r.see(&binding("S", r#"{"type":"playing","playing":true}"#), "S", "T", t0 + secs(2));
    r.see(&binding("S", r#"{"type":"playing","playing":false}"#), "S", "T", t0 + secs(5));
    assert_eq!(r.turn(t0 + secs(9)), Turn::Wait);
    assert_eq!(r.turn(t0 + secs(10)), Turn::TellPage);
    r.user_stopped();
    assert_eq!(r.turn(t0 + secs(11)), Turn::Wait);
    assert!(matches!(r.see(&binding("S", r#"{"type":"stopped"}"#), "S", "T", t0 + secs(11)), Act::Finish));
    let done = r.finish(t0 + secs(11), "m".to_string(), "t".to_string()).unwrap();
    assert_eq!((done.stop, done.bytes, done.secs), (Stop::MediaEnded, 4, 11));
    assert_eq!((done.mime.as_str(), done.title.as_str()), ("m", "t"));
}

#[test]
fn a_capture_that_never_begins_times_out() {
    let t0 = start();
    let mut r = Recording::new(t0, secs(60));
    assert_eq!(r.turn(t0 + secs(15)), Turn::Wait);
    assert_eq!(r.turn(t0 + secs(16)), Turn::TimedOut);
    assert_eq!(start_error(), "錄製沒有開始（15秒內沒收到擷取成功的回報）");
}

#[test]
fn a_closed_tab_ends_the_recording_as_the_user_would() {
    let t0 = start();
    let mut r = Recording::new(t0, secs(60));
    write_of(r.see(&binding("S", r#"{"type":"chunk","data":"AA=="}"#), "S", "T", t0));
    let gone = |id: &str| CdpEvent {
        method: "Target.targetDestroyed".to_string(),
        params: Json::parse(&format!("{{\"targetId\":\"{id}\"}}")).unwrap(),
        session_id: None,
    };
    assert!(matches!(r.see(&gone("other"), "S", "T", t0), Act::Nothing));
    assert!(matches!(r.see(&gone("T"), "S", "T", t0), Act::Finish));
    assert_eq!(r.finish(t0, String::new(), String::new()).unwrap().stop, Stop::User);
}

#[test]
fn messages_of_others_and_broken_ones_are_not_heard() {
    let t0 = start();
    let mut r = Recording::new(t0, secs(60));
    assert!(matches!(r.see(&binding("X", r#"{"type":"stopped"}"#), "S", "T", t0), Act::Nothing));
    assert!(matches!(r.see(&binding("S", "not json"), "S", "T", t0), Act::Nothing));
    assert!(matches!(r.see(&binding("S", r#"{"type":"other"}"#), "S", "T", t0), Act::Nothing));
    assert!(write_of(r.see(&binding("S", r#"{"type":"chunk","data":"!!"}"#), "S", "T", t0)).is_empty());
    match r.see(&binding("S", r#"{"type":"error","message":"denied"}"#), "S", "T", t0) {
        Act::Fail(e) => assert_eq!(e, "錄製失敗：denied"),
        other => panic!("{other:?}"),
    }
    match r.see(&binding("S", r#"{"type":"error"}"#), "S", "T", t0) {
        Act::Fail(e) => assert_eq!(e, "錄製失敗：?"),
        other => panic!("{other:?}"),
    }
    assert_eq!(r.finish(t0, String::new(), String::new()).unwrap_err(), "什麼都沒錄到");
}

#[test]
fn replies_of_the_browser_are_read() {
    let j = Json::parse(r#"{"targetId":"T1"}"#).unwrap();
    assert_eq!(reply_id(&j, "targetId").unwrap(), "T1");
    assert_eq!(reply_id(&j, "sessionId").unwrap_err(), "沒有 sessionId");
    let v = Json::parse(r#"{"result":{"type":"string","value":"Clip"}}"#).unwrap();
    assert_eq!(eval_text(&v).as_deref(), Some("Clip"));
    assert_eq!(eval_text(&j), None);
    assert_eq!(supported_formats(Some(r#"["a","b"]"#)), ["a", "b"]);
    assert!(supported_formats(Some(r#"["a",1]"#)).is_empty());
    assert!(supported_formats(Some("nonsense")).is_empty());
    assert!(supported_formats(None).is_empty());
}
