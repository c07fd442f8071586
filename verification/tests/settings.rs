use haul::paths::Platform;
use haul::settings::{Chime, Settings};

#[test]
fn missing_file_gives_defaults() {
    let s = Settings::load(None);
    assert_eq!(s.concurrency, 3);
    assert!(s.cookies_from.is_none());
    assert!(s.chime.enabled);
    assert!(s.chime.file.is_none());
    assert_eq!(s.record_max_secs, 3 * 3600);
}

#[test]
fn what_was_stored_is_kept() {
    let mut s = Settings::default();
    s.cookies_from = Some("chrome".into());
    s.chime = Chime { enabled: false, file: Some("/tmp/ding.mp3".into()) };
    let back = Settings::load(Some(s));
    assert_eq!(back.cookies_from.as_deref(), Some("chrome"));
    assert!(!back.chime.enabled);
    assert_eq!(back.chime.file.as_deref(), Some("/tmp/ding.mp3"));
    assert_eq!(Settings::path_in(Platform::Linux, "/app"), "/app/settings.json");
}
