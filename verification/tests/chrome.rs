use haul::browser::chrome::{
    boot, candidates, find, launch_args, parse_active_port, Boot, Place, ProgramDirs,
};
use haul::clock::Duration;
use haul::paths::Platform;

fn place(path: &str, is_file: bool) -> Place {
    Place { path: path.to_string(), is_file }
}

fn dirs() -> ProgramDirs {
    ProgramDirs {
        program_files: r"C:\Program Files".to_string(),
        program_files_x86: r"C:\Program Files (x86)".to_string(),
        local_app_data: String::new(),
    }
}

#[test]
fn parses_the_two_line_devtools_file() {
    let (port, path) = parse_active_port("54321\n/devtools/browser/abc-123\n").unwrap();
    assert_eq!(port, 54321);
    assert_eq!(path, "/devtools/browser/abc-123");
}

#[test]
fn rejects_half_written_devtools_file() {
    assert!(parse_active_port("54321\n").is_none());
    assert!(parse_active_port("").is_none());
    assert!(parse_active_port("abc\n/x").is_none());
}

#[test]
fn ports_have_sixteen_bits_and_blanks_do_not_matter() {
    assert!(parse_active_port("65536\n/x").is_none());
    assert_eq!(parse_active_port(" 65535 \r\n  /x \r\n"), Some((65535, "/x".to_string())));
    assert!(parse_active_port("1\n   \n").is_none());
}

#[test]
fn override_path_wins_but_must_exist() {
    let missing = place("/definitely/not/here", false);
    assert!(find(Some(missing), &vec![place("/usr/bin/chromium", true)]).is_err());
}

#[test]
fn the_first_usual_place_with_a_file_is_taken() {
    let usual = vec![place("/a", false), place("/b", true), place("/c", true)];
    assert_eq!(find(None, &usual).unwrap(), "/b");
    assert_eq!(find(Some(place("/mine", true)), &usual).unwrap(), "/mine");
    assert_eq!(
        find(Some(place("/mine", false)), &usual).unwrap_err(),
        "設定裡指定的瀏覽器不存在：/mine"
    );
    assert_eq!(
        find(None, &vec![]).unwrap_err(),
        "找不到 Chrome / Chromium / Edge / Brave。裝一個，或在設定裡指定路徑"
    );
}

#[test]
fn every_platform_has_its_usual_places() {
    assert_eq!(
        candidates(Platform::Linux, &dirs()),
        [
            "/usr/bin/google-chrome",
            "/usr/bin/chromium",
            "/usr/bin/chromium-browser",
            "/usr/bin/microsoft-edge",
            "/usr/bin/brave-browser"
        ]
    );
    let mac = candidates(Platform::MacOs, &dirs());
    assert_eq!(mac.len(), 4);
    assert_eq!(mac[0], "/Applications/Google Chrome.app/Contents/MacOS/Google Chrome");
    let win = candidates(Platform::Windows, &dirs());
    assert_eq!(win.len(), 12);
    assert_eq!(win[0], r"C:\Program Files\Google\Chrome\Application\chrome.exe");
    assert_eq!(win[6], r"C:\Program Files (x86)\Microsoft\Edge\Application\msedge.exe");
    assert_eq!(win[11], r"BraveSoftware\Brave-Browser\Application\brave.exe");
}

#[test]
fn the_browser_gets_its_own_profile_and_may_capture_itself() {
    let a = launch_args("/data/chrome");
    assert_eq!(a[0], "--user-data-dir=/data/chrome");
    assert!(a.contains(&"--remote-debugging-port=0".to_string()));
    assert!(a.contains(&"--auto-accept-this-tab-capture".to_string()));
    assert_eq!(a.last().unwrap(), "about:blank");
}

#[test]
fn booting_waits_until_the_port_is_there_or_the_time_is_up() {
    match boot(Some("9222\n/devtools/x\n"), Duration::from_secs(99)) {
        Boot::Ready(url) => assert_eq!(url, "ws://127.0.0.1:9222/devtools/x"),
        other => panic!("{other:?}"),
    }
    assert!(matches!(boot(Some("9222\n"), Duration::from_secs(10)), Boot::Wait));
    match boot(None, Duration::from_millis(10_001)) {
        Boot::Failed(e) => assert_eq!(e, "瀏覽器啟動後 10 秒內沒有回應"),
        other => panic!("{other:?}"),
    }
}

#[test]
fn a_bare_drive_gets_no_separator() {
    let roots = ProgramDirs { program_files: "C:".to_string(), ..dirs() };
    let win = candidates(Platform::Windows, &roots);
    assert_eq!(win[0], r"C:Google\Chrome\Application\chrome.exe");
    assert_eq!(win[4], r"C:\Program Files (x86)\Google\Chrome\Application\chrome.exe");
    assert_eq!(win[8], r"Google\Chrome\Application\chrome.exe");
}
