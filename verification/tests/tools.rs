use haul::paths::Platform;
use haul::tools::{
    ensure, exe_name, fetch_came, fetch_whole, ffmpeg_url, next_step, update_ytdlp, ytdlp_url, Step,
};

#[test]
fn builds_urls_for_this_platform() {
    for os in ["macos", "windows", "linux"] {
        for arch in ["x86_64", "aarch64"] {
            assert!(ytdlp_url(os).unwrap().starts_with("https://"));
            assert!(ffmpeg_url(os, arch).unwrap().starts_with("https://"));
        }
    }
}

#[test]
fn unknown_platforms_are_named() {
    assert_eq!(ytdlp_url("plan9").unwrap_err(), "不支援的作業系統：plan9");
    assert_eq!(ffmpeg_url("linux", "riscv64").unwrap_err(), "不支援的平台：linux/riscv64");
    assert!(ffmpeg_url("windows", "aarch64").unwrap().ends_with("/ffmpeg-win32-x64"));
    assert!(ffmpeg_url("macos", "aarch64").unwrap().ends_with("/ffmpeg-darwin-arm64"));
    assert!(ffmpeg_url("linux", "x86_64").unwrap().ends_with("/ffmpeg-linux-x64"));
}

#[test]
fn exe_name_matches_platform() {
    let n = exe_name("yt-dlp", Platform::Windows);
    assert_eq!(n, "yt-dlp.exe");
    assert_eq!(exe_name("yt-dlp", Platform::MacOs), "yt-dlp");
    assert_eq!(exe_name("yt-dlp", Platform::Linux), "yt-dlp");
}

#[test]
fn both_programs_are_wanted_with_their_own_flags() {
    let (y, f) = ensure(r"C:\bin", "windows", "x86_64", Platform::Windows).unwrap();
    assert_eq!((y.name.as_str(), y.path.as_str(), y.flag.as_str()), ("yt-dlp", r"C:\bin\yt-dlp.exe", "--version"));
    assert_eq!((f.name.as_str(), f.path.as_str(), f.flag.as_str()), ("ffmpeg", r"C:\bin\ffmpeg.exe", "-version"));
    assert!(y.url.ends_with("/yt-dlp.exe"));
    assert!(ensure("/bin", "linux", "mips", Platform::Linux).is_err());
}

#[test]
fn a_program_is_fetched_once() {
    assert_eq!(next_step("ffmpeg", true, false), Ok(Step::Ready));
    assert_eq!(next_step("ffmpeg", false, false), Ok(Step::Fetch));
    assert_eq!(next_step("ffmpeg", true, true), Ok(Step::Ready));
    assert_eq!(
        next_step("ffmpeg", false, true).unwrap_err(),
        "ffmpeg 下載完成但無法執行，可能是架構不符"
    );
}

#[test]
fn fetches_that_fail_say_so() {
    assert!(fetch_came("u", 200, "200 OK").is_ok());
    assert_eq!(fetch_came("u", 404, "404 Not Found").unwrap_err(), "下載 u 失敗：HTTP 404 Not Found");
    assert!(fetch_whole(5, 0).is_ok());
    assert!(fetch_whole(5, 5).is_ok());
    assert_eq!(fetch_whole(4, 5).unwrap_err(), "下載不完整（4/5 bytes）");
    assert_eq!(update_ytdlp(true, b" up to date \n", b"x"), Ok("up to date".to_string()));
    assert_eq!(update_ytdlp(false, b"x", b" no \n"), Err("no".to_string()));
}
