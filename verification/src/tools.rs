//! The programs that do the work, yt-dlp and ffmpeg: where they come from and
//! whether they can be used.

use vstd::prelude::*;
use crate::codec::{lossy, utf8_lossy};
use crate::number::{decimal, to_decimal};
use crate::paths::{self, Platform};
use crate::text::{cat, cat3, followed, outcome, same, trim, trimmed};

verus! {

/// The programs in use.
#[derive(Clone, Debug)]
pub struct Tools {
    pub ytdlp: String,
    pub ffmpeg: String,
}

/// Where yt-dlp is offered for a system.
pub open spec fn ytdlp_at(os: Seq<char>) -> Result<Seq<char>, Seq<char>> {
    if os == "macos"@ {
        Ok("https://github.com/yt-dlp/yt-dlp/releases/latest/download/yt-dlp_macos"@)
    } else if os == "windows"@ {
        Ok("https://github.com/yt-dlp/yt-dlp/releases/latest/download/yt-dlp.exe"@)
    } else if os == "linux"@ {
        Ok("https://github.com/yt-dlp/yt-dlp/releases/latest/download/yt-dlp_linux"@)
    } else {
        Err("不支援的作業系統："@ + os)
    }
}

pub fn ytdlp_url(os: &str) -> (r: Result<String, String>)
    ensures
        outcome(r) == ytdlp_at(os@),
{
    if same(os, "macos") {
        Ok("https://github.com/yt-dlp/yt-dlp/releases/latest/download/yt-dlp_macos".to_owned())
    } else if same(os, "windows") {
        Ok("https://github.com/yt-dlp/yt-dlp/releases/latest/download/yt-dlp.exe".to_owned())
    } else if same(os, "linux") {
        Ok("https://github.com/yt-dlp/yt-dlp/releases/latest/download/yt-dlp_linux".to_owned())
    } else {
        Err(cat("不支援的作業系統：", os))
    }
}

/// What ffmpeg's build for a system and a processor is called. Windows on ARM
/// runs that for the other processor.
pub open spec fn ffmpeg_build(os: Seq<char>, arch: Seq<char>) -> Option<Seq<char>> {
    if os == "macos"@ && arch == "aarch64"@ {
        Some("darwin-arm64"@)
    } else if os == "macos"@ && arch == "x86_64"@ {
        Some("darwin-x64"@)
    } else if os == "windows"@ && (arch == "x86_64"@ || arch == "aarch64"@) {
        Some("win32-x64"@)
    } else if os == "linux"@ && arch == "x86_64"@ {
        Some("linux-x64"@)
    } else if os == "linux"@ && arch == "aarch64"@ {
        Some("linux-arm64"@)
    } else {
        None
    }
}

pub open spec fn ffmpeg_at(os: Seq<char>, arch: Seq<char>) -> Result<Seq<char>, Seq<char>> {
    match ffmpeg_build(os, arch) {
        Some(b) => Ok(
            "https://github.com/eugeneware/ffmpeg-static/releases/latest/download/ffmpeg-"@ + b,
        ),
        None => Err("不支援的平台："@ + os + "/"@ + arch),
    }
}

/// Where ffmpeg is offered for a system and a processor.
pub fn ffmpeg_url(os: &str, arch: &str) -> (r: Result<String, String>)
    ensures
        outcome(r) == ffmpeg_at(os@, arch@),
{
    let build = if same(os, "macos") && same(arch, "aarch64") {
        "darwin-arm64"
    } else if same(os, "macos") && same(arch, "x86_64") {
        "darwin-x64"
    } else if same(os, "windows") && (same(arch, "x86_64") || same(arch, "aarch64")) {
        "win32-x64"
    } else if same(os, "linux") && same(arch, "x86_64") {
        "linux-x64"
    } else if same(os, "linux") && same(arch, "aarch64") {
        "linux-arm64"
    } else {
        return Err(cat(cat3("不支援的平台：", os, "/").as_str(), arch));
    };
    Ok(
        cat(
            "https://github.com/eugeneware/ffmpeg-static/releases/latest/download/ffmpeg-",
            build,
        ),
    )
}

/// The file name of a program.
pub open spec fn program_name(stem: Seq<char>, platform: Platform) -> Seq<char> {
    if platform == Platform::Windows {
        stem + ".exe"@
    } else {
        stem
    }
}

pub fn exe_name(stem: &str, platform: Platform) -> (r: String)
    ensures
        r@ == program_name(stem@, platform),
{
    if platform == Platform::Windows {
        cat(stem, ".exe")
    } else {
        stem.to_owned()
    }
}

/// A program to have: where it lies, where it is offered, and the flag that
/// makes it tell its version.
#[derive(Debug)]
pub struct Wanted {
    pub name: String,
    pub path: String,
    pub url: String,
    pub flag: String,
}

/// What a wanted program says.
#[verifier::ext_equal]
pub struct WantedView {
    pub name: Seq<char>,
    pub path: Seq<char>,
    pub url: Seq<char>,
    pub flag: Seq<char>,
}

impl View for Wanted {
    type V = WantedView;

    open spec fn view(&self) -> WantedView {
        WantedView { name: self.name@, path: self.path@, url: self.url@, flag: self.flag@ }
    }
}

/// The programs to have in a directory. yt-dlp tells its version with two
/// dashes, ffmpeg with one.
pub fn ensure(dir: &str, os: &str, arch: &str, platform: Platform) -> (r: Result<
    (Wanted, Wanted),
    String,
>)
    ensures
        match r {
            Ok(w) => {
                &&& ytdlp_at(os@) == Ok::<Seq<char>, Seq<char>>(w.0@.url)
                &&& ffmpeg_at(os@, arch@) == Ok::<Seq<char>, Seq<char>>(w.1@.url)
                &&& w.0@.name == "yt-dlp"@
                &&& w.0@.path == paths::joined(platform, dir@, program_name("yt-dlp"@, platform))
                &&& w.0@.flag == "--version"@
                &&& w.1@.name == "ffmpeg"@
                &&& w.1@.path == paths::joined(platform, dir@, program_name("ffmpeg"@, platform))
                &&& w.1@.flag == "-version"@
            },
            Err(e) => match (ytdlp_at(os@), ffmpeg_at(os@, arch@)) {
                (Err(why), _) => e@ == why,
                (Ok(_), Err(why)) => e@ == why,
                (Ok(_), Ok(_)) => false,
            },
        },
{
    let first = match ytdlp_url(os) {
        Ok(u) => u,
        Err(e) => {
            return Err(e);
        },
    };
    let second = match ffmpeg_url(os, arch) {
        Ok(u) => u,
        Err(e) => {
            return Err(e);
        },
    };
    Ok(
        (
            Wanted {
                name: "yt-dlp".to_owned(),
                path: paths::join(platform, dir, exe_name("yt-dlp", platform).as_str()),
                url: first,
                flag: "--version".to_owned(),
            },
            Wanted {
                name: "ffmpeg".to_owned(),
                path: paths::join(platform, dir, exe_name("ffmpeg", platform).as_str()),
                url: second,
                flag: "-version".to_owned(),
            },
        ),
    )
}

/// What to do about a program.
#[derive(Debug, Clone, Copy, PartialEq, Eq, Structural)]
pub enum Step {
    /// It works.
    Ready,
    /// It has to be fetched.
    Fetch,
}

/// What to do about a program, given whether it works and whether it has just
/// been fetched. One that was fetched and does not work is for another machine.
pub fn next_step(name: &str, works: bool, fetched: bool) -> (r: Result<Step, String>)
    ensures
        match r {
            Ok(s) => s == (if works {
                Step::Ready
            } else {
                Step::Fetch
            }) && (works || !fetched),
            Err(e) => !works && fetched && e@ == name@ + " 下載完成但無法執行，可能是架構不符"@,
        },
        r.ok() == step_for(works, fetched),
{
    if works {
        return Ok(Step::Ready);
    }
    if fetched {
        return Err(cat(name, " 下載完成但無法執行，可能是架構不符"));
    }
    Ok(Step::Fetch)
}

/// Refuses a download that did not come. `status_text` is the status as it is
/// shown.
pub fn fetch_came(url: &str, status: u16, status_text: &str) -> (r: Result<(), String>)
    ensures
        match r {
            Ok(_) => crate::direct::success(status),
            Err(e) => !crate::direct::success(status) && e@ == "下載 "@ + url@ + " 失敗：HTTP "@
                + status_text@,
        },
{
    if 200 <= status && status < 300 {
        return Ok(());
    }
    Err(cat(cat3("下載 ", url, " 失敗：HTTP ").as_str(), status_text))
}

/// Refuses a download that is not as long as it was announced.
pub fn fetch_whole(got: u64, total: u64) -> (r: Result<(), String>)
    ensures
        match r {
            Ok(_) => total == 0 || got == total,
            Err(e) => total > 0 && got != total && e@ == "下載不完整（"@ + decimal(got as nat) + "/"@
                + decimal(total as nat) + " bytes）"@,
        },
{
    if total > 0 && got != total {
        let front = cat3("下載不完整（", to_decimal(got).as_str(), "/");
        return Err(cat3(front.as_str(), to_decimal(total).as_str(), " bytes）"));
    }
    Ok(())
}

/// What yt-dlp said of its own update.
pub fn update_ytdlp(succeeded: bool, stdout: &[u8], stderr: &[u8]) -> (r: Result<String, String>)
    ensures
        outcome(r) == (if succeeded {
            Ok(trimmed(utf8_lossy(stdout@)))
        } else {
            Err(trimmed(utf8_lossy(stderr@)))
        }),
{
    if succeeded {
        let text = lossy(stdout);
        Ok(trim(text.as_str()).to_owned())
    } else {
        let text = lossy(stderr);
        Err(trim(text.as_str()).to_owned())
    }
}

/// Each system gets its own build of yt-dlp; a system that is not known gets none.
pub proof fn law_each_system_has_its_ytdlp(os: Seq<char>)
    ensures
        os == "macos"@ ==> ytdlp_at(os) == Ok::<Seq<char>, Seq<char>>(
            "https://github.com/yt-dlp/yt-dlp/releases/latest/download/yt-dlp_macos"@,
        ),
        os == "windows"@ ==> ytdlp_at(os) == Ok::<Seq<char>, Seq<char>>(
            "https://github.com/yt-dlp/yt-dlp/releases/latest/download/yt-dlp.exe"@,
        ),
        os == "linux"@ ==> ytdlp_at(os) == Ok::<Seq<char>, Seq<char>>(
            "https://github.com/yt-dlp/yt-dlp/releases/latest/download/yt-dlp_linux"@,
        ),
        os != "macos"@ && os != "windows"@ && os != "linux"@ ==> ytdlp_at(os) is Err,
{
    lemma_systems_differ();
}

proof fn lemma_systems_differ()
    ensures
        "macos"@ != "windows"@ && "macos"@ != "linux"@ && "linux"@ != "windows"@,
        "aarch64"@ != "x86_64"@,
{
    reveal_strlit("macos");
    reveal_strlit("windows");
    reveal_strlit("linux");
    reveal_strlit("aarch64");
    reveal_strlit("x86_64");
    assert("macos"@[0] != "linux"@[0]);
    assert("macos"@.len() != "windows"@.len() && "linux"@.len() != "windows"@.len());
    assert("aarch64"@.len() != "x86_64"@.len());
}

/// Each system and processor gets its own build of ffmpeg.
pub proof fn law_each_machine_has_its_ffmpeg(os: Seq<char>, arch: Seq<char>)
    ensures
        os == "macos"@ && arch == "aarch64"@ ==> ffmpeg_at(os, arch) == Ok::<Seq<char>, Seq<char>>(
            "https://github.com/eugeneware/ffmpeg-static/releases/latest/download/ffmpeg-"@
                + "darwin-arm64"@,
        ),
        os == "macos"@ && arch == "x86_64"@ ==> ffmpeg_at(os, arch) == Ok::<Seq<char>, Seq<char>>(
            "https://github.com/eugeneware/ffmpeg-static/releases/latest/download/ffmpeg-"@
                + "darwin-x64"@,
        ),
        os == "windows"@ && (arch == "x86_64"@ || arch == "aarch64"@) ==> ffmpeg_at(os, arch) == Ok::<
            Seq<char>,
            Seq<char>,
        >(
            "https://github.com/eugeneware/ffmpeg-static/releases/latest/download/ffmpeg-"@
                + "win32-x64"@,
        ),
        os == "linux"@ && arch == "x86_64"@ ==> ffmpeg_at(os, arch) == Ok::<Seq<char>, Seq<char>>(
            "https://github.com/eugeneware/ffmpeg-static/releases/latest/download/ffmpeg-"@
                + "linux-x64"@,
        ),
        os == "linux"@ && arch == "aarch64"@ ==> ffmpeg_at(os, arch) == Ok::<Seq<char>, Seq<char>>(
            "https://github.com/eugeneware/ffmpeg-static/releases/latest/download/ffmpeg-"@
                + "linux-arm64"@,
        ),
        arch != "x86_64"@ && arch != "aarch64"@ ==> ffmpeg_at(os, arch) is Err,
        os != "macos"@ && os != "windows"@ && os != "linux"@ ==> ffmpeg_at(os, arch) is Err,
{
    lemma_systems_differ();
}

/// A program's file has the ending of programs on Windows and none elsewhere.
pub proof fn law_programs_end_in_exe_on_windows(stem: Seq<char>)
    ensures
        program_name(stem, Platform::Windows) == stem + ".exe"@,
        program_name(stem, Platform::MacOs) == stem,
        program_name(stem, Platform::Linux) == stem,
{
}

/// The words for a machine that is not served.
pub proof fn law_unserved_machines_are_told(os: Seq<char>, arch: Seq<char>)
    requires
        os != "macos"@ && os != "windows"@ && os != "linux"@,
    ensures
        ytdlp_at(os) == Err::<Seq<char>, Seq<char>>("不支援的作業系統："@ + os),
        ffmpeg_at(os, arch) == Err::<Seq<char>, Seq<char>>("不支援的平台："@ + os + "/"@ + arch),
{
}

/// What a wanted is taken to say is what it holds.
pub proof fn law_said_of_wanted(x: Wanted)
    ensures
        x@.name == x.name@,
        x@.path == x.path@,
        x@.url == x.url@,
        x@.flag == x.flag@,
{
}

/// The next step for a program; none where a fresh one does not work.
pub open spec fn step_for(works: bool, fetched: bool) -> Option<Step> {
    if works {
        Some(Step::Ready)
    } else if fetched {
        None
    } else {
        Some(Step::Fetch)
    }
}

/// A program that works is ready; one that does not is fetched once.
pub proof fn law_programs_are_fetched_once(fetched: bool)
    ensures
        step_for(true, fetched) == Some(Step::Ready),
        step_for(false, false) == Some(Step::Fetch),
        step_for(false, true) is None,
{
}

} // verus!
