//! Finding a Chrome, Chromium, Edge or Brave and starting it.

use vstd::prelude::*;
use crate::number::{decimal, parse, parsed, to_decimal};
use crate::paths::{join, joined, Platform};
use crate::text::{cat, cat3, lines, lines_of, outcome, push_text, texts, trim, trimmed};

verus! {

/// Where Windows keeps installed programs.
pub struct ProgramDirs {
    pub program_files: String,
    pub program_files_x86: String,
    pub local_app_data: String,
}

pub open spec fn windows_candidates(root: Seq<char>) -> Seq<Seq<char>> {
    seq![
        joined(Platform::Windows, root, r"Google\Chrome\Application\chrome.exe"@),
        joined(Platform::Windows, root, r"Chromium\Application\chrome.exe"@),
        joined(Platform::Windows, root, r"Microsoft\Edge\Application\msedge.exe"@),
        joined(Platform::Windows, root, r"BraveSoftware\Brave-Browser\Application\brave.exe"@),
    ]
}

pub open spec fn mac_candidate(app: Seq<char>) -> Seq<char> {
    "/Applications/"@ + app + ".app/Contents/MacOS/"@ + app
}

/// The usual places of a browser, the preferred ones first.
pub open spec fn usual_places(platform: Platform, dirs: ProgramDirs) -> Seq<Seq<char>> {
    match platform {
        Platform::MacOs => seq![
            mac_candidate("Google Chrome"@),
            mac_candidate("Chromium"@),
            mac_candidate("Microsoft Edge"@),
            mac_candidate("Brave Browser"@),
        ],
        Platform::Windows => windows_candidates(dirs.program_files@) + windows_candidates(
            dirs.program_files_x86@,
        ) + windows_candidates(dirs.local_app_data@),
        Platform::Linux => seq![
            "/usr/bin/"@ + "google-chrome"@,
            "/usr/bin/"@ + "chromium"@,
            "/usr/bin/"@ + "chromium-browser"@,
            "/usr/bin/"@ + "microsoft-edge"@,
            "/usr/bin/"@ + "brave-browser"@,
        ],
    }
}

fn push_windows(v: &mut Vec<String>, root: &str)
    ensures
        texts(final(v)@) == texts(old(v)@) + windows_candidates(root@),
{
    push_text(v, join(Platform::Windows, root, r"Google\Chrome\Application\chrome.exe").as_str());
    push_text(v, join(Platform::Windows, root, r"Chromium\Application\chrome.exe").as_str());
    push_text(v, join(Platform::Windows, root, r"Microsoft\Edge\Application\msedge.exe").as_str());
    push_text(v, join(Platform::Windows, root, r"BraveSoftware\Brave-Browser\Application\brave.exe").as_str());
    proof {
        assert(texts(v@) =~= texts(old(v)@) + windows_candidates(root@));
    }
}

fn push_mac(v: &mut Vec<String>, app: &str)
    ensures
        texts(final(v)@) == texts(old(v)@).push(mac_candidate(app@)),
{
    let place = cat(cat3("/Applications/", app, ".app/Contents/MacOS/").as_str(), app);
    push_text(v, place.as_str());
}

/// The usual places of a browser, the preferred ones first.
pub fn candidates(platform: Platform, dirs: &ProgramDirs) -> (r: Vec<String>)
    ensures
        texts(r@) == usual_places(platform, *dirs),
{
    let mut v: Vec<String> = Vec::new();
    match platform {
        Platform::MacOs => {
            push_mac(&mut v, "Google Chrome");
            push_mac(&mut v, "Chromium");
            push_mac(&mut v, "Microsoft Edge");
            push_mac(&mut v, "Brave Browser");
        },
        Platform::Windows => {
            push_windows(&mut v, dirs.program_files.as_str());
            push_windows(&mut v, dirs.program_files_x86.as_str());
            push_windows(&mut v, dirs.local_app_data.as_str());
        },
        Platform::Linux => {
            push_text(&mut v, cat("/usr/bin/", "google-chrome").as_str());
            push_text(&mut v, cat("/usr/bin/", "chromium").as_str());
            push_text(&mut v, cat("/usr/bin/", "chromium-browser").as_str());
            push_text(&mut v, cat("/usr/bin/", "microsoft-edge").as_str());
            push_text(&mut v, cat("/usr/bin/", "brave-browser").as_str());
        },
    }
    proof {
        assert(texts(v@) =~= usual_places(platform, *dirs));
    }
    v
}

/// A path, and whether a file is there.
pub struct Place {
    pub path: String,
    pub is_file: bool,
}

/// The browser to start: the one that is asked for or, with none asked for,
/// the first of the usual places with a file in it. One that is asked for and
/// not there is an error, never replaced by another.
pub open spec fn chosen(asked: Option<Place>, usual: Seq<Place>) -> Result<Seq<char>, Seq<char>>
    decreases usual.len(),
{
    match asked {
        Some(p) => if p.is_file {
            Ok(p.path@)
        } else {
            Err("設定裡指定的瀏覽器不存在："@ + p.path@)
        },
        None => if usual.len() == 0 {
            Err("找不到 Chrome / Chromium / Edge / Brave。裝一個，或在設定裡指定路徑"@)
        } else if usual[0].is_file {
            Ok(usual[0].path@)
        } else {
            chosen(None, usual.skip(1))
        },
    }
}

/// Picks the browser to start, given which paths hold a file.
pub fn find(override_path: Option<Place>, usual: &Vec<Place>) -> (r: Result<String, String>)
    ensures
        outcome(r) == chosen(override_path, usual@),
{
    if let Some(p) = &override_path {
        if p.is_file {
            return Ok(p.path.as_str().to_owned());
        }
        return Err(cat("設定裡指定的瀏覽器不存在：", p.path.as_str()));
    }
    let mut i: usize = 0;
    proof {
        assert(usual@.skip(0) =~= usual@);
    }
    while i < usual.len()
        invariant
            override_path is None,
            i <= usual@.len(),
            chosen(None, usual@.skip(i as int)) == chosen(None, usual@),
        decreases usual@.len() - i,
    {
        proof {
            assert(usual@.skip(i as int)[0] == usual@[i as int]);
            assert(usual@.skip(i as int).skip(1) =~= usual@.skip(i + 1));
        }
        if usual[i].is_file {
            return Ok(usual[i].path.as_str().to_owned());
        }
        i += 1;
    }
    Err("找不到 Chrome / Chromium / Edge / Brave。裝一個，或在設定裡指定路徑".to_owned())
}

/// The port and the path in the first two lines of `DevToolsActivePort`.
pub open spec fn active_port(text: Seq<char>) -> Option<(u16, Seq<char>)> {
    let l = lines(text);
    if l.len() < 2 {
        None
    } else {
        match parsed(trimmed(l[0]), u16::MAX as nat) {
            Some(port) => if trimmed(l[1]).len() == 0 {
                None
            } else {
                Some((port as u16, trimmed(l[1])))
            },
            None => None,
        }
    }
}

/// Reads the port and the WebSocket path that the browser wrote down. A file
/// that is only half written gives nothing.
pub fn parse_active_port(text: &str) -> (r: Option<(u16, String)>)
    ensures
        match r {
            Some(p) => active_port(text@) == Some((p.0, p.1@)),
            None => active_port(text@) is None,
        },
{
    let l = lines_of(text);
    proof {
        assert(texts(l@).len() == l@.len());
    }
    if l.len() < 2 {
        return None;
    }
    proof {
        assert(texts(l@)[0] == l@[0]@);
        assert(texts(l@)[1] == l@[1]@);
    }
    match parse(trim(l[0].as_str()), u16::MAX as u64) {
        Some(port) => {
            let path = trim(l[1].as_str());
            if path.unicode_len() == 0 {
                None
            } else {
                Some((port as u16, path.to_owned()))
            }
        },
        None => None,
    }
}

pub open spec fn launch_line(data_dir: Seq<char>) -> Seq<Seq<char>> {
    seq![
        "--user-data-dir="@ + data_dir,
        "--remote-debugging-port=0"@,
        "--no-first-run"@,
        "--no-default-browser-check"@,
        "--autoplay-policy=no-user-gesture-required"@,
        "--auto-accept-this-tab-capture"@,
        "about:blank"@,
    ]
}

/// What the browser is started with. It picks the debugging port itself and
/// writes it down in its data directory; media may play without a click, and a
/// tab may capture itself without being asked.
pub fn launch_args(data_dir: &str) -> (r: Vec<String>)
    ensures
        texts(r@) == launch_line(data_dir@),
{
    let mut v: Vec<String> = Vec::new();
    push_text(&mut v, cat("--user-data-dir=", data_dir).as_str());
    push_text(&mut v, "--remote-debugging-port=0");
    push_text(&mut v, "--no-first-run");
    push_text(&mut v, "--no-default-browser-check");
    push_text(&mut v, "--autoplay-policy=no-user-gesture-required");
    push_text(&mut v, "--auto-accept-this-tab-capture");
    push_text(&mut v, "about:blank");
    proof {
        assert(texts(v@) =~= launch_line(data_dir@));
    }
    v
}

/// The seconds that a started browser has to write its port down.
pub const BOOT_TIMEOUT: u64 = 10;

/// What to do after a look at the port file of a browser that is starting.
#[derive(Debug)]
pub enum Boot {
    /// It can be reached at this address.
    Ready(String),
    /// Look again in a moment.
    Wait,
    /// It took too long.
    Failed(String),
}

/// What a boot step says.
pub enum BootView {
    Ready(Seq<char>),
    Wait,
    Failed(Seq<char>),
}

impl View for Boot {
    type V = BootView;

    open spec fn view(&self) -> BootView {
        match self {
            Boot::Ready(s) => BootView::Ready(s@),
            Boot::Wait => BootView::Wait,
            Boot::Failed(s) => BootView::Failed(s@),
        }
    }
}

/// The next step of the wait for a starting browser: the address, as soon as
/// the port file is complete, else another look until the time is up.
pub open spec fn boot_step(port_file: Option<Seq<char>>, waited: crate::clock::Duration) -> BootView {
    match port_file {
        Some(text) => match active_port(text) {
            Some(p) => BootView::Ready("ws://127.0.0.1:"@ + decimal(p.0 as nat) + p.1),
            None => late(waited),
        },
        None => late(waited),
    }
}

pub open spec fn late(waited: crate::clock::Duration) -> BootView {
    if waited.nanos > BOOT_TIMEOUT * 1_000_000_000 {
        BootView::Failed("瀏覽器啟動後 "@ + decimal(BOOT_TIMEOUT as nat) + " 秒內沒有回應"@)
    } else {
        BootView::Wait
    }
}

/// The next step of the wait for a starting browser, given what the port file
/// holds, if it can be read, and how long the wait has been.
pub fn boot(port_file: Option<&str>, waited: crate::clock::Duration) -> (r: Boot)
    ensures
        r@ == boot_step(crate::text::str_of(port_file), waited),
{
    if let Some(text) = port_file {
        if let Some(p) = parse_active_port(text) {
            return Boot::Ready(
                cat3("ws://127.0.0.1:", to_decimal(p.0 as u64).as_str(), p.1.as_str()),
            );
        }
    }
    if waited.nanos > BOOT_TIMEOUT as u128 * 1_000_000_000 {
        Boot::Failed(
            cat3("瀏覽器啟動後 ", to_decimal(BOOT_TIMEOUT).as_str(), " 秒內沒有回應"),
        )
    } else {
        Boot::Wait
    }
}

/// A browser that is asked for and missing is refused, whatever else is
/// installed.
pub proof fn law_missing_choice_is_refused(asked: Place, usual: Seq<Place>)
    requires
        !asked.is_file,
    ensures
        chosen(Some(asked), usual) is Err,
{
}

/// The browsers are looked for in this order: Chrome, Chromium, Edge, Brave.
pub proof fn law_chrome_comes_first(dirs: ProgramDirs)
    ensures
        usual_places(Platform::Linux, dirs).len() == 5,
        usual_places(Platform::Linux, dirs)[0] == "/usr/bin/"@ + "google-chrome"@,
        usual_places(Platform::Linux, dirs)[1] == "/usr/bin/"@ + "chromium"@,
        usual_places(Platform::Linux, dirs)[3] == "/usr/bin/"@ + "microsoft-edge"@,
        usual_places(Platform::Linux, dirs)[4] == "/usr/bin/"@ + "brave-browser"@,
        usual_places(Platform::MacOs, dirs).len() == 4,
        usual_places(Platform::MacOs, dirs)[0] == "/Applications/"@ + "Google Chrome"@
            + ".app/Contents/MacOS/"@ + "Google Chrome"@,
        usual_places(Platform::MacOs, dirs)[3] == "/Applications/"@ + "Brave Browser"@
            + ".app/Contents/MacOS/"@ + "Brave Browser"@,
        usual_places(Platform::Windows, dirs).len() == 12,
        usual_places(Platform::Windows, dirs)[0] == joined(
            Platform::Windows,
            dirs.program_files@,
            r"Google\Chrome\Application\chrome.exe"@,
        ),
        usual_places(Platform::Windows, dirs)[4] == joined(
            Platform::Windows,
            dirs.program_files_x86@,
            r"Google\Chrome\Application\chrome.exe"@,
        ),
        usual_places(Platform::Windows, dirs)[8] == joined(
            Platform::Windows,
            dirs.local_app_data@,
            r"Google\Chrome\Application\chrome.exe"@,
        ),
        usual_places(Platform::Windows, dirs)[2] == joined(
            Platform::Windows,
            dirs.program_files@,
            r"Microsoft\Edge\Application\msedge.exe"@,
        ),
{
}

/// The browser that is asked for is taken where it is there. With none asked for, the
/// first that is there is.
pub proof fn law_browser_is_chosen(asked: Place, first: Place, rest: Seq<Place>)
    ensures
        asked.is_file ==> chosen(Some(asked), rest) == Ok::<Seq<char>, Seq<char>>(asked.path@),
        first.is_file ==> chosen(None, seq![first] + rest) == Ok::<Seq<char>, Seq<char>>(first.path@),
        !first.is_file ==> chosen(None, seq![first] + rest) == chosen(None, rest),
        chosen(None, seq![]) is Err,
{
    assert((seq![first] + rest).skip(1) =~= rest);
}

/// A browser is reached at the port and the path that it wrote down.
#[verifier::rlimit(40)]
pub proof fn law_browser_is_reached(port: u16, path: Seq<char>, waited: crate::clock::Duration)
    requires
        path.len() > 0,
        forall|i: int| 0 <= i < path.len() ==> !crate::text::white(#[trigger] path[i]),
    ensures
        active_port(decimal(port as nat) + "\n"@ + path) == Some((port, path)),
        boot_step(Some(decimal(port as nat) + "\n"@ + path), waited) == BootView::Ready(
            "ws://127.0.0.1:"@ + decimal(port as nat) + path,
        ),
        active_port(decimal(port as nat)) is None,
{
    reveal_strlit("\n");
    let d = decimal(port as nat);
    crate::number::lemma_decimal(port as nat);
    assert(!d.contains('\n') && !d.contains('\r')) by {
        if d.contains('\n') {
            let i = d.index_of('\n');
            assert(crate::text::digit(d[i]));
        }
        if d.contains('\r') {
            let i = d.index_of('\r');
            assert(crate::text::digit(d[i]));
        }
    }
    assert(!path.contains('\n') && !path.contains('\r')) by {
        if path.contains('\n') {
            let i = path.index_of('\n');
            assert(!crate::text::white(path[i]));
        }
        if path.contains('\r') {
            let i = path.index_of('\r');
            assert(!crate::text::white(path[i]));
        }
    }
    crate::text::law_lines_end_at_line_feeds(d, path);
    crate::text::law_lines_end_at_line_feeds(path, seq![]);
    assert(d + "\n"@ + path =~= d + seq!['\n'] + path);
    assert(lines(d + "\n"@ + path) =~= seq![d, path]);
    assert forall|i: int| 0 <= i < d.len() implies !crate::text::white(#[trigger] d[i]) by {
        assert(crate::text::digit(d[i]));
    }
    crate::text::lemma_trimmed_same(d);
    crate::text::lemma_trimmed_same(path);
    crate::number::law_decimal_reads_back(port as nat, u16::MAX as nat);
}

/// A browser that has not answered is waited for ten seconds, and no longer.
pub proof fn law_browsers_have_ten_seconds(waited: crate::clock::Duration)
    ensures
        waited.nanos <= 10_000_000_000 ==> boot_step(None, waited) == BootView::Wait,
        waited.nanos > 10_000_000_000 ==> boot_step(None, waited) is Failed,
{
}

/// The browser is started on its own data, lets itself be steered, and lets media play
/// and its tab be captured unasked.
pub proof fn law_browser_is_started_apart(data_dir: Seq<char>)
    ensures
        launch_line(data_dir).contains("--user-data-dir="@ + data_dir),
        launch_line(data_dir).contains("--remote-debugging-port=0"@),
        launch_line(data_dir).contains("--autoplay-policy=no-user-gesture-required"@),
        launch_line(data_dir).contains("--auto-accept-this-tab-capture"@),
        launch_line(data_dir).contains("--no-first-run"@),
        launch_line(data_dir).last() == "about:blank"@,
{
    let l = launch_line(data_dir);
    assert(l[0] == "--user-data-dir="@ + data_dir && l[1] == "--remote-debugging-port=0"@ && l[2]
        == "--no-first-run"@ && l[4] == "--autoplay-policy=no-user-gesture-required"@ && l[5]
        == "--auto-accept-this-tab-capture"@);
}

/// Where each browser lies, and in which order.
pub proof fn law_places_of_the_browsers(dirs: ProgramDirs, root: Seq<char>)
    ensures
        windows_candidates(root) == seq![
            joined(Platform::Windows, root, r"Google\Chrome\Application\chrome.exe"@),
            joined(Platform::Windows, root, r"Chromium\Application\chrome.exe"@),
            joined(Platform::Windows, root, r"Microsoft\Edge\Application\msedge.exe"@),
            joined(
                Platform::Windows,
                root,
                r"BraveSoftware\Brave-Browser\Application\brave.exe"@,
            ),
        ],
        usual_places(Platform::MacOs, dirs)[1] == "/Applications/"@ + "Chromium"@
            + ".app/Contents/MacOS/"@ + "Chromium"@,
        usual_places(Platform::MacOs, dirs)[2] == "/Applications/"@ + "Microsoft Edge"@
            + ".app/Contents/MacOS/"@ + "Microsoft Edge"@,
        usual_places(Platform::Linux, dirs)[2] == "/usr/bin/"@ + "chromium-browser"@,
        usual_places(Platform::Windows, dirs) == windows_candidates(dirs.program_files@)
            + windows_candidates(dirs.program_files_x86@) + windows_candidates(dirs.local_app_data@),
        launch_line(root).contains("--no-default-browser-check"@),
{
    assert(launch_line(root)[3] == "--no-default-browser-check"@);
}

/// The words for a browser that is not there, and for one that does not answer.
pub proof fn law_missing_browsers_are_told(p: Place, waited: crate::clock::Duration)
    ensures
        !p.is_file ==> chosen(Some(p), seq![]) == Err::<Seq<char>, Seq<char>>(
            "設定裡指定的瀏覽器不存在："@ + p.path@,
        ),
        chosen(None, seq![]) == Err::<Seq<char>, Seq<char>>(
            "找不到 Chrome / Chromium / Edge / Brave。裝一個，或在設定裡指定路徑"@,
        ),
        waited.nanos > 10_000_000_000 ==> boot_step(None, waited) == BootView::Failed(
            "瀏覽器啟動後 "@ + decimal(10) + " 秒內沒有回應"@,
        ),
{
}

/// What a boot is taken to say is what it holds.
pub proof fn law_said_of_boot(x: Boot)
    ensures
        match x {
            Boot::Ready(s) => x@ == (BootView::Ready(s@)),
            Boot::Wait => x@ == (BootView::Wait),
            Boot::Failed(s) => x@ == (BootView::Failed(s@)),
        },
{
}

/// White space around the port and the path does not count.
#[verifier::rlimit(40)]
pub proof fn law_port_file_may_have_blanks(port: u16, path: Seq<char>)
    requires
        path.len() > 0,
        forall|i: int| 0 <= i < path.len() ==> !crate::text::white(#[trigger] path[i]),
    ensures
        active_port(decimal(port as nat) + seq![' ', '\n', ' '] + path + seq![' ']) == Some((port, path)),
{
    let d = decimal(port as nat);
    crate::number::lemma_decimal(port as nat);
    let a = d + seq![' '];
    let b = seq![' '] + path + seq![' '];
    assert forall|i: int| 0 <= i < a.len() implies #[trigger] a[i] != '\n' && a[i] != '\r' by {
        if i < d.len() {
            assert(crate::text::digit(d[i]));
        }
    }
    assert forall|i: int| 0 <= i < b.len() implies #[trigger] b[i] != '\n' && b[i] != '\r' by {
        if 0 < i < b.len() - 1 {
            assert(!crate::text::white(path[i - 1]));
        }
    }
    crate::text::law_lines_end_at_line_feeds(a, b);
    crate::text::law_lines_end_at_line_feeds(b, seq![]);
    let text = d + seq![' ', '\n', ' '] + path + seq![' '];
    assert(text =~= a + seq!['\n'] + b);
    assert(lines(text) =~= seq![a, b]);
    assert(crate::text::digit(d[0]) && crate::text::digit(d[d.len() - 1]));
    crate::text::law_ends_are_trimmed(seq![], d, seq![' ']);
    assert(seq![] + d + seq![' '] =~= a);
    assert(!crate::text::white(path[0]) && !crate::text::white(path[path.len() - 1]));
    crate::text::law_ends_are_trimmed(seq![' '], path, seq![' ']);
    crate::number::law_decimal_reads_back(port as nat, u16::MAX as nat);
}

/// A port without a path is not enough.
pub proof fn law_port_alone_is_not_enough(port: u16)
    ensures
        active_port(decimal(port as nat) + seq!['\n', ' ']) is None,
{
    let d = decimal(port as nat);
    crate::number::lemma_decimal(port as nat);
    assert forall|i: int| 0 <= i < d.len() implies #[trigger] d[i] != '\n' && d[i] != '\r' by {
        assert(crate::text::digit(d[i]));
    }
    let b = seq![' '];
    assert(!b.contains('\n') && !b.contains('\r'));
    crate::text::law_lines_end_at_line_feeds(d, b);
    crate::text::law_lines_end_at_line_feeds(b, seq![]);
    assert(d + seq!['\n', ' '] =~= d + seq!['\n'] + b);
    assert(lines(d + seq!['\n', ' ']) =~= seq![d, b]);
    crate::text::law_ends_are_trimmed(b, seq![], seq![]);
    assert(b + seq![] + seq![] =~= b);
}

} // verus!
