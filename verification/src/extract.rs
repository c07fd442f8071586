//! What yt-dlp is asked, and what its answers mean.
//!
//! No site has a rule of its own here: sites change, and keeping up with them
//! is the work of yt-dlp's community.

use vstd::prelude::*;
use crate::codec::{lossy, utf8_lossy};
use crate::json::{json_read_bytes, read_bytes, Json, JsonView};
use crate::number::{decimal, lemma_decimal, lemma_same_front, parse, parsed, to_decimal};
use crate::text::{
    cat, cat3, contains, find_text, followed, index_of, join, joined, lemma_index_of_is, lines,
    lines_of, outcome, pairs, push_text, same, starts_with, str_of, tail, text_of, texts, trim,
    trimmed, words, words_of,
};

verus! {

/// The mark of a progress line.
pub const MARK_PROGRESS: &'static str = "HAULPROG ";

/// The mark of the line that names the finished file.
pub const MARK_FILE: &'static str = "HAULFILE ";

/// The mark of the line that gives the duration.
pub const MARK_DUR: &'static str = "HAULDUR ";

/// How many lines of the error stream are kept for an error message.
pub const STDERR_TAIL: usize = 12;

/// What to take from a link.
#[derive(Clone, Copy, PartialEq, Eq, Debug, Structural)]
pub enum Mode {
    /// The best picture and the best sound, merged.
    Video,
    /// The sound alone, as it is in the source.
    Audio,
    /// The cover alone.
    Image,
}

pub open spec fn mode_of(s: Seq<char>) -> Mode {
    if s == "audio"@ {
        Mode::Audio
    } else if s == "image"@ {
        Mode::Image
    } else {
        Mode::Video
    }
}

pub open spec fn mode_name(m: Mode) -> Seq<char> {
    match m {
        Mode::Video => "video"@,
        Mode::Audio => "audio"@,
        Mode::Image => "image"@,
    }
}

impl Mode {
    /// The mode of that name. What is not known is taken for video.
    pub fn parse(s: &str) -> (r: Mode)
        ensures
            r == mode_of(s@),
    {
        if same(s, "audio") {
            Mode::Audio
        } else if same(s, "image") {
            Mode::Image
        } else {
            Mode::Video
        }
    }

    pub fn as_str(self) -> (r: &'static str)
        ensures
            r@ == mode_name(self),
    {
        match self {
            Mode::Video => "video",
            Mode::Audio => "audio",
            Mode::Image => "image",
        }
    }
}

/// A mode's name is read as that mode.
pub proof fn law_mode_names_read_back(m: Mode)
    ensures
        mode_of(mode_name(m)) == m,
{
    reveal_strlit("video");
    reveal_strlit("audio");
    reveal_strlit("image");
    assert("video"@[0] == 'v');
    assert("audio"@[0] == 'a');
    assert("image"@[0] == 'i');
}

/// How to download.
#[derive(Clone, Debug)]
pub struct Options {
    /// The height of the picture in pixels that is not to be exceeded.
    pub max_height: Option<u32>,
    /// Headers to send along, as they were seen in the browser.
    pub headers: Vec<(String, String)>,
}

impl Default for Options {
    fn default() -> (r: Options)
        ensures
            r.max_height is None,
            r.headers@.len() == 0,
    {
        Options { max_height: None, headers: Vec::new() }
    }
}

/// One item of a playlist.
#[derive(Debug)]
pub struct Entry {
    pub url: String,
    pub title: Option<String>,
}

/// What an item says.
#[verifier::ext_equal]
pub struct EntryView {
    pub url: Seq<char>,
    pub title: Option<Seq<char>>,
}

impl View for Entry {
    type V = EntryView;

    open spec fn view(&self) -> EntryView {
        EntryView { url: self.url@, title: text_of(self.title) }
    }
}

pub open spec fn entry_views(v: Seq<Entry>) -> Seq<EntryView> {
    v.map_values(|e: Entry| e@)
}

/// What a link turned out to be.
#[derive(Debug)]
pub enum Probe {
    Single { title: String },
    Playlist { title: String, entries: Vec<Entry> },
}

/// What a probe says.
#[verifier::ext_equal]
pub enum ProbeView {
    Single { title: Seq<char> },
    Playlist { title: Seq<char>, entries: Seq<EntryView> },
}

impl View for Probe {
    type V = ProbeView;

    open spec fn view(&self) -> ProbeView {
        match self {
            Probe::Single { title } => ProbeView::Single { title: title@ },
            Probe::Playlist { title, entries } => ProbeView::Playlist {
                title: title@,
                entries: entry_views(entries@),
            },
        }
    }
}

pub open spec fn probe_outcome(r: Result<Probe, String>) -> Result<ProbeView, Seq<char>> {
    match r {
        Ok(p) => Ok(p@),
        Err(e) => Err(e@),
    }
}

/// The options of every call: no configuration of the user's changes what is
/// done here.
pub open spec fn base_line() -> Seq<Seq<char>> {
    seq!["--ignore-config"@, "--no-warnings"@, "--no-colors"@]
}

pub open spec fn cookie_line(browser: Option<Seq<char>>) -> Seq<Seq<char>> {
    match browser {
        Some(b) => seq!["--cookies-from-browser"@, b],
        None => seq![],
    }
}

/// One option for each header.
pub open spec fn header_line(headers: Seq<(Seq<char>, Seq<char>)>) -> Seq<Seq<char>>
    decreases headers.len(),
{
    if headers.len() == 0 {
        seq![]
    } else {
        header_line(headers.drop_last()) + seq![
            "--add-headers"@,
            headers.last().0 + ":"@ + headers.last().1,
        ]
    }
}

fn push_base(v: &mut Vec<String>)
    ensures
        texts(final(v)@) == texts(old(v)@) + base_line(),
{
    push_text(v, "--ignore-config");
    push_text(v, "--no-warnings");
    push_text(v, "--no-colors");
    proof {
        assert(texts(v@) =~= texts(old(v)@) + base_line());
    }
}

fn push_cookies(v: &mut Vec<String>, browser: Option<&str>)
    ensures
        texts(final(v)@) == texts(old(v)@) + cookie_line(str_of(browser)),
{
    if let Some(b) = browser {
        push_text(v, "--cookies-from-browser");
        push_text(v, b);
    }
    proof {
        assert(texts(v@) =~= texts(old(v)@) + cookie_line(str_of(browser)));
    }
}

/// The options that send the given headers along.
pub fn header_args(headers: &[(String, String)]) -> (r: Vec<String>)
    ensures
        texts(r@) == header_line(pairs(headers@)),
{
    let mut out: Vec<String> = Vec::new();
    let mut i: usize = 0;
    proof {
        assert(texts(out@) =~= header_line(pairs(headers@).take(0)));
    }
    while i < headers.len()
        invariant
            i <= headers@.len(),
            texts(out@) == header_line(pairs(headers@).take(i as int)),
        decreases headers@.len() - i,
    {
        let ghost done = texts(out@);
        push_text(&mut out, "--add-headers");
        push_text(&mut out, cat3(headers[i].0.as_str(), ":", headers[i].1.as_str()).as_str());
        proof {
            let t = pairs(headers@).take(i + 1);
            assert(t.drop_last() =~= pairs(headers@).take(i as int));
            assert(t.last() == (headers@[i as int].0@, headers@[i as int].1@));
            assert(texts(out@) =~= header_line(t));
        }
        i += 1;
    }
    proof {
        assert(pairs(headers@).take(i as int) =~= pairs(headers@));
    }
    out
}

/// The last lines that are not blank, at most `n` of them, the last one first,
/// each trimmed.
pub open spec fn last_lines(all: Seq<Seq<char>>, n: nat) -> Seq<Seq<char>>
    decreases all.len(),
{
    if all.len() == 0 || n == 0 {
        seq![]
    } else if trimmed(all.last()).len() > 0 {
        seq![trimmed(all.last())] + last_lines(all.drop_last(), (n - 1) as nat)
    } else {
        last_lines(all.drop_last(), n)
    }
}

/// What to tell of an error stream: its last three lines.
pub open spec fn told(all: Seq<Seq<char>>) -> Seq<char> {
    let l = last_lines(all, 3);
    if l.len() == 0 {
        "yt-dlp 沒有給出原因"@
    } else {
        joined(l, " / "@)
    }
}

pub fn stderr_tail(lines: &[String]) -> (r: String)
    ensures
        r@ == told(texts(lines@)),
{
    let mut out: Vec<String> = Vec::new();
    let mut i: usize = lines.len();
    proof {
        assert(texts(lines@).take(i as int) =~= texts(lines@));
        assert(texts(out@) + last_lines(texts(lines@), 3) =~= last_lines(texts(lines@), 3));
    }
    while i > 0 && out.len() < 3
        invariant
            i <= lines@.len(),
            out@.len() <= 3,
            texts(out@) + last_lines(texts(lines@).take(i as int), (3 - out@.len()) as nat)
                == last_lines(texts(lines@), 3),
        decreases i,
    {
        let line = trim(lines[i - 1].as_str());
        let ghost t = texts(lines@).take(i as int);
        let ghost done = texts(out@);
        let ghost left = (3 - out@.len()) as nat;
        proof {
            assert(t.last() == lines@[i - 1]@);
            assert(t.drop_last() =~= texts(lines@).take(i - 1));
        }
        if line.unicode_len() > 0 {
            push_text(&mut out, line);
            proof {
                assert(texts(out@) + last_lines(t.drop_last(), (left - 1) as nat) =~= done
                    + last_lines(t, left));
            }
        }
        i -= 1;
    }
    proof {
        assert(last_lines(texts(lines@).take(i as int), (3 - out@.len()) as nat) =~= seq![]);
        assert(texts(out@) =~= last_lines(texts(lines@), 3));
        assert(texts(out@).len() == out@.len());
    }
    if out.len() == 0 {
        "yt-dlp 沒有給出原因".to_owned()
    } else {
        join(&out, " / ")
    }
}

/// The command line that asks what a link is, without downloading anything.
pub open spec fn probe_line(url: Seq<char>, browser: Option<Seq<char>>) -> Seq<Seq<char>> {
    base_line() + cookie_line(browser) + seq!["-J"@, "--flat-playlist"@, url]
}

pub fn probe_args(url: &str, browser: Option<&str>) -> (r: Vec<String>)
    ensures
        texts(r@) == probe_line(url@, str_of(browser)),
{
    let mut v: Vec<String> = Vec::new();
    push_base(&mut v);
    push_cookies(&mut v, browser);
    push_text(&mut v, "-J");
    push_text(&mut v, "--flat-playlist");
    push_text(&mut v, url);
    proof {
        assert(texts(v@) =~= probe_line(url@, str_of(browser)));
    }
    v
}

/// An item of a playlist: one without an address is none.
pub open spec fn entry_of(e: JsonView) -> Option<EntryView> {
    let u = match e.get("url"@) {
        Some(u) => Some(u),
        None => e.get("webpage_url"@),
    };
    match u {
        Some(JsonView::Text(url)) => Some(EntryView { url, title: e.text_at("title"@) }),
        _ => None,
    }
}

/// The items of a playlist that have an address, in their order.
pub open spec fn entries_of(list: Seq<JsonView>) -> Seq<EntryView>
    decreases list.len(),
{
    if list.len() == 0 {
        seq![]
    } else {
        match entry_of(list.last()) {
            Some(e) => entries_of(list.drop_last()).push(e),
            None => entries_of(list.drop_last()),
        }
    }
}

/// What a link is, by what yt-dlp says of it.
pub open spec fn probed(v: JsonView) -> Result<ProbeView, Seq<char>> {
    let title = match v.text_at("title"@) {
        Some(t) => t,
        None => "untitled"@,
    };
    if v.text_at("_type"@) == Some("playlist"@) {
        let entries = match v.at("entries"@) {
            JsonView::List(l) => entries_of(l),
            _ => seq![],
        };
        if entries.len() == 0 {
            Err("這是一份清單，但裡面沒有可下載的項目"@)
        } else {
            Ok(ProbeView::Playlist { title, entries })
        }
    } else {
        Ok(ProbeView::Single { title })
    }
}

fn read_entry(e: &Json) -> (r: Option<Entry>)
    ensures
        match r {
            Some(x) => entry_of(e@) == Some(x@),
            None => entry_of(e@) is None,
        },
{
    let place = match e.get("url") {
        Some(u) => Some(u),
        None => e.get("webpage_url"),
    };
    let url = match place {
        Some(u) => match u.as_str() {
            Some(s) => s,
            None => {
                return None;
            },
        },
        None => {
            return None;
        },
    };
    let title = match e.text_at("title") {
        Some(t) => Some(t.to_owned()),
        None => None,
    };
    Some(Entry { url: url.to_owned(), title })
}

fn read_entries(v: &Vec<Json>, view: Ghost<Seq<JsonView>>) -> (r: Vec<Entry>)
    requires
        view@.len() == v@.len(),
        forall|i: int| 0 <= i < v@.len() ==> (#[trigger] view@[i]) == v@[i]@,
    ensures
        entry_views(r@) == entries_of(view@),
{
    let mut out: Vec<Entry> = Vec::new();
    let mut i: usize = 0;
    while i < v.len()
        invariant
            view@.len() == v@.len(),
            forall|i: int| 0 <= i < v@.len() ==> (#[trigger] view@[i]) == v@[i]@,
            i <= v@.len(),
            entry_views(out@) == entries_of(view@.take(i as int)),
        decreases v@.len() - i,
    {
        let ghost done = entry_views(out@);
        proof {
            let t = view@.take(i + 1);
            assert(t.drop_last() =~= view@.take(i as int));
            assert(t.last() == v@[i as int]@);
        }
        if let Some(e) = read_entry(&v[i]) {
            out.push(e);
            proof {
                assert(entry_views(out@) =~= done.push(e@));
            }
        }
        i += 1;
    }
    proof {
        assert(view@.take(i as int) =~= view@);
    }
    out
}

/// What a link is, by the value that yt-dlp printed.
pub fn probe_value(v: &Json) -> (r: Result<Probe, String>)
    ensures
        probe_outcome(r) == probed(v@),
{
    let title = match v.text_at("title") {
        Some(t) => t.to_owned(),
        None => "untitled".to_owned(),
    };
    let playlist = match v.text_at("_type") {
        Some(t) => same(t, "playlist"),
        None => false,
    };
    if playlist {
        let entries = match v.get("entries") {
            Some(j) => match j {
                Json::List(l) => read_entries(l, Ghost(j@->List_0)),
                _ => Vec::new(),
            },
            None => Vec::new(),
        };
        proof {
            let list = match v@.at("entries"@) {
                JsonView::List(l) => entries_of(l),
                _ => seq![],
            };
            assert(entry_views(entries@) =~= list);
            assert(entry_views(entries@).len() == entries@.len());
        }
        if entries.len() == 0 {
            return Err("這是一份清單，但裡面沒有可下載的項目".to_owned());
        }
        return Ok(Probe::Playlist { title, entries });
    }
    Ok(Probe::Single { title })
}

/// What a finished call says a link is.
pub open spec fn probe_answer(succeeded: bool, stdout: Seq<u8>, stderr: Seq<u8>) -> Result<
    ProbeView,
    Seq<char>,
> {
    if !succeeded {
        Err(told(lines(utf8_lossy(stderr))))
    } else {
        match json_read_bytes(stdout) {
            Ok(v) => probed(v),
            Err(e) => Err("看不懂 yt-dlp 的輸出："@ + e),
        }
    }
}

/// What a finished call of yt-dlp says a link is.
pub fn probe(succeeded: bool, stdout: &[u8], stderr: &[u8]) -> (r: Result<Probe, String>)
    ensures
        probe_outcome(r) == probe_answer(succeeded, stdout@, stderr@),
{
    if !succeeded {
        return Err(call_error(stderr));
    }
    match read_bytes(stdout) {
        Ok(v) => probe_value(&v),
        Err(e) => Err(cat("看不懂 yt-dlp 的輸出：", e.as_str())),
    }
}

/// The words for a call that failed, given its error stream.
pub fn call_error(stderr: &[u8]) -> (r: String)
    ensures
        r@ == told(lines(utf8_lossy(stderr@))),
{
    let text = lossy(stderr);
    let l = lines_of(text.as_str());
    stderr_tail(l.as_slice())
}

/// The formats to choose from for a video. Those within the limit come first,
/// and where none is, one beyond it is better than none.
pub open spec fn format_choice(max_height: Option<u32>) -> Seq<char> {
    match max_height {
        Some(h) => "bv*[height<="@ + decimal(h as nat) + "]+ba/b[height<="@ + decimal(h as nat) + "]/"@
            + "bv*+ba/b"@,
        None => "bv*+ba/b"@,
    }
}

pub fn video_format(max_height: Option<u32>) -> (r: String)
    ensures
        r@ == format_choice(max_height),
        crate::text::ends_with(r@, "bv*+ba/b"@),
{
    match max_height {
        Some(h) => {
            let n = to_decimal(h as u64);
            let front = cat3("bv*[height<=", n.as_str(), "]+ba/b[height<=");
            let all = cat3(front.as_str(), n.as_str(), "]/");
            let r = cat(all.as_str(), "bv*+ba/b");
            proof {
                assert(r@.skip(r@.len() - "bv*+ba/b"@.len()) =~= "bv*+ba/b"@);
            }
            r
        },
        None => {
            let r = "bv*+ba/b".to_owned();
            proof {
                assert(r@.skip(0) =~= r@);
            }
            r
        },
    }
}

/// The options that depend on the mode.
pub open spec fn mode_line(mode: Mode, max_height: Option<u32>) -> Seq<Seq<char>> {
    match mode {
        Mode::Video => seq!["-f"@, format_choice(max_height), "--merge-output-format"@, "mp4"@],
        Mode::Audio => seq!["-f"@, "ba/b"@, "-x"@, "--audio-format"@, "best"@],
        Mode::Image => seq!["-f"@, "ba/b"@],
    }
}

/// The options of every download. File names follow the rules of Windows, so
/// that they can be exchanged.
pub open spec fn fixed_line() -> Seq<Seq<char>> {
    seq![
        "--newline"@,
        "--no-playlist"@,
        "--no-simulate"@,
        "--windows-filenames"@,
        "--trim-filenames"@,
        "150"@,
        "--progress-template"@,
        "download:HAULPROG %(progress.downloaded_bytes)s %(progress.total_bytes)s %(progress.total_bytes_estimate)s"@,
        "--print"@,
        "after_move:HAULFILE %(filepath)s"@,
        "--print"@,
        "after_move:HAULDUR %(duration)s"@,
        "-o"@,
        "%(title)s.%(ext)s"@,
    ]
}

/// The command line of a download into the given directory.
pub open spec fn download_line(
    ffmpeg: Seq<char>,
    url: Seq<char>,
    mode: Mode,
    opts: Options,
    browser: Option<Seq<char>>,
    staging: Seq<char>,
) -> Seq<Seq<char>> {
    base_line() + cookie_line(browser) + header_line(pairs(opts.headers@)) + fixed_line() + seq![
        "--ffmpeg-location"@,
        ffmpeg,
        "--paths"@,
        "home:"@ + staging,
    ] + mode_line(mode, opts.max_height) + seq![url]
}

fn push_fixed(v: &mut Vec<String>)
    ensures
        texts(final(v)@) == texts(old(v)@) + fixed_line(),
{
    push_text(v, "--newline");
    push_text(v, "--no-playlist");
    push_text(v, "--no-simulate");
    push_text(v, "--windows-filenames");
    push_text(v, "--trim-filenames");
    push_text(v, "150");
    push_text(v, "--progress-template");
    push_text(
        v,
        "download:HAULPROG %(progress.downloaded_bytes)s %(progress.total_bytes)s %(progress.total_bytes_estimate)s",
    );
    push_text(v, "--print");
    push_text(v, "after_move:HAULFILE %(filepath)s");
    push_text(v, "--print");
    push_text(v, "after_move:HAULDUR %(duration)s");
    push_text(v, "-o");
    push_text(v, "%(title)s.%(ext)s");
    proof {
        assert(texts(v@) =~= texts(old(v)@) + fixed_line());
    }
}

fn push_mode(v: &mut Vec<String>, mode: Mode, max_height: Option<u32>)
    ensures
        texts(final(v)@) == texts(old(v)@) + mode_line(mode, max_height),
{
    push_text(v, "-f");
    match mode {
        Mode::Video => {
            push_text(v, video_format(max_height).as_str());
            push_text(v, "--merge-output-format");
            push_text(v, "mp4");
        },
        Mode::Audio => {
            push_text(v, "ba/b");
            push_text(v, "-x");
            push_text(v, "--audio-format");
            push_text(v, "best");
        },
        Mode::Image => {
            push_text(v, "ba/b");
        },
    }
    proof {
        assert(texts(v@) =~= texts(old(v)@) + mode_line(mode, max_height));
    }
}

/// The command line of a download into the given directory.
pub fn download_args(
    ffmpeg: &str,
    url: &str,
    mode: Mode,
    opts: &Options,
    browser: Option<&str>,
    staging: &str,
) -> (r: Vec<String>)
    ensures
        texts(r@) == download_line(ffmpeg@, url@, mode, *opts, str_of(browser), staging@),
{
    let mut v: Vec<String> = Vec::new();
    push_base(&mut v);
    push_cookies(&mut v, browser);
    let ghost done = texts(v@);
    let mut h = header_args(opts.headers.as_slice());
    v.append(&mut h);
    proof {
        assert(texts(v@) =~= done + header_line(pairs(opts.headers@)));
    }
    push_fixed(&mut v);
    push_text(&mut v, "--ffmpeg-location");
    push_text(&mut v, ffmpeg);
    push_text(&mut v, "--paths");
    push_text(&mut v, cat("home:", staging).as_str());
    push_mode(&mut v, mode, opts.max_height);
    push_text(&mut v, url);
    proof {
        assert(texts(v@) =~= download_line(
            ffmpeg@,
            url@,
            mode,
            *opts,
            str_of(browser),
            staging@,
        ));
    }
    v
}

/// A finished download.
#[derive(Debug)]
pub struct Downloaded {
    pub path: String,
    /// The duration as it was reported.
    pub duration: Option<String>,
}

/// What is known of a download from the lines printed so far.
pub struct Scan {
    file: Option<String>,
    duration: Option<String>,
    errs: Vec<String>,
}

/// What a scan says.
#[verifier::ext_equal]
pub struct ScanView {
    pub file: Option<Seq<char>>,
    pub duration: Option<Seq<char>>,
    pub errs: Seq<Seq<char>>,
}

impl View for Scan {
    type V = ScanView;

    closed spec fn view(&self) -> ScanView {
        ScanView {
            file: text_of(self.file),
            duration: text_of(self.duration),
            errs: texts(self.errs@),
        }
    }
}

/// What stands behind a mark in a line.
pub open spec fn marked(line: Seq<char>, mark: Seq<char>) -> Option<Seq<char>> {
    match index_of(line, mark) {
        Some(i) => Some(line.skip(i + mark.len())),
        None => None,
    }
}

fn behind_mark<'a>(line: &'a str, mark: &str) -> (r: Option<&'a str>)
    ensures
        str_of(r) == marked(line@, mark@),
{
    let n: usize = line.unicode_len();
    let m: usize = mark.unicode_len();
    match find_text(line, mark) {
        Some(i) => {
            proof {
                assert(i + m <= n);
            }
            Some(tail(line, i + m))
        },
        None => None,
    }
}

/// The number in the word at `i`, where there is one.
pub open spec fn number_at(w: Seq<Seq<char>>, i: int) -> Option<nat> {
    if 0 <= i < w.len() {
        parsed(w[i], u64::MAX as nat)
    } else {
        None
    }
}

/// The bytes so far and the bytes in all; the estimate stands in for a total
/// that is not known, and zero for what is not known at all.
pub open spec fn progress_of(rest: Seq<char>) -> (u64, u64) {
    let w = words(rest);
    (
        match number_at(w, 0) {
            Some(n) => n as u64,
            None => 0,
        },
        match number_at(w, 1) {
            Some(n) => n as u64,
            None => match number_at(w, 2) {
                Some(n) => n as u64,
                None => 0,
            },
        },
    )
}

/// The last lines of an error stream, at most as many as are kept.
pub open spec fn kept_errs(errs: Seq<Seq<char>>) -> Seq<Seq<char>> {
    if errs.len() > STDERR_TAIL {
        errs.skip(1)
    } else {
        errs
    }
}

impl ScanView {
    /// The progress that a line reports, and what is known after it.
    pub open spec fn read(self, is_err: bool, line: Seq<char>) -> (Option<(u64, u64)>, ScanView) {
        match marked(line, MARK_PROGRESS@) {
            Some(rest) => (Some(progress_of(rest)), self),
            None => match marked(line, MARK_FILE@) {
                Some(rest) => if trimmed(rest).len() > 0 {
                    (None, ScanView { file: Some(trimmed(rest)), ..self })
                } else {
                    (None, self)
                },
                None => match marked(line, MARK_DUR@) {
                    Some(rest) => (None, ScanView { duration: Some(trimmed(rest)), ..self }),
                    None => if is_err {
                        (None, ScanView { errs: kept_errs(self.errs.push(line)), ..self })
                    } else {
                        (None, self)
                    },
                },
            },
        }
    }
}

fn number_in(w: &Vec<String>, i: usize) -> (r: Option<u64>)
    ensures
        match r {
            Some(n) => number_at(texts(w@), i as int) == Some(n as nat),
            None => number_at(texts(w@), i as int) is None,
        },
{
    if i < w.len() {
        proof {
            assert(texts(w@)[i as int] == w@[i as int]@);
        }
        parse(w[i].as_str(), u64::MAX)
    } else {
        None
    }
}

fn read_progress(rest: &str) -> (r: (u64, u64))
    ensures
        r == progress_of(rest@),
{
    let w = words_of(rest);
    let got: u64 = match number_in(&w, 0) {
        Some(n) => n,
        None => 0,
    };
    let total: u64 = match number_in(&w, 1) {
        Some(n) => n,
        None => match number_in(&w, 2) {
            Some(n) => n,
            None => 0,
        },
    };
    (got, total)
}

impl Scan {
    pub fn new() -> (r: Scan)
        ensures
            r@ == (ScanView { file: None, duration: None, errs: seq![] }),
    {
        let r = Scan { file: None, duration: None, errs: Vec::new() };
        proof {
            assert(r@ =~= (ScanView { file: None, duration: None, errs: seq![] }));
        }
        r
    }

    /// Takes in one line of either stream. yt-dlp does not always write a
    /// report to the same one, so both are looked at alike.
    pub fn line(&mut self, is_err: bool, line: &str) -> (r: Option<(u64, u64)>)
        requires
            old(self)@.errs.len() <= STDERR_TAIL,
        ensures
            (r, final(self)@) == old(self)@.read(is_err, line@),
            final(self)@.errs.len() <= STDERR_TAIL,
    {
        if let Some(rest) = behind_mark(line, MARK_PROGRESS) {
            return Some(read_progress(rest));
        }
        if let Some(rest) = behind_mark(line, MARK_FILE) {
            let name = trim(rest);
            if name.unicode_len() > 0 {
                self.file = Some(name.to_owned());
            }
            return None;
        }
        if let Some(rest) = behind_mark(line, MARK_DUR) {
            self.duration = Some(trim(rest).to_owned());
            return None;
        }
        if is_err {
            let ghost before = texts(self.errs@);
            push_text(&mut self.errs, line);
            if self.errs.len() > STDERR_TAIL {
                let ghost full = self.errs@;
                let _first = self.errs.remove(0);
                proof {
                    assert(texts(self.errs@) =~= texts(full).skip(1));
                }
            }
            proof {
                assert(texts(self.errs@) =~= kept_errs(before.push(line@)));
            }
        }
        None
    }

    /// The file that was reported.
    pub fn file(&self) -> (r: Option<String>)
        ensures
            text_of(r) == self@.file,
    {
        crate::text::copy_text(&self.file)
    }

    /// What came of the download: the reported file, where the call succeeded
    /// and the file is there.
    pub fn finish(self, succeeded: bool, exists: bool) -> (r: Result<Downloaded, String>)
        ensures
            match r {
                Ok(d) => {
                    &&& succeeded && exists
                    &&& self@.file == Some(d.path@)
                    &&& text_of(d.duration) == self@.duration
                },
                Err(e) => if !succeeded {
                    e@ == told(self@.errs)
                } else {
                    match self@.file {
                        None => e@ == "yt-dlp 沒有回報輸出檔案："@ + told(self@.errs),
                        Some(f) => !exists && e@ == "yt-dlp 回報的檔案不存在："@ + f,
                    }
                },
            },
    {
        if !succeeded {
            return Err(stderr_tail(self.errs.as_slice()));
        }
        match self.file {
            Some(path) => if exists {
                Ok(Downloaded { path, duration: self.duration })
            } else {
                Err(cat("yt-dlp 回報的檔案不存在：", path.as_str()))
            },
            None => Err(
                cat("yt-dlp 沒有回報輸出檔案：", stderr_tail(self.errs.as_slice()).as_str()),
            ),
        }
    }
}

/// The command line that fetches the cover alone.
pub open spec fn thumbnail_line(
    ffmpeg: Seq<char>,
    url: Seq<char>,
    dir: Seq<char>,
    browser: Option<Seq<char>>,
) -> Seq<Seq<char>> {
    base_line() + cookie_line(browser) + seq![
        "--skip-download"@,
        "--write-thumbnail"@,
        "--convert-thumbnails"@,
        "jpg"@,
        "--windows-filenames"@,
        "--trim-filenames"@,
        "150"@,
        "-o"@,
        "%(title)s.%(ext)s"@,
        "--ffmpeg-location"@,
        ffmpeg,
        "--paths"@,
        "home:"@ + dir,
        url,
    ]
}

pub fn thumbnail_args(ffmpeg: &str, url: &str, dir: &str, browser: Option<&str>) -> (r: Vec<String>)
    ensures
        texts(r@) == thumbnail_line(ffmpeg@, url@, dir@, str_of(browser)),
{
    let mut v: Vec<String> = Vec::new();
    push_base(&mut v);
    push_cookies(&mut v, browser);
    push_text(&mut v, "--skip-download");
    push_text(&mut v, "--write-thumbnail");
    push_text(&mut v, "--convert-thumbnails");
    push_text(&mut v, "jpg");
    push_text(&mut v, "--windows-filenames");
    push_text(&mut v, "--trim-filenames");
    push_text(&mut v, "150");
    push_text(&mut v, "-o");
    push_text(&mut v, "%(title)s.%(ext)s");
    push_text(&mut v, "--ffmpeg-location");
    push_text(&mut v, ffmpeg);
    push_text(&mut v, "--paths");
    push_text(&mut v, cat("home:", dir).as_str());
    push_text(&mut v, url);
    proof {
        assert(texts(v@) =~= thumbnail_line(ffmpeg@, url@, dir@, str_of(browser)));
    }
    v
}

/// What came of a call for the cover: the file that is found in its directory,
/// which no one else writes to.
pub fn download_thumbnail(succeeded: bool, stderr: &[u8], first_file: Option<String>) -> (r: Result<
    String,
    String,
>)
    ensures
        outcome(r) == (if !succeeded {
            Err(told(lines(utf8_lossy(stderr@))))
        } else {
            match text_of(first_file) {
                Some(f) => Ok(f),
                None => Err("這個來源沒有可用的封面圖"@),
            }
        }),
{
    if !succeeded {
        return Err(call_error(stderr));
    }
    match first_file {
        Some(f) => Ok(f),
        None => Err("這個來源沒有可用的封面圖".to_owned()),
    }
}

/// The error lines that are kept never outgrow their limit, and the newest one
/// is among them.
pub proof fn law_newest_error_is_kept(s: ScanView, line: Seq<char>)
    requires
        s.errs.len() <= STDERR_TAIL,
        marked(line, MARK_PROGRESS@) is None,
        marked(line, MARK_FILE@) is None,
        marked(line, MARK_DUR@) is None,
    ensures
        s.read(true, line).1.errs.len() <= STDERR_TAIL,
        s.read(true, line).1.errs.last() == line,
{
}

/// However high the limit, a video beyond it is the last resort, never out of
/// reach.
pub proof fn law_uncapped_fallback(max_height: Option<u32>)
    ensures
        crate::text::ends_with(format_choice(max_height), format_choice(None)),
{
    let f = format_choice(max_height);
    let u = format_choice(None);
    assert(f.skip(f.len() - u.len()) =~= u);
}

// What holds of the command lines.

proof fn lemma_headers(headers: Seq<(Seq<char>, Seq<char>)>, i: int)
    requires
        0 <= i < headers.len(),
    ensures
        header_line(headers).len() == 2 * headers.len(),
        header_line(headers)[2 * i] == "--add-headers"@,
        header_line(headers)[2 * i + 1] == headers[i].0 + ":"@ + headers[i].1,
    decreases headers.len(),
{
    let front = headers.drop_last();
    if front.len() > 0 {
        lemma_headers(front, if i < front.len() {
            i
        } else {
            0
        });
    } else {
        assert(header_line(front).len() == 0);
    }
    if i < front.len() {
        assert(front[i] == headers[i]);
    }
}

proof fn lemma_header_count(headers: Seq<(Seq<char>, Seq<char>)>)
    ensures
        header_line(headers).len() == 2 * headers.len(),
{
    if headers.len() > 0 {
        lemma_headers(headers, 0);
    }
}

/// The link comes last on every command line, and the user's own configuration
/// is never read.
pub proof fn law_link_comes_last(
    ffmpeg: Seq<char>,
    url: Seq<char>,
    mode: Mode,
    opts: Options,
    browser: Option<Seq<char>>,
    dir: Seq<char>,
)
    ensures
        probe_line(url, browser).last() == url,
        download_line(ffmpeg, url, mode, opts, browser, dir).last() == url,
        thumbnail_line(ffmpeg, url, dir, browser).last() == url,
        probe_line(url, browser)[0] == "--ignore-config"@,
        download_line(ffmpeg, url, mode, opts, browser, dir)[0] == "--ignore-config"@,
        thumbnail_line(ffmpeg, url, dir, browser)[0] == "--ignore-config"@,
        probe_line(url, browser).contains("-J"@),
        probe_line(url, browser).contains("--flat-playlist"@),
{
    let p = probe_line(url, browser);
    assert(p[p.len() - 3] == "-J"@ && p[p.len() - 2] == "--flat-playlist"@);
}

/// The session of a browser is used where one is named, and else none.
pub proof fn law_session_is_the_named_one(
    ffmpeg: Seq<char>,
    url: Seq<char>,
    mode: Mode,
    opts: Options,
    b: Seq<char>,
    dir: Seq<char>,
)
    ensures
        followed(probe_line(url, Some(b)), "--cookies-from-browser"@, b),
        followed(
            download_line(ffmpeg, url, mode, opts, Some(b), dir),
            "--cookies-from-browser"@,
            b,
        ),
        followed(thumbnail_line(ffmpeg, url, dir, Some(b)), "--cookies-from-browser"@, b),
        probe_line(url, None).len() + 2 == probe_line(url, Some(b)).len(),
        download_line(ffmpeg, url, mode, opts, None, dir).len() + 2 == download_line(
            ffmpeg,
            url,
            mode,
            opts,
            Some(b),
            dir,
        ).len(),
        thumbnail_line(ffmpeg, url, dir, None).len() + 2 == thumbnail_line(
            ffmpeg,
            url,
            dir,
            Some(b),
        ).len(),
{
    let p = probe_line(url, Some(b));
    let d = download_line(ffmpeg, url, mode, opts, Some(b), dir);
    let t = thumbnail_line(ffmpeg, url, dir, Some(b));
    assert(p[3] == "--cookies-from-browser"@ && p[4] == b);
    assert(d[3] == "--cookies-from-browser"@ && d[4] == b);
    assert(t[3] == "--cookies-from-browser"@ && t[4] == b);
}

/// The cap on the height is asked for: the format list of a video prefers what is
/// within it, for the picture with its sound and for a single file alike, and goes
/// beyond it only at its end. Without a cap there is none in the list.
pub proof fn law_cap_is_asked_for(
    ffmpeg: Seq<char>,
    url: Seq<char>,
    opts: Options,
    browser: Option<Seq<char>>,
    dir: Seq<char>,
)
    ensures
        ({
            let d = download_line(ffmpeg, url, Mode::Video, opts, browser, dir);
            let n = d.len() as int;
            &&& n >= 5
            &&& d[n - 5] == "-f"@
            &&& d[n - 3] == "--merge-output-format"@
            &&& d[n - 2] == "mp4"@
            &&& opts.max_height matches Some(h) ==> d[n - 4] == "bv*[height<="@ + decimal(h as nat)
                + "]+ba/b[height<="@ + decimal(h as nat) + "]/bv*+ba/b"@
            &&& opts.max_height matches Some(h) ==> starts_with(
                d[n - 4],
                "bv*[height<="@ + decimal(h as nat) + "]+ba/b[height<="@ + decimal(h as nat) + "]/"@,
            )
            &&& opts.max_height is None ==> d[n - 4] == "bv*+ba/b"@
            &&& followed(d, "-f"@, d[n - 4])
        }),
{
    let d = download_line(ffmpeg, url, Mode::Video, opts, browser, dir);
    let n = d.len() as int;
    assert(d[n - 5] == "-f"@);
    assert(d[n - 5 + 1] == d[n - 4]);
    assert(d[n - 3] == "--merge-output-format"@);
    assert(d[n - 2] == "mp4"@);
    reveal_strlit("]/bv*+ba/b");
    reveal_strlit("]/");
    reveal_strlit("bv*+ba/b");
    assert("]/bv*+ba/b"@ =~= "]/"@ + "bv*+ba/b"@);
    if opts.max_height is Some {
        let h = opts.max_height->0;
        let front = "bv*[height<="@ + decimal(h as nat) + "]+ba/b[height<="@ + decimal(h as nat)
            + "]/"@;
        assert(d[n - 4] =~= front + "bv*+ba/b"@);
        assert(d[n - 4].take(front.len() as int) =~= front);
        assert(d[n - 4] =~= "bv*[height<="@ + decimal(h as nat) + "]+ba/b[height<="@ + decimal(
            h as nat,
        ) + "]/bv*+ba/b"@);
    }
}

/// Different caps are different command lines, and a cap is another line than none.
pub proof fn law_caps_differ(
    ffmpeg: Seq<char>,
    url: Seq<char>,
    a: Options,
    b: Options,
    browser: Option<Seq<char>>,
    dir: Seq<char>,
)
    requires
        a.max_height != b.max_height,
    ensures
        download_line(ffmpeg, url, Mode::Video, a, browser, dir) != download_line(
            ffmpeg,
            url,
            Mode::Video,
            b,
            browser,
            dir,
        ),
{
    law_cap_is_asked_for(ffmpeg, url, a, browser, dir);
    law_cap_is_asked_for(ffmpeg, url, b, browser, dir);
    let d = download_line(ffmpeg, url, Mode::Video, a, browser, dir);
    let e = download_line(ffmpeg, url, Mode::Video, b, browser, dir);
    reveal_strlit("bv*[height<=");
    reveal_strlit("]+ba/b[height<=");
    reveal_strlit("bv*+ba/b");
    if d == e {
        let f = d[d.len() - 4];
        let front = "bv*[height<="@;
        assert(front[3] == '[' && "bv*+ba/b"@[3] == '+');
        if a.max_height is Some && b.max_height is Some {
            let x = a.max_height->0 as nat;
            let y = b.max_height->0 as nat;
            let xs = "]+ba/b[height<="@ + decimal(x) + "]/bv*+ba/b"@;
            let ys = "]+ba/b[height<="@ + decimal(y) + "]/bv*+ba/b"@;
            assert(f =~= front + (decimal(x) + xs));
            assert(f =~= front + (decimal(y) + ys));
            assert(f.skip(12) =~= decimal(x) + xs);
            assert(f.skip(12) =~= decimal(y) + ys);
            lemma_decimal(x);
            lemma_decimal(y);
            lemma_same_front(decimal(x), xs, decimal(y), ys);
        } else {
            assert(f[3] == '[' || f[3] == '+');
            if a.max_height is Some {
                let x = a.max_height->0 as nat;
                assert(f =~= front + (decimal(x) + ("]+ba/b[height<="@ + decimal(x)
                    + "]/bv*+ba/b"@)));
                assert(f[3] == front[3]);
            } else {
                let y = b.max_height->0 as nat;
                assert(f =~= front + (decimal(y) + ("]+ba/b[height<="@ + decimal(y)
                    + "]/bv*+ba/b"@)));
                assert(f[3] == front[3]);
            }
        }
    }
}

/// Sound alone is asked for as sound, and kept as it is in the source.
pub proof fn law_sound_is_asked_for(
    ffmpeg: Seq<char>,
    url: Seq<char>,
    opts: Options,
    browser: Option<Seq<char>>,
    dir: Seq<char>,
)
    ensures
        ({
            let d = download_line(ffmpeg, url, Mode::Audio, opts, browser, dir);
            let n = d.len() as int;
            &&& n >= 6
            &&& d[n - 6] == "-f"@
            &&& d[n - 5] == "ba/b"@
            &&& d[n - 4] == "-x"@
            &&& d[n - 3] == "--audio-format"@
            &&& d[n - 2] == "best"@
        }),
{
}

/// The file lands in the given directory, ffmpeg is the given one, every header is
/// sent along as it was, and one item is fetched, not the list around it.
pub proof fn law_download_is_told_where(
    ffmpeg: Seq<char>,
    url: Seq<char>,
    mode: Mode,
    opts: Options,
    browser: Option<Seq<char>>,
    dir: Seq<char>,
)
    ensures
        ({
            let d = download_line(ffmpeg, url, mode, opts, browser, dir);
            let h = pairs(opts.headers@);
            &&& followed(d, "--ffmpeg-location"@, ffmpeg)
            &&& followed(d, "--paths"@, "home:"@ + dir)
            &&& followed(d, "-o"@, "%(title)s.%(ext)s"@)
            &&& followed(d, "--print"@, "after_move:HAULFILE %(filepath)s"@)
            &&& followed(d, "--print"@, "after_move:HAULDUR %(duration)s"@)
            &&& d.contains("--no-playlist"@)
            &&& d.contains("--newline"@)
            &&& forall|i: int|
                0 <= i < h.len() ==> followed(
                    d,
                    "--add-headers"@,
                    (#[trigger] h[i]).0 + ":"@ + h[i].1,
                )
        }),
{
    let d = download_line(ffmpeg, url, mode, opts, browser, dir);
    let h = pairs(opts.headers@);
    lemma_header_count(h);
    let c = 3 + cookie_line(browser).len() as int;
    let k = c + header_line(h).len() as int;
    assert(d[k] == "--newline"@);
    assert(d[k + 1] == "--no-playlist"@);
    assert(d[k + 8] == "--print"@ && d[k + 9] == "after_move:HAULFILE %(filepath)s"@);
    assert(d[k + 10] == "--print"@ && d[k + 11] == "after_move:HAULDUR %(duration)s"@);
    assert(d[k + 12] == "-o"@ && d[k + 13] == "%(title)s.%(ext)s"@);
    assert(d[k + 14] == "--ffmpeg-location"@ && d[k + 15] == ffmpeg);
    assert(d[k + 16] == "--paths"@ && d[k + 17] == "home:"@ + dir);
    assert forall|i: int| 0 <= i < h.len() implies followed(
        d,
        "--add-headers"@,
        (#[trigger] h[i]).0 + ":"@ + h[i].1,
    ) by {
        lemma_headers(h, i);
        assert(d[c + 2 * i] == header_line(h)[2 * i]);
        assert(d[c + 2 * i + 1] == header_line(h)[2 * i + 1]);
    }
}

/// The cover alone is fetched as a picture, without the item itself.
pub proof fn law_cover_comes_alone(
    ffmpeg: Seq<char>,
    url: Seq<char>,
    dir: Seq<char>,
    browser: Option<Seq<char>>,
)
    ensures
        thumbnail_line(ffmpeg, url, dir, browser).contains("--skip-download"@),
        thumbnail_line(ffmpeg, url, dir, browser).contains("--write-thumbnail"@),
        followed(thumbnail_line(ffmpeg, url, dir, browser), "--convert-thumbnails"@, "jpg"@),
        followed(thumbnail_line(ffmpeg, url, dir, browser), "--paths"@, "home:"@ + dir),
        followed(thumbnail_line(ffmpeg, url, dir, browser), "--ffmpeg-location"@, ffmpeg),
{
    let t = thumbnail_line(ffmpeg, url, dir, browser);
    let n = t.len() as int;
    assert(t[n - 14] == "--skip-download"@ && t[n - 13] == "--write-thumbnail"@);
    assert(t[n - 12] == "--convert-thumbnails"@ && t[n - 11] == "jpg"@);
    assert(t[n - 5] == "--ffmpeg-location"@ && t[n - 4] == ffmpeg);
    assert(t[n - 3] == "--paths"@ && t[n - 2] == "home:"@ + dir);
}

// What holds of what yt-dlp says.

/// The entries of a list come in their order.
pub proof fn law_entries_keep_their_order(a: Seq<JsonView>, b: Seq<JsonView>)
    ensures
        entries_of(a + b) == entries_of(a) + entries_of(b),
    decreases b.len(),
{
    if b.len() == 0 {
        assert(a + b =~= a);
        assert(entries_of(a) + entries_of(b) =~= entries_of(a));
    } else {
        assert((a + b).drop_last() =~= a + b.drop_last());
        law_entries_keep_their_order(a, b.drop_last());
        assert(entries_of(a + b) =~= entries_of(a) + entries_of(b));
    }
}

/// An entry is taken with its own address and title; the address of its page
/// stands in for one that it does not give, and without either it is no entry.
pub proof fn law_entry_is_taken_as_it_is(e: JsonView, url: Seq<char>)
    ensures
        e.get("url"@) == Some(JsonView::Text(url)) ==> entries_of(seq![e]) == seq![
            EntryView { url, title: e.text_at("title"@) },
        ],
        e.get("url"@) is None && e.get("webpage_url"@) == Some(JsonView::Text(url)) ==> entries_of(
            seq![e],
        ) == seq![EntryView { url, title: e.text_at("title"@) }],
        e.get("url"@) is None && e.get("webpage_url"@) is None ==> entries_of(seq![e]).len() == 0,
{
    assert(seq![e].drop_last() =~= seq![]);
    assert(entries_of(seq![]) =~= seq![]);
    if e.get("url"@) == Some(JsonView::Text(url)) || (e.get("url"@) is None && e.get("webpage_url"@)
        == Some(JsonView::Text(url))) {
        assert(entries_of(seq![e]) =~= seq![EntryView { url, title: e.text_at("title"@) }]);
    }
}

/// A list with entries is a playlist of them, one without any is refused, and
/// everything else is a single item under its title.
pub proof fn law_answer_is_read(v: JsonView, l: Seq<JsonView>)
    ensures
        v.text_at("_type"@) == Some("playlist"@) && v.get("entries"@) == Some(JsonView::List(l)) ==> {
            &&& entries_of(l).len() > 0 ==> (probed(v) matches Ok(ProbeView::Playlist {
                title,
                entries,
            }) && entries == entries_of(l) && (v.text_at("title"@) matches Some(t) ==> title == t))
            &&& entries_of(l).len() == 0 ==> probed(v) is Err
        },
        v.text_at("_type"@) != Some("playlist"@) ==> (probed(v) matches Ok(ProbeView::Single { title })
            && (v.text_at("title"@) matches Some(t) ==> title == t)),
{
}

/// What is told of an error stream begins with its last line that is not blank.
pub proof fn law_last_words_come_first(all: Seq<Seq<char>>, line: Seq<char>)
    requires
        trimmed(line).len() > 0,
    ensures
        starts_with(told(all.push(line)), trimmed(line)),
        trimmed(line).len() > 0,
        last_lines(all.push(line), 3).len() <= 3,
{
    assert(all.push(line).drop_last() =~= all);
    let l = last_lines(all.push(line), 3);
    lemma_last_count(all, 2);
    assert(l[0] == trimmed(line));
    let t = joined(l, " / "@);
    if l.len() > 1 {
        assert(t == l[0] + " / "@ + joined(l.skip(1), " / "@));
    }
    assert(t.take(trimmed(line).len() as int) =~= trimmed(line));
}

proof fn lemma_last_count(all: Seq<Seq<char>>, n: nat)
    ensures
        last_lines(all, n).len() <= n,
    decreases all.len(),
{
    if all.len() > 0 && n > 0 {
        lemma_last_count(all.drop_last(), n);
        lemma_last_count(all.drop_last(), (n - 1) as nat);
    }
}

/// A line that reports the file names it, whichever stream it came on; blank ones
/// report nothing, and the last report counts.
pub proof fn law_reported_file_is_taken(s: ScanView, is_err: bool, name: Seq<char>)
    requires
        !contains("HAULFILE "@ + name, "HAULPROG "@),
    ensures
        s.read(is_err, "HAULFILE "@ + name).0 is None,
        trimmed(name).len() > 0 ==> s.read(is_err, "HAULFILE "@ + name).1.file == Some(trimmed(name)),
        trimmed(name).len() == 0 ==> s.read(is_err, "HAULFILE "@ + name).1.file == s.file,
        s.read(is_err, "HAULFILE "@ + name).1.errs == s.errs,
{
    let line = "HAULFILE "@ + name;
    let mark = "HAULFILE "@;
    assert(line.skip(0) =~= line);
    assert(line.take(mark.len() as int) =~= mark);
    lemma_index_of_is(line, mark, 0);
    assert(line.skip(mark.len() as int) =~= name);
}

/// The modes and their names.
pub proof fn law_modes_and_their_names(s: Seq<char>)
    ensures
        mode_of("audio"@) == Mode::Audio,
        mode_of("image"@) == Mode::Image,
        mode_of("video"@) == Mode::Video,
        s != "audio"@ && s != "image"@ ==> mode_of(s) == Mode::Video,
        mode_name(Mode::Audio) == "audio"@ && mode_name(Mode::Image) == "image"@ && mode_name(
            Mode::Video,
        ) == "video"@,
{
    reveal_strlit("audio");
    reveal_strlit("image");
    reveal_strlit("video");
    assert("audio"@[0] == 'a' && "image"@[0] == 'i' && "video"@[0] == 'v');
}

/// What every call and every download is given besides: no configuration, no warnings
/// and no colours, names that Windows takes, cut at 150, and the progress in the form
/// that is read here.
#[verifier::rlimit(40)]
pub proof fn law_every_download_is_given(
    ffmpeg: Seq<char>,
    url: Seq<char>,
    mode: Mode,
    opts: Options,
    browser: Option<Seq<char>>,
    staging: Seq<char>,
)
    ensures
        base_line() == seq!["--ignore-config"@, "--no-warnings"@, "--no-colors"@],
        starts_list(download_line(ffmpeg, url, mode, opts, browser, staging), base_line()),
        starts_list(probe_line(url, browser), base_line()),
        starts_list(thumbnail_line(ffmpeg, url, staging, browser), base_line()),
        has_all(download_line(ffmpeg, url, mode, opts, browser, staging), fixed_line()),
        followed(fixed_line(), "--trim-filenames"@, "150"@),
        followed(
            fixed_line(),
            "--progress-template"@,
            "download:HAULPROG %(progress.downloaded_bytes)s %(progress.total_bytes)s %(progress.total_bytes_estimate)s"@,
        ),
        fixed_line().contains("--no-simulate"@),
        fixed_line().contains("--windows-filenames"@),
        followed(thumbnail_line(ffmpeg, url, staging, browser), "--trim-filenames"@, "150"@),
        thumbnail_line(ffmpeg, url, staging, browser).contains("--windows-filenames"@),
{
    let b = base_line();
    let d = download_line(ffmpeg, url, mode, opts, browser, staging);
    let p = probe_line(url, browser);
    let t = thumbnail_line(ffmpeg, url, staging, browser);
    let f = fixed_line();
    assert(d.take(3) =~= b);
    assert(p.take(3) =~= b);
    assert(t.take(3) =~= b);
    let front = b + cookie_line(browser) + header_line(pairs(opts.headers@));
    let n = front.len() as int;
    assert(d.subrange(n, n + f.len()) =~= f);
    assert(f[2] == "--no-simulate"@ && f[3] == "--windows-filenames"@ && f[4] == "--trim-filenames"@
        && f[5] == "150"@);
    assert(f[6] == "--progress-template"@ && f[7]
        == "download:HAULPROG %(progress.downloaded_bytes)s %(progress.total_bytes)s %(progress.total_bytes_estimate)s"@);
    let m = (b + cookie_line(browser)).len() as int;
    assert(t[m + 4] == "--windows-filenames"@);
    assert(t[m + 5] == "--trim-filenames"@ && t[m + 5 + 1] == "150"@);
}

/// Whether a list begins with another.
pub open spec fn starts_list(l: Seq<Seq<char>>, front: Seq<Seq<char>>) -> bool {
    front.len() <= l.len() && l.take(front.len() as int) == front
}

/// Whether a list holds another in one piece.
pub open spec fn has_all(l: Seq<Seq<char>>, part: Seq<Seq<char>>) -> bool {
    exists|i: int| 0 <= i && i + part.len() <= l.len() && #[trigger] l.subrange(i, i + part.len()) == part
}

/// The words for a link that yt-dlp says nothing of, and for answers without use.
pub proof fn law_empty_answers_are_told(v: JsonView, stdout: Seq<u8>, stderr: Seq<u8>)
    ensures
        told(seq![]) == "yt-dlp 沒有給出原因"@,
        v.text_at("_type"@) == Some("playlist"@) && !(v.at("entries"@) is List) ==> probed(v) == Err::<
            ProbeView,
            Seq<char>,
        >("這是一份清單，但裡面沒有可下載的項目"@),
        json_read_bytes(stdout) is Err ==> probe_answer(true, stdout, stderr) == Err::<
            ProbeView,
            Seq<char>,
        >("看不懂 yt-dlp 的輸出："@ + json_read_bytes(stdout)->Err_0),
        probe_answer(false, stdout, stderr) == Err::<ProbeView, Seq<char>>(
            told(lines(utf8_lossy(stderr))),
        ),
{
}

/// What an entry is taken to say is what it holds.
pub proof fn law_said_of_entry(x: Entry)
    ensures
        x@.url == x.url@,
        x@.title == text_of(x.title),
{
}

/// What came of a probe is what was learnt, or the words why nothing was.
pub proof fn law_said_of_a_probe(p: Probe, e: String, v: Seq<Entry>, i: int)
    ensures
        probe_outcome(Ok(p)) == Ok::<ProbeView, Seq<char>>(p@),
        probe_outcome(Err(e)) == Err::<ProbeView, Seq<char>>(e@),
        entry_views(v).len() == v.len(),
        0 <= i < v.len() ==> entry_views(v)[i] == v[i]@,
{
}

/// What a probe is taken to say is what it holds.
pub proof fn law_said_of_probe(x: Probe)
    ensures
        match x {
            Probe::Single { title } => x@ == (ProbeView::Single { title: title@ }),
            Probe::Playlist { title, entries } => x@ == (ProbeView::Playlist { title: title@, entries: entry_views(entries@), }),
        },
{
}

/// The last twelve lines of an error stream are kept.
pub proof fn law_twelve_error_lines_are_kept(s: ScanView, line: Seq<char>)
    requires
        marked(line, MARK_PROGRESS@) is None,
        marked(line, MARK_FILE@) is None,
        marked(line, MARK_DUR@) is None,
    ensures
        s.errs.len() < 12 ==> s.read(true, line).1.errs == s.errs.push(line),
        s.errs.len() == 12 ==> s.read(true, line).1.errs == s.errs.push(line).skip(1),
        s.read(false, line).1.errs == s.errs,
{
}

/// The marks in front of what is read here.
pub proof fn law_marks_of_the_output()
    ensures
        MARK_PROGRESS@ == "HAULPROG "@,
        MARK_FILE@ == "HAULFILE "@,
        MARK_DUR@ == "HAULDUR "@,
{
}

/// Nothing comes of nothing.
pub proof fn law_nothing_comes_of_nothing(n: nat, all: Seq<Seq<char>>)
    ensures
        header_line(seq![]).len() == 0,
        entries_of(seq![]).len() == 0,
        last_lines(seq![], n).len() == 0,
        last_lines(all, 0).len() == 0,
{
}

} // verus!
