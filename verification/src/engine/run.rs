//! One item from its job to its file: fetch, check, keep.

use vstd::prelude::*;
use crate::cookies::{header, header_for_host, rows};
use crate::engine::names::{
    cookie_host, direct_ext, ext_of, host_of, is_video_container, kept_ext, sanitize, sanitized,
    url_ext, video_container,
};
use crate::engine::queue::{Job, JobView, Patch, PatchView, Seconds};
use crate::extract::Mode;
use crate::number::{decimal, lemma_decimal, lemma_same_front, to_decimal};
use crate::paths::{self, Platform};
use crate::text::{
    after_last, cat, cat3, contains, find_last, head, lemma_contains_at, lines, pairs,
    starts_with, tail, text_of, Class,
};
use crate::verify::{
    ext_level, level_for, level_for_content_type, level_name, type_level, Audio, Level,
};

verus! {

/// The directory that a job's file goes to.
pub open spec fn job_dir(platform: Platform, out_dir: Seq<char>, job: JobView) -> Seq<char> {
    match job {
        JobView::Direct { subdir: Some(sub), .. } => paths::joined(
            platform,
            out_dir,
            sanitized(sub),
        ),
        _ => out_dir,
    }
}

/// Where a direct fetch ends up. yt-dlp names its files itself, so nothing is
/// known of them beforehand.
pub open spec fn dest_of(
    platform: Platform,
    out_dir: Seq<char>,
    job: JobView,
    mode: Mode,
) -> Option<Seq<char>> {
    match job {
        JobView::Direct { media, title, .. } => Some(
            paths::joined(
                platform,
                job_dir(platform, out_dir, job),
                sanitized(title) + "."@ + kept_ext(media, mode),
            ),
        ),
        JobView::Ytdlp { .. } => None,
    }
}

fn dir_of(platform: Platform, out_dir: &str, job: &Job) -> (r: String)
    ensures
        r@ == job_dir(platform, out_dir@, job@),
{
    match job {
        Job::Direct { subdir: Some(sub), .. } => paths::join(
            platform,
            out_dir,
            sanitize(sub.as_str()).as_str(),
        ),
        _ => out_dir.to_owned(),
    }
}

pub fn direct_dest(platform: Platform, out_dir: &str, job: &Job, mode: Mode) -> (r: Option<
    String,
>)
    ensures
        text_of(r) == dest_of(platform, out_dir@, job@, mode),
{
    match job {
        Job::Direct { media, title, .. } => {
            let ext = direct_ext(media.as_str(), mode);
            let name = cat3(sanitize(title.as_str()).as_str(), ".", ext.as_str());
            Some(paths::join(platform, dir_of(platform, out_dir, job).as_str(), name.as_str()))
        },
        Job::Ytdlp { .. } => None,
    }
}

/// How a job is fetched.
#[derive(Debug)]
pub enum Plan {
    /// The cover alone, into a directory of its own.
    Cover { url: String, dir: String },
    /// By yt-dlp, which names the file itself.
    Ytdlp { url: String },
    /// By a request with the given headers, into `raw`; the sound of a video is
    /// then taken out into `sound`.
    Direct {
        url: String,
        raw: String,
        headers: Vec<(String, String)>,
        sound: Option<String>,
        title: String,
    },
}

/// What a plan says.
#[verifier::ext_equal]
pub enum PlanView {
    Cover { url: Seq<char>, dir: Seq<char> },
    Ytdlp { url: Seq<char> },
    Direct {
        url: Seq<char>,
        raw: Seq<char>,
        headers: Seq<(Seq<char>, Seq<char>)>,
        sound: Option<Seq<char>>,
        title: Seq<char>,
    },
}

impl View for Plan {
    type V = PlanView;

    open spec fn view(&self) -> PlanView {
        match self {
            Plan::Cover { url, dir } => PlanView::Cover { url: url@, dir: dir@ },
            Plan::Ytdlp { url } => PlanView::Ytdlp { url: url@ },
            Plan::Direct { url, raw, headers, sound, title } => PlanView::Direct {
                url: url@,
                raw: raw@,
                headers: pairs(headers@),
                sound: text_of(*sound),
                title: title@,
            },
        }
    }
}

/// The name of the file that a direct fetch writes.
pub open spec fn raw_name(media: Seq<char>, tag: u64) -> Seq<char> {
    decimal(tag as nat) + "-raw."@ + url_ext(media)
}

/// The name of the file that the sound is taken out into.
pub open spec fn sound_name(tag: u64) -> Seq<char> {
    decimal(tag as nat) + ".m4a"@
}

/// The headers of a direct fetch: the cookies for its host, where there are any.
pub open spec fn fetch_headers(media: Seq<char>, cookies: Option<Seq<char>>) -> Seq<
    (Seq<char>, Seq<char>),
> {
    match cookies {
        Some(text) => match header(rows(lines(text)), cookie_host(media)) {
            Some(h) => seq![("cookie"@, h)],
            None => seq![],
        },
        None => seq![],
    }
}

/// How a job is fetched. `tag` tells the files of one item from those of the
/// others, `cookies` is the text of the cookie file.
pub open spec fn planned(
    platform: Platform,
    job: JobView,
    mode: Mode,
    tag: u64,
    staging: Seq<char>,
    cookies: Option<Seq<char>>,
) -> PlanView {
    match job {
        JobView::Ytdlp { url } => if mode == Mode::Image {
            PlanView::Cover {
                url,
                dir: paths::joined(platform, staging, decimal(tag as nat) + "-thumb"@),
            }
        } else {
            PlanView::Ytdlp { url }
        },
        JobView::Direct { media, title, .. } => PlanView::Direct {
            url: media,
            raw: paths::joined(platform, staging, raw_name(media, tag)),
            headers: fetch_headers(media, cookies),
            sound: if mode == Mode::Audio && video_container(url_ext(media)) {
                Some(paths::joined(platform, staging, sound_name(tag)))
            } else {
                None
            },
            title,
        },
    }
}

fn make_headers(media: &str, cookies: Option<&str>) -> (r: Vec<(String, String)>)
    ensures
        pairs(r@) == fetch_headers(media@, crate::text::str_of(cookies)),
{
    let mut out: Vec<(String, String)> = Vec::new();
    if let Some(text) = cookies {
        if let Some(h) = header_for_host(text, host_of(media).as_str()) {
            let ghost hv = h@;
            out.push(("cookie".to_owned(), h));
            proof {
                assert(pairs(out@) =~= seq![("cookie"@, hv)]);
            }
            return out;
        }
    }
    proof {
        assert(pairs(out@) =~= seq![]);
    }
    out
}

pub fn fetch(
    platform: Platform,
    job: &Job,
    mode: Mode,
    tag: u64,
    staging: &str,
    cookies: Option<&str>,
) -> (r: Plan)
    ensures
        r@ == planned(platform, job@, mode, tag, staging@, crate::text::str_of(cookies)),
{
    let number = to_decimal(tag);
    match job {
        Job::Ytdlp { url } => if mode == Mode::Image {
            let name = cat(number.as_str(), "-thumb");
            Plan::Cover {
                url: url.as_str().to_owned(),
                dir: paths::join(platform, staging, name.as_str()),
            }
        } else {
            Plan::Ytdlp { url: url.as_str().to_owned() }
        },
        Job::Direct { media, title, .. } => {
            let ext = ext_of(media.as_str());
            let name = cat3(number.as_str(), "-raw.", ext.as_str());
            let sound = if mode == Mode::Audio && is_video_container(ext.as_str()) {
                Some(paths::join(platform, staging, cat(number.as_str(), ".m4a").as_str()))
            } else {
                None
            };
            Plan::Direct {
                url: media.as_str().to_owned(),
                raw: paths::join(platform, staging, name.as_str()),
                headers: make_headers(media.as_str(), cookies),
                sound,
                title: title.as_str().to_owned(),
            }
        },
    }
}

/// The extension of a file name: what follows the last dot, unless that is the
/// first character.
pub open spec fn name_ext(name: Seq<char>) -> Option<Seq<char>> {
    let dot = after_last(name, Class::Is('.'), true);
    if dot > 1 && name != ".."@ {
        Some(name.skip(dot))
    } else {
        None
    }
}

/// A file name without its extension.
pub open spec fn name_stem(name: Seq<char>) -> Seq<char> {
    let dot = after_last(name, Class::Is('.'), true);
    if dot > 1 && name != ".."@ {
        name.take(dot - 1)
    } else {
        name
    }
}

fn split_name(name: &str) -> (r: (String, Option<String>))
    ensures
        r.0@ == name_stem(name@),
        text_of(r.1) == name_ext(name@),
{
    let dot: usize = find_last(name, Class::Is('.'), true);
    if dot > 1 && !crate::text::same(name, "..") {
        (head(name, dot - 1).to_owned(), Some(tail(name, dot).to_owned()))
    } else {
        (name.to_owned(), None)
    }
}

/// The level that a fetched file is held to. `ext` is its extension, empty where
/// it has none. What the server says of it counts for more.
pub open spec fn gate_level(job: JobView, mode: Mode, ext: Seq<char>) -> Level {
    if mode == Mode::Image {
        Level::Image
    } else {
        match job {
            JobView::Ytdlp { .. } => Level::Media,
            JobView::Direct { content_type, .. } => match content_type {
                Some(ct) => match type_level(ct) {
                    Some(l) => l,
                    None => ext_level(ext),
                },
                None => ext_level(ext),
            },
        }
    }
}

/// The extension of a fetched file, empty where it has none.
pub open spec fn staged_ext(name: Seq<char>) -> Seq<char> {
    match name_ext(name) {
        Some(e) => e,
        None => seq![],
    }
}

pub fn level_of(job: &Job, mode: Mode, staged_name: &str) -> (r: Level)
    ensures
        r == gate_level(job@, mode, staged_ext(staged_name@)),
{
    if mode == Mode::Image {
        return Level::Image;
    }
    let ext = match split_name(staged_name).1 {
        Some(e) => e,
        None => String::new(),
    };
    match job {
        Job::Ytdlp { .. } => Level::Media,
        Job::Direct { content_type, .. } => match content_type {
            Some(ct) => match level_for_content_type(ct.as_str()) {
                Some(l) => l,
                None => level_for(ext.as_str()),
            },
            None => level_for(ext.as_str()),
        },
    }
}

/// Where the check of a file stands.
#[derive(Debug)]
pub enum Check {
    /// The sound is decoded here.
    Decode,
    /// That failed; ffmpeg has to tell.
    Ffmpeg { why: String },
    /// Frames of the video are decoded.
    Frames,
    /// The picture is decoded.
    Picture,
    /// The content is read.
    Content(Level),
    /// It passed.
    Passed(Level),
}

/// What a check says.
#[verifier::ext_equal]
pub enum CheckView {
    Decode,
    Ffmpeg { why: Seq<char> },
    Frames,
    Picture,
    Content(Level),
    Passed(Level),
}

impl View for Check {
    type V = CheckView;

    open spec fn view(&self) -> CheckView {
        match self {
            Check::Decode => CheckView::Decode,
            Check::Ffmpeg { why } => CheckView::Ffmpeg { why: why@ },
            Check::Frames => CheckView::Frames,
            Check::Picture => CheckView::Picture,
            Check::Content(l) => CheckView::Content(*l),
            Check::Passed(l) => CheckView::Passed(*l),
        }
    }
}

/// What came of a step of the check.
#[derive(Debug)]
pub enum Finding {
    Decoded(Result<(), String>),
    Sound(Result<Audio, String>),
    Seen(Result<(), String>),
    /// The step itself broke down.
    Crashed(String),
}

/// The first step of the check at a level.
pub open spec fn first_check(level: Level) -> CheckView {
    match level {
        Level::Media => CheckView::Decode,
        Level::Image => CheckView::Picture,
        Level::Integrity => CheckView::Passed(Level::Integrity),
        l => CheckView::Content(l),
    }
}

pub fn start_check(level: Level) -> (r: Check)
    ensures
        r@ == first_check(level),
{
    match level {
        Level::Media => Check::Decode,
        Level::Image => Check::Picture,
        Level::Integrity => Check::Passed(Level::Integrity),
        l => Check::Content(l),
    }
}

/// After the sound has passed: a video has to show its pictures too.
pub open spec fn sound_passed(mode: Mode) -> CheckView {
    if mode == Mode::Video {
        CheckView::Frames
    } else {
        CheckView::Passed(Level::Media)
    }
}

pub open spec fn with_sym(why: Seq<char>, sym: Seq<char>) -> Seq<char> {
    "驗證未通過："@ + why + "（symphonia："@ + sym + "）"@
}

/// The next step of the check, or why the file does not pass. A finding of
/// another step is not heard.
pub open spec fn checked(c: CheckView, f: Finding, mode: Mode) -> Result<CheckView, Seq<char>> {
    match (c, f) {
        (_, Finding::Crashed(e)) => Err("驗證程序異常："@ + e@),
        (CheckView::Decode, Finding::Decoded(r)) => match r {
            Ok(_) => Ok(sound_passed(mode)),
            Err(e) => Ok(CheckView::Ffmpeg { why: e@ }),
        },
        (CheckView::Ffmpeg { why }, Finding::Sound(r)) => match r {
            Ok(Audio::Decoded) => Ok(sound_passed(mode)),
            Ok(Audio::Absent) => if mode == Mode::Audio {
                Err(with_sym("檔案裡沒有音軌"@, why))
            } else {
                Ok(sound_passed(mode))
            },
            Err(e) => Err(with_sym(e@, why)),
        },
        (CheckView::Frames, Finding::Seen(r)) => match r {
            Ok(_) => Ok(CheckView::Passed(Level::Media)),
            Err(e) => Err("驗證未通過："@ + e@),
        },
        (CheckView::Picture, Finding::Seen(r)) => match r {
            Ok(_) => Ok(CheckView::Passed(Level::Image)),
            Err(e) => Err("驗證未通過："@ + e@),
        },
        (CheckView::Content(l), Finding::Seen(r)) => match r {
            Ok(_) => Ok(CheckView::Passed(l)),
            Err(e) => Err("驗證未通過："@ + e@),
        },
        _ => Ok(c),
    }
}

pub open spec fn check_outcome(r: Result<Check, String>) -> Result<CheckView, Seq<char>> {
    match r {
        Ok(c) => Ok(c@),
        Err(e) => Err(e@),
    }
}

fn after_sound(mode: Mode) -> (r: Check)
    ensures
        r@ == sound_passed(mode),
{
    if mode == Mode::Video {
        Check::Frames
    } else {
        Check::Passed(Level::Media)
    }
}

fn not_passed(why: &str, sym: &str) -> (r: String)
    ensures
        r@ == with_sym(why@, sym@),
{
    let front = cat3("驗證未通過：", why, "（symphonia：");
    cat3(front.as_str(), sym, "）")
}

/// The next step of the check of a file.
pub fn gate(check: Check, finding: &Finding, mode: Mode) -> (r: Result<Check, String>)
    ensures
        check_outcome(r) == checked(check@, *finding, mode),
        *finding is Crashed ==> r is Err,
        check is Ffmpeg && (*finding matches Finding::Sound(Err(_))) ==> r is Err,
        (check is Frames || check is Picture || check is Content) && (*finding matches Finding::Seen(
            Err(_),
        )) ==> r is Err,
{
    if let Finding::Crashed(e) = finding {
        return Err(cat("驗證程序異常：", e.as_str()));
    }
    match (check, finding) {
        (Check::Decode, Finding::Decoded(r)) => match r {
            Ok(_) => Ok(after_sound(mode)),
            Err(e) => Ok(Check::Ffmpeg { why: e.as_str().to_owned() }),
        },
        (Check::Ffmpeg { why }, Finding::Sound(r)) => match r {
            Ok(a) => match a {
                Audio::Decoded => Ok(after_sound(mode)),
                Audio::Absent => if mode == Mode::Audio {
                    Err(not_passed("檔案裡沒有音軌", why.as_str()))
                } else {
                    Ok(after_sound(mode))
                },
            },
            Err(e) => Err(not_passed(e.as_str(), why.as_str())),
        },
        (Check::Frames, Finding::Seen(r)) => match r {
            Ok(_) => Ok(Check::Passed(Level::Media)),
            Err(e) => Err(cat("驗證未通過：", e.as_str())),
        },
        (Check::Picture, Finding::Seen(r)) => match r {
            Ok(_) => Ok(Check::Passed(Level::Image)),
            Err(e) => Err(cat("驗證未通過：", e.as_str())),
        },
        (Check::Content(l), Finding::Seen(r)) => match r {
            Ok(_) => Ok(Check::Passed(l)),
            Err(e) => Err(cat("驗證未通過：", e.as_str())),
        },
        (c, _) => Ok(c),
    }
}

/// The name that a fetched file is given: the title of its job, else its own.
pub open spec fn kept_stem(job: JobView, staged_name: Seq<char>) -> Seq<char> {
    match job {
        JobView::Direct { title, .. } => sanitized(title),
        JobView::Ytdlp { .. } => sanitized(
            if staged_name.len() == 0 {
                "untitled"@
            } else {
                name_stem(staged_name)
            },
        ),
    }
}

/// A fetched file.
#[derive(Debug)]
pub struct Staged {
    /// Its name, without the directory.
    pub name: String,
    /// How long it lasts, as far as that was reported.
    pub reported: Option<Seconds>,
}

/// A file in its place.
#[derive(Debug)]
pub struct Placed {
    pub path: String,
    pub size: u64,
}

/// How far an item is.
#[derive(Debug)]
pub enum Phase {
    /// Its file may be there already.
    Look,
    Fetch,
    Check {
        name: String,
        reported: Option<Seconds>,
        measured: Option<Seconds>,
        check: Check,
    },
    /// Its file passed and goes to its place.
    Place { level: Level, secs: Option<Seconds> },
    Over,
}

/// What a phase says.
#[verifier::ext_equal]
pub enum PhaseView {
    Look,
    Fetch,
    Check {
        name: Seq<char>,
        reported: Option<Seconds>,
        measured: Option<Seconds>,
        check: CheckView,
    },
    Place { level: Level, secs: Option<Seconds> },
    Over,
}

impl View for Phase {
    type V = PhaseView;

    open spec fn view(&self) -> PhaseView {
        match self {
            Phase::Look => PhaseView::Look,
            Phase::Fetch => PhaseView::Fetch,
            Phase::Check { name, reported, measured, check } => PhaseView::Check {
                name: name@,
                reported: *reported,
                measured: *measured,
                check: check@,
            },
            Phase::Place { level, secs } => PhaseView::Place { level: *level, secs: *secs },
            Phase::Over => PhaseView::Over,
        }
    }
}

/// What came of the last thing to do.
#[derive(Debug)]
pub enum Happened {
    /// Whether a file is where `direct_dest` points.
    Looked(bool),
    Fetched(Result<Staged, String>),
    /// What a step of the check found, and how long the file lasts, where that
    /// was measured.
    Checked { finding: Finding, measured: Option<Seconds> },
    Placed(Result<Placed, String>),
}

/// What is to be done for an item.
#[derive(Debug)]
pub enum Todo {
    Nothing,
    Fetch(Plan),
    Check(Check),
    /// Put the file into `dir`, which may have to be made, under the name
    /// `stem`, or the next free one like it.
    Place { dir: String, make_dir: bool, stem: String, ext: String },
    /// It is over: change the item so and remember it.
    Finish(Patch),
    /// It has failed; the fetched file may have to be deleted.
    Fail { why: String, discard: bool },
}

/// What a thing to do says.
#[verifier::ext_equal]
pub enum TodoView {
    Nothing,
    Fetch(PlanView),
    Check(CheckView),
    Place { dir: Seq<char>, make_dir: bool, stem: Seq<char>, ext: Seq<char> },
    Finish(PatchView),
    Fail { why: Seq<char>, discard: bool },
}

impl View for Todo {
    type V = TodoView;

    open spec fn view(&self) -> TodoView {
        match self {
            Todo::Nothing => TodoView::Nothing,
            Todo::Fetch(p) => TodoView::Fetch(p@),
            Todo::Check(c) => TodoView::Check(c@),
            Todo::Place { dir, make_dir, stem, ext } => TodoView::Place {
                dir: dir@,
                make_dir: *make_dir,
                stem: stem@,
                ext: ext@,
            },
            Todo::Finish(p) => TodoView::Finish(p@),
            Todo::Fail { why, discard } => TodoView::Fail { why: why@, discard: *discard },
        }
    }
}

/// Where a fetched file is kept.
pub open spec fn kept(
    platform: Platform,
    out_dir: Seq<char>,
    job: JobView,
    staged_name: Seq<char>,
) -> TodoView {
    TodoView::Place {
        dir: job_dir(platform, out_dir, job),
        make_dir: job matches JobView::Direct { subdir: Some(_), .. },
        stem: kept_stem(job, staged_name),
        ext: match name_ext(staged_name) {
            Some(e) => e,
            None => "bin"@,
        },
    }
}

/// One item on its way.
pub struct Run {
    platform: Platform,
    job: Job,
    mode: Mode,
    tag: u64,
    out_dir: String,
    staging: String,
    overwrite: bool,
    phase: Phase,
}

/// What is known of an item on its way.
#[verifier::ext_equal]
pub struct RunView {
    pub platform: Platform,
    pub job: JobView,
    pub mode: Mode,
    pub tag: u64,
    pub out_dir: Seq<char>,
    pub staging: Seq<char>,
    pub overwrite: bool,
    pub phase: PhaseView,
}

impl View for Run {
    type V = RunView;

    closed spec fn view(&self) -> RunView {
        RunView {
            platform: self.platform,
            job: self.job@,
            mode: self.mode,
            tag: self.tag,
            out_dir: self.out_dir@,
            staging: self.staging@,
            overwrite: self.overwrite,
            phase: self.phase@,
        }
    }
}

/// The first duration that is known.
pub open spec fn first_known(a: Option<Seconds>, b: Option<Seconds>) -> Option<Seconds> {
    match a {
        Some(s) => Some(s),
        None => b,
    }
}

impl RunView {
    /// After a step of the check: the next one or, where it has passed, its
    /// place.
    pub open spec fn checking(
        self,
        name: Seq<char>,
        reported: Option<Seconds>,
        measured: Option<Seconds>,
        check: CheckView,
    ) -> (TodoView, RunView) {
        match check {
            CheckView::Passed(level) => (
                kept(self.platform, self.out_dir, self.job, name),
                RunView {
                    phase: PhaseView::Place { level, secs: first_known(reported, measured) },
                    ..self
                },
            ),
            c => (
                TodoView::Check(c),
                RunView { phase: PhaseView::Check { name, reported, measured, check: c }, ..self },
            ),
        }
    }

    pub open spec fn over(self) -> RunView {
        RunView { phase: PhaseView::Over, ..self }
    }

    /// What is to be done after something happened, and the item after it.
    /// `cookies` is the text of the cookie file. What does not belong to the
    /// phase changes nothing.
    pub open spec fn after(self, e: Happened, cookies: Option<Seq<char>>) -> (TodoView, RunView) {
        match (self.phase, e) {
            (PhaseView::Look, Happened::Looked(is_file)) => {
                let dest = dest_of(self.platform, self.out_dir, self.job, self.mode);
                if is_file && !self.overwrite && dest is Some {
                    (
                        TodoView::Finish(
                            PatchView::Existing {
                                file: paths::last_name(self.platform, dest->0),
                                path: dest->0,
                            },
                        ),
                        self.over(),
                    )
                } else {
                    (
                        TodoView::Fetch(
                            planned(self.platform, self.job, self.mode, self.tag, self.staging, cookies),
                        ),
                        RunView { phase: PhaseView::Fetch, ..self },
                    )
                }
            },
            (PhaseView::Fetch, Happened::Fetched(r)) => match r {
                Ok(f) => self.checking(
                    f.name@,
                    f.reported,
                    None,
                    first_check(gate_level(self.job, self.mode, staged_ext(f.name@))),
                ),
                Err(e) => (TodoView::Fail { why: e@, discard: false }, self.over()),
            },
            (
                PhaseView::Check { name, reported, measured, check },
                Happened::Checked { finding, measured: now },
            ) => match checked(check, finding, self.mode) {
                Ok(c) => self.checking(name, reported, first_known(measured, now), c),
                Err(why) => (TodoView::Fail { why, discard: true }, self.over()),
            },
            (PhaseView::Place { level, secs }, Happened::Placed(r)) => match r {
                Ok(p) => (
                    TodoView::Finish(
                        PatchView::Done {
                            secs,
                            file: paths::last_name(self.platform, p.path@),
                            level: level_name(level),
                            path: p.path@,
                            size: p.size,
                        },
                    ),
                    self.over(),
                ),
                Err(e) => (TodoView::Fail { why: e@, discard: false }, self.over()),
            },
            _ => (TodoView::Nothing, self),
        }
    }
}

fn known(a: Option<Seconds>, b: Option<Seconds>) -> (r: Option<Seconds>)
    ensures
        r == first_known(a, b),
{
    match a {
        Some(s) => Some(s),
        None => b,
    }
}

impl Run {
    pub fn new(
        platform: Platform,
        job: Job,
        mode: Mode,
        tag: u64,
        out_dir: &str,
        staging: &str,
        overwrite: bool,
    ) -> (r: Run)
        ensures
            r@ == (RunView {
                platform,
                job: job@,
                mode,
                tag,
                out_dir: out_dir@,
                staging: staging@,
                overwrite,
                phase: PhaseView::Look,
            }),
    {
        Run {
            platform,
            job,
            mode,
            tag,
            out_dir: out_dir.to_owned(),
            staging: staging.to_owned(),
            overwrite,
            phase: Phase::Look,
        }
    }

    /// Where the item's file may be already.
    pub fn dest(&self) -> (r: Option<String>)
        ensures
            text_of(r) == dest_of(self@.platform, self@.out_dir, self@.job, self@.mode),
    {
        direct_dest(self.platform, self.out_dir.as_str(), &self.job, self.mode)
    }

    fn place(&self, name: &str) -> (r: Todo)
        ensures
            r@ == kept(self@.platform, self@.out_dir, self@.job, name@),
    {
        let parts = split_name(name);
        let ext = match parts.1 {
            Some(e) => e,
            None => "bin".to_owned(),
        };
        let make_dir = match &self.job {
            Job::Direct { subdir, .. } => subdir.is_some(),
            _ => false,
        };
        let stem = match &self.job {
            Job::Direct { title, .. } => sanitize(title.as_str()),
            Job::Ytdlp { .. } => if name.unicode_len() == 0 {
                sanitize("untitled")
            } else {
                sanitize(parts.0.as_str())
            },
        };
        Todo::Place { dir: dir_of(self.platform, self.out_dir.as_str(), &self.job), make_dir, stem, ext }
    }

    fn check(
        &mut self,
        name: String,
        reported: Option<Seconds>,
        measured: Option<Seconds>,
        check: Check,
    ) -> (r: Todo)
        ensures
            (r@, final(self)@) == old(self)@.checking(name@, reported, measured, check@),
    {
        match check {
            Check::Passed(level) => {
                let todo = self.place(name.as_str());
                self.phase = Phase::Place { level, secs: known(reported, measured) };
                todo
            },
            c => {
                let copy = copy_check(&c);
                self.phase = Phase::Check { name, reported, measured, check: c };
                Todo::Check(copy)
            },
        }
    }

    fn end(&mut self, todo: Todo) -> (r: Todo)
        ensures
            r == todo,
            final(self)@ == old(self)@.over(),
    {
        self.phase = Phase::Over;
        todo
    }

    /// What is to be done after something happened.
    pub fn step(&mut self, happened: Happened, cookies: Option<&str>) -> (r: Todo)
        ensures
            (r@, final(self)@) == old(self)@.after(happened, crate::text::str_of(cookies)),
    {
        let mut phase = Phase::Over;
        std::mem::swap(&mut phase, &mut self.phase);
        match (phase, happened) {
            (Phase::Look, Happened::Looked(is_file)) => {
                if is_file && !self.overwrite {
                    if let Some(path) = self.dest() {
                        let file = paths::file_name(self.platform, path.as_str());
                        return self.end(Todo::Finish(Patch::Existing { file, path }));
                    }
                }
                self.phase = Phase::Fetch;
                Todo::Fetch(
                    fetch(self.platform, &self.job, self.mode, self.tag, self.staging.as_str(), cookies),
                )
            },
            (Phase::Fetch, Happened::Fetched(r)) => match r {
                Ok(f) => {
                    let level = level_of(&self.job, self.mode, f.name.as_str());
                    self.check(f.name, f.reported, None, start_check(level))
                },
                Err(e) => self.end(Todo::Fail { why: e, discard: false }),
            },
            (
                Phase::Check { name, reported, measured, check },
                Happened::Checked { finding, measured: now },
            ) => match gate(check, &finding, self.mode) {
                Ok(c) => self.check(name, reported, known(measured, now), c),
                Err(why) => self.end(Todo::Fail { why, discard: true }),
            },
            (Phase::Place { level, secs }, Happened::Placed(r)) => match r {
                Ok(p) => {
                    let file = paths::file_name(self.platform, p.path.as_str());
                    self.end(
                        Todo::Finish(
                            Patch::Done {
                                secs,
                                file,
                                level: level.as_str().to_owned(),
                                path: p.path,
                                size: p.size,
                            },
                        ),
                    )
                },
                Err(e) => self.end(Todo::Fail { why: e, discard: false }),
            },
            (p, _) => {
                self.phase = p;
                Todo::Nothing
            },
        }
    }
}

fn copy_check(c: &Check) -> (r: Check)
    ensures
        r@ == c@,
{
    match c {
        Check::Decode => Check::Decode,
        Check::Ffmpeg { why } => Check::Ffmpeg { why: why.as_str().to_owned() },
        Check::Frames => Check::Frames,
        Check::Picture => Check::Picture,
        Check::Content(l) => Check::Content(*l),
        Check::Passed(l) => Check::Passed(*l),
    }
}

/// A file goes to its place only after it passed: the last step of its check
/// was the one that passed it, or nothing more than its size could be checked.
pub proof fn law_only_passed_files_are_kept(r: RunView, e: Happened, cookies: Option<Seq<char>>)
    requires
        r.after(e, cookies).0 is Place,
    ensures
        r.phase is Check || r.phase is Fetch,
        r.phase matches PhaseView::Check { check, .. } ==> (e matches Happened::Checked {
            finding,
            ..
        } && checked(check, finding, r.mode) matches Ok(CheckView::Passed(_))),
        r.phase is Fetch ==> (e matches Happened::Fetched(Ok(f)) && gate_level(
            r.job,
            r.mode,
            staged_ext(f.name@),
        ) == Level::Integrity),
{
}

/// A file that does not pass is deleted, and the item fails with the reason.
pub proof fn law_failed_files_are_deleted(
    r: RunView,
    finding: Finding,
    measured: Option<Seconds>,
    cookies: Option<Seq<char>>,
)
    requires
        r.phase matches PhaseView::Check { check, .. } && checked(check, finding, r.mode) is Err,
    ensures
        r.after(Happened::Checked { finding, measured }, cookies).0 == (TodoView::Fail {
            why: checked(r.phase->check, finding, r.mode)->Err_0,
            discard: true,
        }),
{
}

/// An item ends once: after its end nothing more is done for it.
pub proof fn law_an_item_ends_once(
    r: RunView,
    e: Happened,
    later: Happened,
    cookies: Option<Seq<char>>,
)
    requires
        r.after(e, cookies).0 is Finish || r.after(e, cookies).0 is Fail,
    ensures
        r.after(e, cookies).1.phase is Over,
        r.after(e, cookies).1.after(later, cookies) == (TodoView::Nothing, r.after(e, cookies).1),
{
}

/// The level of the check that a step belongs to.
pub open spec fn check_level(c: CheckView) -> Level {
    match c {
        CheckView::Decode => Level::Media,
        CheckView::Ffmpeg { .. } => Level::Media,
        CheckView::Frames => Level::Media,
        CheckView::Picture => Level::Image,
        CheckView::Content(l) => l,
        CheckView::Passed(l) => l,
    }
}

/// A file is reported at the level at which it was checked: no step changes it.
pub proof fn law_level_is_honest(c: CheckView, f: Finding, mode: Mode)
    ensures
        checked(c, f, mode) matches Ok(next) ==> check_level(next) == check_level(c),
{
}

pub proof fn law_check_starts_at_its_level(level: Level)
    ensures
        check_level(first_check(level)) == level,
{
}

/// A video is not passed before its pictures have been seen.
pub proof fn law_video_passes_with_pictures(c: CheckView, f: Finding)
    requires
        c is Decode || c is Ffmpeg || c is Frames,
        checked(c, f, Mode::Video) == Ok::<CheckView, Seq<char>>(CheckView::Passed(Level::Media)),
    ensures
        c is Frames,
        f matches Finding::Seen(Ok(_)),
{
}

/// Sound that is asked for alone has to be there.
pub proof fn law_audio_needs_sound(why: Seq<char>)
    ensures
        checked(CheckView::Ffmpeg { why }, Finding::Sound(Ok(Audio::Absent)), Mode::Audio) is Err,
        checked(CheckView::Ffmpeg { why }, Finding::Sound(Ok(Audio::Absent)), Mode::Video) is Ok,
{
}

/// The name of the file that a direct fetch leaves for the check.
pub open spec fn left_name(media: Seq<char>, mode: Mode, tag: u64) -> Seq<char> {
    if mode == Mode::Audio && video_container(url_ext(media)) {
        sound_name(tag)
    } else {
        raw_name(media, tag)
    }
}

proof fn lemma_ext_has_no_dot(media: Seq<char>)
    ensures
        forall|i: int| 0 <= i < url_ext(media).len() ==> (#[trigger] url_ext(media)[i]) != '.',
{
    reveal_strlit("bin");
}

proof fn lemma_ext_behind(front: Seq<char>, ext: Seq<char>)
    requires
        front.len() > 0,
        front[0] != '.',
        forall|i: int| 0 <= i < ext.len() ==> (#[trigger] ext[i]) != '.',
    ensures
        name_ext(front + "."@ + ext) == Some(ext),
{
    reveal_strlit(".");
    reveal_strlit("..");
    let name = front + "."@ + ext;
    let k = Class::Is('.');
    let n = front.len() + 1;
    assert(name[n - 1] == '.');
    assert forall|j: int| n <= j < name.len() implies k.has(#[trigger] name[j]) != true by {
        assert(name[j] == ext[j - n]);
    }
    crate::text::lemma_after_last_is(name, k, true, n as int);
    assert(name.skip(n as int) =~= ext);
    assert(name[0] == front[0]);
    assert(".."@[0] == '.');
}

/// The look whether a file is there already and the place where it is kept speak
/// of the same path: what a direct fetch leaves is kept, if that is free, where
/// the look will find it the next time.
pub proof fn law_skip_looks_where_keep_puts(
    platform: Platform,
    out_dir: Seq<char>,
    media: Seq<char>,
    title: Seq<char>,
    content_type: Option<Seq<char>>,
    subdir: Option<Seq<char>>,
    mode: Mode,
    tag: u64,
)
    ensures
        ({
            let job = JobView::Direct { media, title, content_type, subdir };
            kept(platform, out_dir, job, left_name(media, mode, tag)) matches TodoView::Place {
                dir,
                stem,
                ext,
                ..
            } && dest_of(platform, out_dir, job, mode) == Some(
                paths::joined(platform, dir, crate::engine::names::numbered(stem, ext, 1)),
            )
        }),
{
    crate::number::lemma_decimal(tag as nat);
    assert(crate::text::digit(decimal(tag as nat)[0]));
    reveal_strlit("-raw.");
    reveal_strlit("-raw");
    reveal_strlit(".m4a");
    reveal_strlit(".");
    reveal_strlit("m4a");
    let name = left_name(media, mode, tag);
    let number = decimal(tag as nat);
    if mode == Mode::Audio && video_container(url_ext(media)) {
        assert(name =~= number + "."@ + "m4a"@);
        lemma_ext_behind(number, "m4a"@);
    } else {
        assert(name =~= number + "-raw"@ + "."@ + url_ext(media));
        lemma_ext_has_no_dot(media);
        lemma_ext_behind(number + "-raw"@, url_ext(media));
    }
}

/// A check goes forward on a good finding only: what a step finds wrong fails the
/// file, and a step that broke down does too. The one way around is from the
/// decoder at hand to ffmpeg.
pub proof fn law_bad_findings_fail(c: CheckView, f: Finding, mode: Mode)
    ensures
        f is Crashed ==> checked(c, f, mode) is Err,
        c is Ffmpeg && (f matches Finding::Sound(Err(_))) ==> checked(c, f, mode) is Err,
        (c is Frames || c is Picture || c is Content) && (f matches Finding::Seen(Err(_))) ==> checked(
            c,
            f,
            mode,
        ) is Err,
        c is Decode && (f matches Finding::Decoded(Err(_))) ==> (checked(c, f, mode) matches Ok(
            next,
        ) && next is Ffmpeg),
        !(c is Passed) && (checked(c, f, mode) matches Ok(next) && next is Passed) ==> {
            ||| f matches Finding::Decoded(Ok(_))
            ||| f matches Finding::Sound(Ok(_))
            ||| f matches Finding::Seen(Ok(_))
        },
{
}

/// What is found to be good goes forward: sound is enough unless a video was asked
/// for, then frames are looked at; frames, a picture and a content that were seen
/// pass at their own level.
pub proof fn law_good_findings_pass(c: CheckView, mode: Mode, l: Level)
    ensures
        (c is Decode || c is Ffmpeg) && mode == Mode::Video ==> {
            &&& checked(CheckView::Decode, Finding::Decoded(Ok(())), mode) matches Ok(n) && n is Frames
            &&& c is Ffmpeg ==> (checked(c, Finding::Sound(Ok(Audio::Decoded)), mode) matches Ok(n)
                && n is Frames)
        },
        c is Ffmpeg && mode == Mode::Audio ==> (checked(c, Finding::Sound(Ok(Audio::Decoded)), mode)
            matches Ok(n) && n == CheckView::Passed(Level::Media)),
        mode == Mode::Audio ==> (checked(CheckView::Decode, Finding::Decoded(Ok(())), mode) matches Ok(
            n,
        ) && n == CheckView::Passed(Level::Media)),
        checked(CheckView::Frames, Finding::Seen(Ok(())), mode) matches Ok(n) && n
            == CheckView::Passed(Level::Media),
        checked(CheckView::Picture, Finding::Seen(Ok(())), mode) matches Ok(n) && n
            == CheckView::Passed(Level::Image),
        checked(CheckView::Content(l), Finding::Seen(Ok(())), mode) matches Ok(n) && n
            == CheckView::Passed(l),
{
}

/// A file that fails is told why: the words of the finding are in the reason and,
/// where two decoders failed, those of the first one too.
pub proof fn law_reason_is_told(c: CheckView, f: Finding, mode: Mode)
    ensures
        f matches Finding::Crashed(e) ==> (checked(c, f, mode) matches Err(w) && contains(w, e@)),
        (c is Frames || c is Picture || c is Content) && (f matches Finding::Seen(Err(_))) ==> (checked(
            c,
            f,
            mode,
        ) matches Err(w) && contains(w, f->Seen_0->Err_0@) && starts_with(w, "驗證未通過："@)),
        c is Ffmpeg && (f matches Finding::Sound(Err(_))) ==> (checked(c, f, mode) matches Err(w)
            && contains(w, f->Sound_0->Err_0@) && contains(w, c->why) && starts_with(
            w,
            "驗證未通過："@,
        )),
        c is Decode && (f matches Finding::Decoded(Err(_))) ==> (checked(c, f, mode) matches Ok(next)
            && next->why == f->Decoded_0->Err_0@),
{
    let head = "驗證未通過："@;
    match f {
        Finding::Crashed(e) => {
            let w = "驗證程序異常："@ + e@;
            let n = "驗證程序異常："@.len() as int;
            assert(w.subrange(n, n + e@.len()) =~= e@);
            lemma_contains_at(w, e@, n);
        },
        Finding::Seen(Err(e)) => {
            let w = head + e@;
            assert(w.subrange(head.len() as int, head.len() as int + e@.len()) =~= e@);
            lemma_contains_at(w, e@, head.len() as int);
            assert(w.take(head.len() as int) =~= head);
        },
        Finding::Sound(Err(e)) => {
            if c is Ffmpeg {
                let why = c->why;
                let mid = "（symphonia："@;
                let w = head + e@ + mid + why + "）"@;
                let n = head.len() as int;
                let m = n + e@.len() + mid.len();
                assert(w.subrange(n, n + e@.len()) =~= e@);
                lemma_contains_at(w, e@, n);
                assert(w.subrange(m, m + why.len()) =~= why);
                lemma_contains_at(w, why, m);
                assert(w.take(n) =~= head);
            }
        },
        _ => {},
    }
}

/// What a job is checked at: a picture in image mode, media where yt-dlp fetched
/// it, and else what its content type tells, or its extension where that tells
/// nothing.
pub proof fn law_level_follows_the_job(job: JobView, mode: Mode, ext: Seq<char>)
    ensures
        mode == Mode::Image ==> gate_level(job, mode, ext) == Level::Image,
        mode != Mode::Image && job is Ytdlp ==> gate_level(job, mode, ext) == Level::Media,
        mode != Mode::Image && (job matches JobView::Direct { content_type: Some(ct), .. } && type_level(
            ct,
        ) is Some) ==> Some(gate_level(job, mode, ext)) == type_level(job->content_type->0),
        mode != Mode::Image && (job matches JobView::Direct { content_type: None, .. }) ==> gate_level(
            job,
            mode,
            ext,
        ) == ext_level(ext),
        first_check(Level::Media) is Decode,
        first_check(Level::Image) is Picture,
        first_check(Level::Json) == CheckView::Content(Level::Json),
        first_check(Level::Archive) == CheckView::Content(Level::Archive),
        first_check(Level::Text) == CheckView::Content(Level::Text),
        first_check(Level::Integrity) == CheckView::Passed(Level::Integrity),
{
}

/// A job is fetched from its own address: by yt-dlp, only the cover of it in image
/// mode, or by a request. Sound is taken out of a video only, and only where sound
/// alone was asked for.
pub proof fn law_plan_fetches_the_job(
    platform: Platform,
    job: JobView,
    mode: Mode,
    tag: u64,
    staging: Seq<char>,
    cookies: Option<Seq<char>>,
)
    ensures
        job matches JobView::Ytdlp { url } ==> {
            let p = planned(platform, job, mode, tag, staging, cookies);
            &&& mode == Mode::Image ==> (p matches PlanView::Cover { url: u, .. } && u == url)
            &&& mode != Mode::Image ==> (p matches PlanView::Ytdlp { url: u } && u == url)
        },
        job matches JobView::Direct { media, title, .. } ==> {
            let p = planned(platform, job, mode, tag, staging, cookies);
            &&& p is Direct
            &&& p->Direct_url == media
            &&& p->title == title
            &&& p->raw == paths::joined(
                platform,
                staging,
                decimal(tag as nat) + "-raw."@ + url_ext(media),
            )
            &&& p->sound is Some <==> mode == Mode::Audio && video_container(url_ext(media))
            &&& p->sound matches Some(s) ==> s == paths::joined(
                platform,
                staging,
                decimal(tag as nat) + ".m4a"@,
            )
            &&& cookies is None ==> p->headers.len() == 0
        },
{
}

/// The files that two items write while they are fetched are different ones.
pub proof fn law_items_write_their_own_files(a: u64, b: u64, x: Seq<char>, y: Seq<char>)
    requires
        a != b,
    ensures
        raw_name(x, a) != raw_name(y, b),
        sound_name(a) != sound_name(b),
{
    reveal_strlit("-raw.");
    reveal_strlit(".m4a");
    let m = decimal(a as nat);
    let n = decimal(b as nat);
    lemma_decimal(a as nat);
    lemma_decimal(b as nat);
    assert(raw_name(x, a) =~= m + ("-raw."@ + url_ext(x)));
    assert(raw_name(y, b) =~= n + ("-raw."@ + url_ext(y)));
    if raw_name(x, a) == raw_name(y, b) {
        lemma_same_front(m, "-raw."@ + url_ext(x), n, "-raw."@ + url_ext(y));
    }
    if sound_name(a) == sound_name(b) {
        lemma_same_front(m, ".m4a"@, n, ".m4a"@);
    }
}

/// An item goes its way: it is fetched unless its file is there and may stay, it
/// fails with the words of what went wrong, and a file in its place ends it with
/// that place, its size and the level that was reached.
pub proof fn law_item_goes_its_way(r: RunView, e: Happened, cookies: Option<Seq<char>>)
    ensures
        r.phase is Look && (e matches Happened::Looked(_)) ==> {
            let t = r.after(e, cookies).0;
            &&& t is Finish <==> e->Looked_0 && !r.overwrite && r.job is Direct
            &&& !(t is Finish) ==> t is Fetch
        },
        r.phase is Fetch && (e matches Happened::Fetched(Err(_))) ==> (r.after(e, cookies).0
            matches TodoView::Fail { why, .. } && why == e->Fetched_0->Err_0@),
        r.phase is Fetch && (e matches Happened::Fetched(Ok(_))) ==> r.after(e, cookies).0 is Check
            || r.after(e, cookies).0 is Place,
        r.phase is Place && (e matches Happened::Placed(Err(_))) ==> (r.after(e, cookies).0
            matches TodoView::Fail { why, .. } && why == e->Placed_0->Err_0@),
        r.phase is Place && (e matches Happened::Placed(Ok(_))) ==> (r.after(e, cookies).0
            matches TodoView::Finish(PatchView::Done { level, path, size, secs, .. }) && path
            == e->Placed_0->Ok_0.path@ && size == e->Placed_0->Ok_0.size && secs == r.phase->secs
            && level == (match r.phase->level {
            Level::Media => "media"@,
            Level::Image => "image"@,
            Level::Json => "json"@,
            Level::Archive => "archive"@,
            Level::Text => "text"@,
            Level::Integrity => "integrity"@,
        })),
        r.after(e, cookies).1.job == r.job,
        r.after(e, cookies).1.mode == r.mode,
{
}

/// A direct fetch is named by its title: in the download directory, or in the
/// directory of its gallery, with the extension of its address, or `m4a` where the
/// sound is taken out of a video.
pub proof fn law_file_is_named_by_its_title(
    platform: Platform,
    out_dir: Seq<char>,
    media: Seq<char>,
    title: Seq<char>,
    content_type: Option<Seq<char>>,
    sub: Seq<char>,
    mode: Mode,
)
    ensures
        ({
            let ext = if mode == Mode::Audio && video_container(url_ext(media)) {
                "m4a"@
            } else {
                url_ext(media)
            };
            let name = sanitized(title) + "."@ + ext;
            let plain = JobView::Direct { media, title, content_type, subdir: None };
            let inside = JobView::Direct { media, title, content_type, subdir: Some(sub) };
            &&& dest_of(platform, out_dir, plain, mode) == Some(paths::joined(platform, out_dir, name))
            &&& dest_of(platform, out_dir, inside, mode) == Some(
                paths::joined(platform, paths::joined(platform, out_dir, sanitized(sub)), name),
            )
            &&& dest_of(platform, out_dir, JobView::Ytdlp { url: media }, mode) is None
        }),
{
}

/// A cover is fetched into a directory of the item's own.
pub proof fn law_cover_has_its_own_directory(
    platform: Platform,
    url: Seq<char>,
    tag: u64,
    staging: Seq<char>,
    cookies: Option<Seq<char>>,
)
    ensures
        planned(platform, JobView::Ytdlp { url }, Mode::Image, tag, staging, cookies) == (PlanView::Cover {
            url,
            dir: paths::joined(platform, staging, decimal(tag as nat) + "-thumb"@),
        }),
{
}

/// A name is parted at its last dot, unless that is its first character or the name is
/// that of the directory above.
pub proof fn law_names_are_parted_at_the_dot(stem: Seq<char>, ext: Seq<char>)
    requires
        stem.len() > 0,
        !ext.contains('.'),
    ensures
        stem + "."@ + ext != ".."@ ==> name_ext(stem + "."@ + ext) == Some(ext) && name_stem(
            stem + "."@ + ext,
        ) == stem,
        name_ext(".."@) is None && name_stem(".."@) == ".."@,
        name_ext(ext) is None && name_stem(ext) == ext,
        name_ext("."@ + ext) is None && name_stem("."@ + ext) == "."@ + ext,
{
    reveal_strlit(".");
    reveal_strlit("..");
    let n = stem + "."@ + ext;
    assert(n =~= stem + seq!['.'] + ext);
    crate::text::law_end_begins_behind(stem, '.', ext);
    assert(n.skip(stem.len() as int + 1) =~= ext);
    assert(n.take(stem.len() as int) =~= stem);
    crate::text::law_end_begins_behind(seq![], '.', ext);
    assert("."@ + ext =~= seq![] + seq!['.'] + ext);
}

/// The words for a file that does not pass: why, and what was said of its sound before.
pub proof fn law_failed_checks_are_told(why: Seq<char>, e: String, c: CheckView, mode: Mode)
    ensures
        checked(c, Finding::Crashed(e), mode) == Err::<CheckView, Seq<char>>("驗證程序異常："@ + e@),
        checked(CheckView::Ffmpeg { why }, Finding::Sound(Err(e)), mode) == Err::<CheckView, Seq<char>>(
            "驗證未通過："@ + e@ + "（symphonia："@ + why + "）"@,
        ),
        checked(CheckView::Ffmpeg { why }, Finding::Sound(Ok(Audio::Absent)), Mode::Audio) == Err::<
            CheckView,
            Seq<char>,
        >("驗證未通過："@ + "檔案裡沒有音軌"@ + "（symphonia："@ + why + "）"@),
        checked(CheckView::Frames, Finding::Seen(Err(e)), mode) == Err::<CheckView, Seq<char>>(
            "驗證未通過："@ + e@,
        ),
{
}

/// What came of a check is where it stands, or the words why it failed.
pub proof fn law_said_of_a_check(c: Check, e: String)
    ensures
        check_outcome(Ok(c)) == Ok::<CheckView, Seq<char>>(c@),
        check_outcome(Err(e)) == Err::<CheckView, Seq<char>>(e@),
{
}

/// What a plan is taken to say is what it holds.
pub proof fn law_said_of_plan(x: Plan)
    ensures
        match x {
            Plan::Cover { url, dir } => x@ == (PlanView::Cover { url: url@, dir: dir@ }),
            Plan::Ytdlp { url } => x@ == (PlanView::Ytdlp { url: url@ }),
            Plan::Direct { url, raw, headers, sound, title } => x@ == (PlanView::Direct { url: url@, raw: raw@, headers: pairs(headers@), sound: text_of(sound), title: title@, }),
        },
{
}

/// What a check is taken to say is what it holds.
pub proof fn law_said_of_check(x: Check)
    ensures
        match x {
            Check::Decode => x@ == (CheckView::Decode),
            Check::Ffmpeg { why } => x@ == (CheckView::Ffmpeg { why: why@ }),
            Check::Frames => x@ == (CheckView::Frames),
            Check::Picture => x@ == (CheckView::Picture),
            Check::Content(l) => x@ == (CheckView::Content(l)),
            Check::Passed(l) => x@ == (CheckView::Passed(l)),
        },
{
}

/// What a phase is taken to say is what it holds.
pub proof fn law_said_of_phase(x: Phase)
    ensures
        match x {
            Phase::Look => x@ == (PhaseView::Look),
            Phase::Fetch => x@ == (PhaseView::Fetch),
            Phase::Check { name, reported, measured, check } => x@ == (PhaseView::Check { name: name@, reported: reported, measured: measured, check: check@, }),
            Phase::Place { level, secs } => x@ == (PhaseView::Place { level: level, secs: secs }),
            Phase::Over => x@ == (PhaseView::Over),
        },
{
}

/// What a todo is taken to say is what it holds.
pub proof fn law_said_of_todo(x: Todo)
    ensures
        match x {
            Todo::Nothing => x@ == (TodoView::Nothing),
            Todo::Fetch(p) => x@ == (TodoView::Fetch(p@)),
            Todo::Check(c) => x@ == (TodoView::Check(c@)),
            Todo::Place { dir, make_dir, stem, ext } => x@ == (TodoView::Place { dir: dir@, make_dir: make_dir, stem: stem@, ext: ext@, }),
            Todo::Finish(p) => x@ == (TodoView::Finish(p@)),
            Todo::Fail { why, discard } => x@ == (TodoView::Fail { why: why@, discard: discard }),
        },
{
}

/// What yt-dlp fetched keeps its name, made fit for a file; without one it is untitled.
pub proof fn law_fetched_files_keep_their_name(url: Seq<char>, name: Seq<char>)
    ensures
        name.len() > 0 ==> kept_stem(JobView::Ytdlp { url }, name) == sanitized(name_stem(name)),
        kept_stem(JobView::Ytdlp { url }, seq![]) == sanitized("untitled"@),
{
}

} // verus!
