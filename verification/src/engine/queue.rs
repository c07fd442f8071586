//! The queue: its items, what changes them, and what is taken into it.

use vstd::prelude::*;
use crate::clock::Instant;
use crate::extract::{law_mode_names_read_back, mode_of, Mode};
use crate::paths::{self, Platform};
use crate::settings::Settings;
use crate::text::{
    cat, contains, copy_text, has_prefix, has_text, listed, push_text, same, starts_with, text_of,
    texts,
};

verus! {

/// The milliseconds between two reports of progress.
pub const PROGRESS_EVERY: u64 = 200;

/// How many finished items are remembered.
pub const HISTORY_CAP: usize = 500;

/// A number of seconds, by the bits of the double that holds it.
#[derive(Clone, Copy, Debug, PartialEq, Eq, Structural)]
pub struct Seconds {
    pub bits: u64,
}

/// One item of the queue.
#[derive(Clone, Debug)]
pub struct Item {
    pub id: u64,
    pub input: String,
    pub title: String,
    /// `video`, `audio` or `image`: the mode that it is fetched in.
    pub kind: String,
    /// `queued`, `resolving`, `downloading`, `verifying`, `done` or `failed`.
    pub status: String,
    pub bytes: u64,
    pub total: u64,
    pub secs: Option<Seconds>,
    pub file: Option<String>,
    /// How much was told of the file.
    pub verified: Option<String>,
    /// The whole path of the finished file.
    pub path: Option<String>,
    pub error: Option<String>,
}

/// What an item says.
#[verifier::ext_equal]
pub struct ItemView {
    pub id: u64,
    pub input: Seq<char>,
    pub title: Seq<char>,
    pub kind: Seq<char>,
    pub status: Seq<char>,
    pub bytes: u64,
    pub total: u64,
    pub secs: Option<Seconds>,
    pub file: Option<Seq<char>>,
    pub verified: Option<Seq<char>>,
    pub path: Option<Seq<char>>,
    pub error: Option<Seq<char>>,
}

impl View for Item {
    type V = ItemView;

    open spec fn view(&self) -> ItemView {
        ItemView {
            id: self.id,
            input: self.input@,
            title: self.title@,
            kind: self.kind@,
            status: self.status@,
            bytes: self.bytes,
            total: self.total,
            secs: self.secs,
            file: text_of(self.file),
            verified: text_of(self.verified),
            path: text_of(self.path),
            error: text_of(self.error),
        }
    }
}

pub open spec fn item_views(v: Seq<Item>) -> Seq<ItemView> {
    v.map_values(|i: Item| i@)
}

pub open spec fn item_of(i: Option<Item>) -> Option<ItemView> {
    match i {
        Some(x) => Some(x@),
        None => None,
    }
}

impl Item {
    pub fn copy(&self) -> (r: Item)
        ensures
            r@ == self@,
    {
        Item {
            id: self.id,
            input: self.input.as_str().to_owned(),
            title: self.title.as_str().to_owned(),
            kind: self.kind.as_str().to_owned(),
            status: self.status.as_str().to_owned(),
            bytes: self.bytes,
            total: self.total,
            secs: self.secs,
            file: copy_text(&self.file),
            verified: copy_text(&self.verified),
            path: copy_text(&self.path),
            error: copy_text(&self.error),
        }
    }
}

/// What the engine tells the one who listens. An item comes whole each time.
#[derive(Clone, Debug)]
pub enum Event {
    /// yt-dlp or ffmpeg is being fetched.
    Setup { tool: String, bytes: u64, total: u64 },
    SetupDone,
    SetupFailed { error: String },
    Item(Item),
}

/// How the engine works.
#[derive(Debug)]
pub struct Config {
    pub platform: Platform,
    pub out_dir: String,
    pub bin_dir: String,
    pub log_dir: String,
    /// Whether a page may be kept as a file.
    pub allow_html: bool,
    /// Whether a file that is there already is fetched again.
    pub overwrite: bool,
    /// The browser whose session is used.
    pub cookies_from: Option<String>,
    pub max_downloads: usize,
    pub max_verifies: usize,
}

impl Config {
    pub fn new(platform: Platform, out_dir: String, bin_dir: String, log_dir: String) -> (r: Config)
        ensures
            r.platform == platform,
            r.out_dir == out_dir,
            r.bin_dir == bin_dir,
            r.log_dir == log_dir,
            !r.allow_html,
            !r.overwrite,
            r.cookies_from is None,
            r.max_downloads == 3,
            r.max_verifies == 2,
    {
        Config {
            platform,
            out_dir,
            bin_dir,
            log_dir,
            allow_html: false,
            overwrite: false,
            cookies_from: None,
            max_downloads: 3,
            max_verifies: 2,
        }
    }
}

/// How many downloads may run at a time: at least one, at most eight.
pub open spec fn at_a_time(n: usize) -> usize {
    if n < 1 {
        1
    } else if n > 8 {
        8
    } else {
        n
    }
}

impl Config {
    /// The configuration that the user's settings ask for.
    pub fn from_settings(
        s: &Settings,
        platform: Platform,
        default_out: &str,
        bin_dir: &str,
        log_dir: &str,
    ) -> (r: Config)
        ensures
            r.platform == platform,
            r.out_dir@ == (match s.out_dir {
                Some(d) => d@,
                None => default_out@,
            }),
            r.bin_dir@ == bin_dir@,
            r.log_dir@ == log_dir@,
            !r.allow_html,
            !r.overwrite,
            text_of(r.cookies_from) == text_of(s.cookies_from),
            r.max_downloads == at_a_time(s.concurrency),
            r.max_verifies == 2,
    {
        let out_dir = match &s.out_dir {
            Some(d) => d.as_str().to_owned(),
            None => default_out.to_owned(),
        };
        let mut cfg = Config::new(platform, out_dir, bin_dir.to_owned(), log_dir.to_owned());
        cfg.max_downloads = if s.concurrency < 1 {
            1
        } else if s.concurrency > 8 {
            8
        } else {
            s.concurrency
        };
        cfg.cookies_from = copy_text(&s.cookies_from);
        cfg
    }
}

/// How an item is fetched.
#[derive(Clone, Debug)]
pub enum Job {
    Ytdlp { url: String },
    Direct {
        media: String,
        title: String,
        content_type: Option<String>,
        /// The directory of its own that a gallery gets.
        subdir: Option<String>,
    },
}

/// What a job says.
#[verifier::ext_equal]
pub enum JobView {
    Ytdlp { url: Seq<char> },
    Direct {
        media: Seq<char>,
        title: Seq<char>,
        content_type: Option<Seq<char>>,
        subdir: Option<Seq<char>>,
    },
}

impl View for Job {
    type V = JobView;

    open spec fn view(&self) -> JobView {
        match self {
            Job::Ytdlp { url } => JobView::Ytdlp { url: url@ },
            Job::Direct { media, title, content_type, subdir } => JobView::Direct {
                media: media@,
                title: title@,
                content_type: text_of(*content_type),
                subdir: text_of(*subdir),
            },
        }
    }
}

impl JobView {
    /// The address that tells one job from another.
    pub open spec fn key(self) -> Seq<char> {
        match self {
            JobView::Ytdlp { url } => url,
            JobView::Direct { media, .. } => media,
        }
    }
}

impl Job {
    pub fn key(&self) -> (r: &str)
        ensures
            r@ == self@.key(),
    {
        match self {
            Job::Ytdlp { url } => url.as_str(),
            Job::Direct { media, .. } => media.as_str(),
        }
    }
}

/// The kind of an item that is fetched in the given mode: the mode's own name,
/// so that the item can be fetched again as it was.
pub fn kind_of(mode: Mode) -> (r: &'static str)
    ensures
        r@ == (match mode {
            Mode::Video => "video"@,
            Mode::Audio => "audio"@,
            Mode::Image => "image"@,
        }),
        mode_of(r@) == mode,
{
    proof {
        law_mode_names_read_back(mode);
    }
    mode.as_str()
}

/// Who resolved a link, by the first of its jobs: a gallery shows by its
/// directory.
pub fn source_of(jobs: &Vec<(u64, Job)>) -> (r: &'static str)
    ensures
        r@ == (if jobs@.len() == 0 {
            "none"@
        } else {
            match jobs@[0].1 {
                Job::Ytdlp { .. } => "ytdlp"@,
                Job::Direct { subdir: Some(_), .. } => "gallery"@,
                Job::Direct { .. } => "direct"@,
            }
        }),
{
    if jobs.len() == 0 {
        return "none";
    }
    match &jobs[0].1 {
        Job::Ytdlp { .. } => "ytdlp",
        Job::Direct { subdir, .. } => if subdir.is_some() {
            "gallery"
        } else {
            "direct"
        },
    }
}

/// What a link came to.
#[derive(Debug)]
pub enum Resolution {
    Single { job: Job, title: String },
    Playlist { title: String, items: Vec<(Job, String)> },
}

/// What a resolution says.
#[verifier::ext_equal]
pub enum ResolutionView {
    Single { job: JobView, title: Seq<char> },
    Playlist { title: Seq<char>, items: Seq<(JobView, Seq<char>)> },
}

pub open spec fn label_views(v: Seq<(Job, String)>) -> Seq<(JobView, Seq<char>)> {
    v.map_values(|p: (Job, String)| (p.0@, p.1@))
}

impl View for Resolution {
    type V = ResolutionView;

    open spec fn view(&self) -> ResolutionView {
        match self {
            Resolution::Single { job, title } => ResolutionView::Single {
                job: job@,
                title: title@,
            },
            Resolution::Playlist { title, items } => ResolutionView::Playlist {
                title: title@,
                items: label_views(items@),
            },
        }
    }
}

/// A change of an item.
#[derive(Debug)]
pub enum Patch {
    Status(String),
    Title(String),
    Progress { bytes: u64, total: u64 },
    Failed(String),
    /// Nothing to do for it, with the reason.
    Needless(String),
    /// The file was there already; it was not checked this time.
    Existing { file: String, path: String },
    Done { secs: Option<Seconds>, file: String, level: String, path: String, size: u64 },
}

/// What a change says.
#[verifier::ext_equal]
pub enum PatchView {
    Status(Seq<char>),
    Title(Seq<char>),
    Progress { bytes: u64, total: u64 },
    Failed(Seq<char>),
    Needless(Seq<char>),
    Existing { file: Seq<char>, path: Seq<char> },
    Done {
        secs: Option<Seconds>,
        file: Seq<char>,
        level: Seq<char>,
        path: Seq<char>,
        size: u64,
    },
}

impl View for Patch {
    type V = PatchView;

    open spec fn view(&self) -> PatchView {
        match self {
            Patch::Status(s) => PatchView::Status(s@),
            Patch::Title(t) => PatchView::Title(t@),
            Patch::Progress { bytes, total } => PatchView::Progress {
                bytes: *bytes,
                total: *total,
            },
            Patch::Failed(why) => PatchView::Failed(why@),
            Patch::Needless(why) => PatchView::Needless(why@),
            Patch::Existing { file, path } => PatchView::Existing { file: file@, path: path@ },
            Patch::Done { secs, file, level, path, size } => PatchView::Done {
                secs: *secs,
                file: file@,
                level: level@,
                path: path@,
                size: *size,
            },
        }
    }
}

/// An item after a change.
pub open spec fn patched(i: ItemView, p: PatchView) -> ItemView {
    match p {
        PatchView::Status(s) => ItemView { status: s, ..i },
        PatchView::Title(t) => ItemView { title: t, ..i },
        PatchView::Progress { bytes, total } => ItemView { bytes, total, ..i },
        PatchView::Failed(why) => ItemView { status: "failed"@, error: Some(why), ..i },
        PatchView::Needless(why) => ItemView { status: "done"@, error: Some(why), ..i },
        PatchView::Existing { file, path } => ItemView {
            status: "done"@,
            file: Some(file),
            path: Some(path),
            verified: Some("existing"@),
            error: Some("已經下載過了，跳過"@),
            ..i
        },
        PatchView::Done { secs, file, level, path, size } => ItemView {
            status: "done"@,
            secs,
            file: Some(file),
            verified: Some(level),
            path: Some(path),
            bytes: size,
            total: size,
            error: None,
            ..i
        },
    }
}

/// Whether an item is over.
pub open spec fn over(i: ItemView) -> bool {
    i.status == "done"@ || i.status == "failed"@
}

/// Whether a change ends an item and belongs into the history.
pub open spec fn final_patch(p: PatchView) -> bool {
    p is Failed || p is Existing || p is Done
}

pub fn is_final(p: &Patch) -> (r: bool)
    ensures
        r == final_patch(p@),
{
    match p {
        Patch::Failed(_) => true,
        Patch::Existing { .. } => true,
        Patch::Done { .. } => true,
        _ => false,
    }
}

/// The place of the first item with that number, or the number of items.
pub open spec fn place(items: Seq<ItemView>, id: u64) -> int
    decreases items.len(),
{
    if items.len() == 0 {
        0
    } else if items[0].id == id {
        0
    } else {
        1 + place(items.skip(1), id)
    }
}

proof fn lemma_place(items: Seq<ItemView>, id: u64)
    ensures
        0 <= place(items, id) <= items.len(),
        place(items, id) < items.len() ==> items[place(items, id)].id == id,
        forall|j: int| 0 <= j < place(items, id) ==> (#[trigger] items[j]).id != id,
    decreases items.len(),
{
    if items.len() > 0 && items[0].id != id {
        let t = items.skip(1);
        lemma_place(t, id);
        assert forall|j: int| 0 <= j < place(items, id) implies (#[trigger] items[j]).id != id by {
            if j > 0 {
                assert(items[j] == t[j - 1]);
            }
        }
        if place(t, id) < t.len() {
            assert(t[place(t, id)] == items[place(t, id) + 1]);
        }
    }
}

proof fn lemma_place_is(items: Seq<ItemView>, id: u64, i: int)
    requires
        0 <= i <= items.len(),
        i < items.len() ==> items[i].id == id,
        forall|j: int| 0 <= j < i ==> (#[trigger] items[j]).id != id,
    ensures
        place(items, id) == i,
{
    lemma_place(items, id);
    let m = place(items, id);
    if m < i {
        assert(items[m].id != id);
    }
    if i < m {
        assert(items[i].id != id);
    }
}

/// The items after a change of one of them.
pub open spec fn updated(items: Seq<ItemView>, id: u64, p: PatchView) -> Seq<ItemView> {
    let k = place(items, id);
    if k < items.len() {
        items.update(k, patched(items[k], p))
    } else {
        items
    }
}

/// The item of that number.
pub open spec fn item_at(items: Seq<ItemView>, id: u64) -> Option<ItemView> {
    let k = place(items, id);
    if k < items.len() {
        Some(items[k])
    } else {
        None
    }
}

/// A fresh item.
pub open spec fn queued(id: u64, input: Seq<char>, title: Seq<char>, kind: Seq<char>) -> ItemView {
    ItemView {
        id,
        input,
        title,
        kind,
        status: "queued"@,
        bytes: 0,
        total: 0,
        secs: None,
        file: None,
        verified: None,
        path: None,
        error: None,
    }
}

/// The largest number among the items, zero where there are none.
pub open spec fn top_id(items: Seq<ItemView>) -> u64
    decreases items.len(),
{
    if items.len() == 0 {
        0
    } else {
        let front = top_id(items.drop_last());
        if items.last().id > front {
            items.last().id
        } else {
            front
        }
    }
}

proof fn lemma_top_id(items: Seq<ItemView>)
    ensures
        forall|i: int| 0 <= i < items.len() ==> (#[trigger] items[i]).id <= top_id(items),
    decreases items.len(),
{
    if items.len() > 0 {
        let t = items.drop_last();
        lemma_top_id(t);
        assert forall|i: int| 0 <= i < items.len() implies (#[trigger] items[i]).id <= top_id(items) by {
            if i < t.len() {
                assert(items[i] == t[i]);
            }
        }
    }
}

/// The items that are not over, in their order.
pub open spec fn unfinished(items: Seq<ItemView>) -> Seq<ItemView>
    decreases items.len(),
{
    if items.len() == 0 {
        seq![]
    } else if over(items.last()) {
        unfinished(items.drop_last())
    } else {
        unfinished(items.drop_last()).push(items.last())
    }
}

/// What the engine knows.
#[verifier::ext_equal]
pub struct EngineView {
    pub items: Seq<ItemView>,
    /// The addresses that have been taken in, each once.
    pub seen: Seq<Seq<char>>,
    pub next_id: u64,
    pub cookies_from: Option<Seq<char>>,
    /// The browser and the file that its cookies were exported to.
    pub cookie_file: Option<(Seq<char>, Seq<char>)>,
    pub login_opened: bool,
}

/// What came of an attempt to take a link in.
#[verifier::ext_equal]
pub struct Batch {
    pub items: Seq<ItemView>,
    pub seen: Seq<Seq<char>>,
    pub next_id: int,
    pub jobs: Seq<(u64, JobView)>,
    pub events: Seq<ItemView>,
}

impl Batch {
    /// After one job more. One that was taken in before is passed over; the
    /// first one takes the place of the link, every other gets an item of its
    /// own.
    pub open spec fn took(self, id: u64, kind: Seq<char>, job: JobView, label: Seq<char>) -> Batch {
        let key = job.key();
        if self.seen.contains(key) {
            self
        } else if self.jobs.len() == 0 {
            let items = titled(self.items, id, label);
            Batch {
                items,
                seen: self.seen.push(key),
                jobs: self.jobs.push((id, job)),
                events: match item_at(items, id) {
                    Some(i) => self.events.push(i),
                    None => self.events,
                },
                ..self
            }
        } else {
            let item = queued(self.next_id as u64, key, label, kind);
            Batch {
                items: self.items.push(item),
                seen: self.seen.push(key),
                next_id: self.next_id + 1,
                jobs: self.jobs.push((self.next_id as u64, job)),
                events: self.events.push(item),
            }
        }
    }

    /// After a list of jobs.
    pub open spec fn took_all(
        self,
        id: u64,
        kind: Seq<char>,
        list: Seq<(JobView, Seq<char>)>,
    ) -> Batch
        decreases list.len(),
    {
        if list.len() == 0 {
            self
        } else {
            self.took_all(id, kind, list.drop_last()).took(id, kind, list.last().0, list.last().1)
        }
    }
}

/// The items after one of them got another title.
pub open spec fn titled(items: Seq<ItemView>, id: u64, title: Seq<char>) -> Seq<ItemView> {
    updated(items, id, PatchView::Title(title))
}

/// The items after nothing was to be done for one of them.
pub open spec fn needless(items: Seq<ItemView>, id: u64, why: Seq<char>) -> Seq<ItemView> {
    updated(items, id, PatchView::Needless(why))
}

pub open spec fn told(events: Seq<ItemView>, items: Seq<ItemView>, id: u64) -> Seq<ItemView> {
    match item_at(items, id) {
        Some(i) => events.push(i),
        None => events,
    }
}

/// What comes of a resolved link: the jobs to run, each with the item it belongs
/// to. A link, or each entry of its list, is taken in once.
pub open spec fn enqueued(
    v: EngineView,
    id: u64,
    input: Seq<char>,
    kind: Seq<char>,
    r: ResolutionView,
) -> Batch {
    let start = Batch {
        items: v.items,
        seen: v.seen,
        next_id: v.next_id as int,
        jobs: seq![],
        events: seq![],
    };
    match r {
        ResolutionView::Single { job, title } => if v.seen.contains(input) {
            let items = needless(v.items, id, "這個項目已經在佇列裡了"@);
            Batch { items, events: told(seq![], items, id), ..start }
        } else {
            let items = titled(v.items, id, title);
            Batch {
                items,
                seen: v.seen.push(input),
                jobs: seq![(id, job)],
                events: told(seq![], items, id),
                ..start
            }
        },
        ResolutionView::Playlist { title, items } => {
            let named = titled(v.items, id, title + "（清單）"@);
            let first = Batch { items: named, events: told(seq![], named, id), ..start };
            let all = first.took_all(id, kind, items);
            if all.jobs.len() == 0 {
                let last = needless(all.items, id, "這份清單裡的項目都已經排過了"@);
                Batch { items: last, events: told(all.events, last, id), ..all }
            } else {
                all
            }
        },
    }
}

/// What came of taking a link in: the jobs to run and the items to tell of.
pub struct Enqueued {
    pub jobs: Vec<(u64, Job)>,
    pub events: Vec<Item>,
}

pub open spec fn job_views(v: Seq<(u64, Job)>) -> Seq<(u64, JobView)> {
    v.map_values(|p: (u64, Job)| (p.0, p.1@))
}

/// What came of a failure: the page to log in at, where one should be opened,
/// and the item to tell of.
pub struct Failure {
    pub login: Option<String>,
    pub item: Option<Item>,
}

/// Whether the words of an error say that a login is missing.
pub open spec fn wants_login(why: Seq<char>) -> bool {
    contains(why, "401"@) || contains(why, "403"@) || contains(why, "需要登入"@)
}

/// The page to log in at after a failure: that of the item, where a login is
/// missing and no page was opened before.
pub open spec fn login_page(v: EngineView, id: u64, why: Seq<char>) -> Option<Seq<char>> {
    match item_at(v.items, id) {
        Some(i) => if wants_login(why) && starts_with(i.input, "http"@) && !v.login_opened {
            Some(i.input)
        } else {
            None
        },
        None => None,
    }
}

/// Where the cookies for a fetch come from.
#[derive(Debug)]
pub enum CookieStep {
    /// No session is used.
    Without,
    /// They have been exported to this file.
    Use(String),
    /// They have to be exported first.
    Export { browser: String, dest: String },
}

/// What a cookie step says.
#[verifier::ext_equal]
pub enum CookieStepView {
    Without,
    Use(Seq<char>),
    Export { browser: Seq<char>, dest: Seq<char> },
}

impl View for CookieStep {
    type V = CookieStepView;

    open spec fn view(&self) -> CookieStepView {
        match self {
            CookieStep::Without => CookieStepView::Without,
            CookieStep::Use(p) => CookieStepView::Use(p@),
            CookieStep::Export { browser, dest } => CookieStepView::Export {
                browser: browser@,
                dest: dest@,
            },
        }
    }
}

pub open spec fn cookie_step(v: EngineView, platform: Platform, bin_dir: Seq<char>) -> CookieStepView {
    match v.cookies_from {
        None => CookieStepView::Without,
        Some(b) => match v.cookie_file {
            Some(f) => if f.0 == b {
                CookieStepView::Use(f.1)
            } else {
                CookieStepView::Export { browser: b, dest: paths::joined(platform, bin_dir, "cookies.txt"@) }
            },
            None => CookieStepView::Export {
                browser: b,
                dest: paths::joined(platform, bin_dir, "cookies.txt"@),
            },
        },
    }
}

/// The engine's memory.
pub struct Engine {
    cfg: Config,
    items: Vec<Item>,
    seen: Vec<String>,
    next_id: u64,
    cookies_from: Option<String>,
    cookie_file: Option<(String, String)>,
    login_opened: bool,
}

impl View for Engine {
    type V = EngineView;

    closed spec fn view(&self) -> EngineView {
        EngineView {
            items: item_views(self.items@),
            seen: texts(self.seen@),
            next_id: self.next_id,
            cookies_from: text_of(self.cookies_from),
            cookie_file: match self.cookie_file {
                Some(p) => Some((p.0@, p.1@)),
                None => None,
            },
            login_opened: self.login_opened,
        }
    }
}

impl EngineView {
    /// Every number in use lies below the next one, and no address is listed
    /// twice.
    pub open spec fn wf(self) -> bool {
        &&& forall|i: int| 0 <= i < self.items.len() ==> (#[trigger] self.items[i]).id < self.next_id
        &&& self.seen.no_duplicates()
    }
}

impl Engine {
    pub closed spec fn config(&self) -> Config {
        self.cfg
    }

    /// An engine that remembers the given items. New ones are numbered after
    /// them. What was fetched before may be fetched again.
    pub fn new(cfg: Config, past: Vec<Item>) -> (r: Engine)
        requires
            top_id(item_views(past@)) < u64::MAX,
        ensures
            r@.wf(),
            r.config() == cfg,
            r@ == (EngineView {
                items: item_views(past@),
                seen: seq![],
                next_id: (top_id(item_views(past@)) + 1) as u64,
                cookies_from: text_of(cfg.cookies_from),
                cookie_file: None,
                login_opened: false,
            }),
    {
        let mut top: u64 = 0;
        let mut i: usize = 0;
        let ghost all = item_views(past@);
        while i < past.len()
            invariant
                all == item_views(past@),
                i <= past@.len(),
                top == top_id(all.take(i as int)),
            decreases past@.len() - i,
        {
            proof {
                assert(all.take(i + 1).drop_last() =~= all.take(i as int));
                assert(all.take(i + 1).last() == past@[i as int]@);
            }
            if past[i].id > top {
                top = past[i].id;
            }
            i += 1;
        }
        proof {
            assert(all.take(i as int) =~= all);
            lemma_top_id(all);
        }
        let cookies_from = copy_text(&cfg.cookies_from);
        let r = Engine {
            cfg,
            items: past,
            seen: Vec::new(),
            next_id: top + 1,
            cookies_from,
            cookie_file: None,
            login_opened: false,
        };
        proof {
            assert(r@.seen =~= seq![]);
        }
        r
    }

    /// How many more items can be numbered.
    pub fn room(&self) -> (r: u64)
        ensures
            r == u64::MAX - self@.next_id,
    {
        u64::MAX - self.next_id
    }

    /// The words for programs that could not be had.
    pub fn tools_error(why: &str) -> (r: String)
        ensures
            r@ == "準備下載工具失敗："@ + why@,
    {
        cat("準備下載工具失敗：", why)
    }

    pub fn out_dir(&self) -> (r: &str)
        ensures
            r@ == self.config().out_dir@,
    {
        self.cfg.out_dir.as_str()
    }

    pub fn settings(&self) -> (r: &Config)
        ensures
            *r == self.config(),
    {
        &self.cfg
    }

    /// A copy of all items.
    pub fn snapshot(&self) -> (r: Vec<Item>)
        ensures
            item_views(r@) == self@.items,
    {
        let mut out: Vec<Item> = Vec::new();
        let mut i: usize = 0;
        while i < self.items.len()
            invariant
                i <= self.items@.len(),
                item_views(out@) == self@.items.take(i as int),
            decreases self.items@.len() - i,
        {
            let ghost done = item_views(out@);
            let c = self.items[i].copy();
            out.push(c);
            proof {
                assert(item_views(out@) =~= done.push(c@));
                assert(self@.items.take(i + 1) =~= self@.items.take(i as int).push(
                    self.items@[i as int]@,
                ));
            }
            i += 1;
        }
        proof {
            assert(self@.items.take(i as int) =~= self@.items);
        }
        out
    }

    /// Forgets the items that are over and gives a copy of the rest.
    pub fn clear_finished(&mut self) -> (r: Vec<Item>)
        requires
            old(self)@.wf(),
        ensures
            final(self)@.wf(),
            final(self).config() == old(self).config(),
            final(self)@ == (EngineView { items: unfinished(old(self)@.items), ..old(self)@ }),
            item_views(r@) == final(self)@.items,
    {
        let mut kept: Vec<Item> = Vec::new();
        let mut i: usize = 0;
        let ghost all = self@.items;
        proof {
            assert(item_views(kept@) =~= unfinished(all.take(0)));
        }
        while i < self.items.len()
            invariant
                *self == *old(self),
                all == self@.items,
                i <= self.items@.len(),
                item_views(kept@) == unfinished(all.take(i as int)),
            decreases self.items@.len() - i,
        {
            let ghost done = item_views(kept@);
            proof {
                assert(all.take(i + 1).drop_last() =~= all.take(i as int));
                assert(all.take(i + 1).last() == self.items@[i as int]@);
            }
            let status = self.items[i].status.as_str();
            if !same(status, "done") && !same(status, "failed") {
                let c = self.items[i].copy();
                kept.push(c);
                proof {
                    assert(item_views(kept@) =~= done.push(c@));
                }
            }
            i += 1;
        }
        proof {
            assert(all.take(i as int) =~= all);
            lemma_unfinished_bound(all, self.next_id);
        }
        self.items = kept;
        self.snapshot()
    }

    /// Puts a new item at the end of the queue and gives a copy of it to tell.
    pub fn push(&mut self, input: &str, title: &str, kind: &str) -> (r: Item)
        requires
            old(self)@.wf(),
            old(self)@.next_id < u64::MAX,
        ensures
            final(self)@.wf(),
            final(self).config() == old(self).config(),
            r@ == queued(old(self)@.next_id, input@, title@, kind@),
            final(self)@ == (EngineView {
                items: old(self)@.items.push(r@),
                next_id: (old(self)@.next_id + 1) as u64,
                ..old(self)@
            }),
    {
        let item = Item {
            id: self.next_id,
            input: input.to_owned(),
            title: title.to_owned(),
            kind: kind.to_owned(),
            status: "queued".to_owned(),
            bytes: 0,
            total: 0,
            secs: None,
            file: None,
            verified: None,
            path: None,
            error: None,
        };
        let copy = item.copy();
        self.items.push(item);
        self.next_id = self.next_id + 1;
        proof {
            assert(self@.items =~= old(self)@.items.push(item@));
        }
        copy
    }

    fn find(&self, id: u64) -> (r: usize)
        ensures
            r == place(self@.items, id),
            r <= self.items@.len(),
    {
        let mut i: usize = 0;
        while i < self.items.len() && self.items[i].id != id
            invariant
                i <= self.items@.len(),
                forall|j: int| 0 <= j < i ==> (#[trigger] self@.items[j]).id != id,
            decreases self.items@.len() - i,
        {
            proof {
                assert(self@.items[i as int] == self.items@[i as int]@);
            }
            i += 1;
        }
        proof {
            if i < self.items@.len() {
                assert(self@.items[i as int] == self.items@[i as int]@);
            }
            lemma_place_is(self@.items, id, i as int);
        }
        i
    }

    /// Changes one item and gives a copy of it to tell, where it is there.
    pub fn update(&mut self, id: u64, patch: &Patch) -> (r: Option<Item>)
        requires
            old(self)@.wf(),
        ensures
            final(self)@.wf(),
            final(self).config() == old(self).config(),
            final(self)@ == (EngineView {
                items: updated(old(self)@.items, id, patch@),
                ..old(self)@
            }),
            item_of(r) == item_at(final(self)@.items, id),
    {
        let k: usize = self.find(id);
        let ghost before = self@.items;
        if k == self.items.len() {
            return None;
        }
        proof {
            assert(before[k as int] == self.items@[k as int]@);
        }
        match patch {
            Patch::Status(s) => {
                self.items[k].status = s.as_str().to_owned();
            },
            Patch::Title(t) => {
                self.items[k].title = t.as_str().to_owned();
            },
            Patch::Progress { bytes, total } => {
                self.items[k].bytes = *bytes;
                self.items[k].total = *total;
            },
            Patch::Failed(why) => {
                self.items[k].status = "failed".to_owned();
                self.items[k].error = Some(why.as_str().to_owned());
            },
            Patch::Needless(why) => {
                self.items[k].status = "done".to_owned();
                self.items[k].error = Some(why.as_str().to_owned());
            },
            Patch::Existing { file, path } => {
                self.items[k].status = "done".to_owned();
                self.items[k].file = Some(file.as_str().to_owned());
                self.items[k].path = Some(path.as_str().to_owned());
                self.items[k].verified = Some("existing".to_owned());
                self.items[k].error = Some("已經下載過了，跳過".to_owned());
            },
            Patch::Done { secs, file, level, path, size } => {
                self.items[k].status = "done".to_owned();
                self.items[k].secs = *secs;
                self.items[k].file = Some(file.as_str().to_owned());
                self.items[k].verified = Some(level.as_str().to_owned());
                self.items[k].path = Some(path.as_str().to_owned());
                self.items[k].bytes = *size;
                self.items[k].total = *size;
                self.items[k].error = None;
            },
        }
        proof {
            let want = updated(before, id, patch@);
            assert(self.items@[k as int]@ =~= patched(before[k as int], patch@));
            assert forall|j: int| 0 <= j < want.len() implies (#[trigger] self@.items[j]) == want[j] by {
                if j != k {
                    assert(self.items@[j] == old(self).items@[j]);
                }
            }
            assert(self@.items =~= want);
            lemma_place(before, id);
            assert forall|j: int| 0 <= j < k implies (#[trigger] want[j]).id != id by {
                assert(want[j] == before[j]);
            }
            lemma_place_is(want, id, k as int);
            assert forall|j: int| 0 <= j < want.len() implies (#[trigger] want[j]).id < self@.next_id by {
                assert(want[j].id == before[j].id);
            }
        }
        Some(self.items[k].copy())
    }

    /// Marks an item as failed. Where a login is missing, the page of the item
    /// is to be opened, once in the engine's life.
    pub fn fail(&mut self, id: u64, why: &str) -> (r: Failure)
        requires
            old(self)@.wf(),
        ensures
            final(self)@.wf(),
            final(self).config() == old(self).config(),
            text_of(r.login) == login_page(old(self)@, id, why@),
            final(self)@.login_opened == (old(self)@.login_opened || r.login is Some),
            final(self)@.items == updated(old(self)@.items, id, PatchView::Failed(why@)),
            final(self)@ == (EngineView {
                items: final(self)@.items,
                login_opened: final(self)@.login_opened,
                ..old(self)@
            }),
            item_of(r.item) == item_at(final(self)@.items, id),
    {
        let mut login: Option<String> = None;
        if !self.login_opened && (has_text(why, "401") || has_text(why, "403") || has_text(
            why,
            "需要登入",
        )) {
            let k: usize = self.find(id);
            if k < self.items.len() {
                proof {
                    assert(self@.items[k as int] == self.items@[k as int]@);
                }
                let page = self.items[k].input.as_str();
                if has_prefix(page, "http") {
                    login = Some(page.to_owned());
                }
            }
        }
        if login.is_some() {
            self.login_opened = true;
        }
        let patch = Patch::Failed(why.to_owned());
        let item = self.update(id, &patch);
        Failure { login, item }
    }

    /// The browser whose session is used.
    pub fn cookies_from(&self) -> (r: Option<String>)
        ensures
            text_of(r) == self@.cookies_from,
    {
        copy_text(&self.cookies_from)
    }

    /// Takes another browser's session. What was exported from the one before is
    /// forgotten.
    pub fn set_cookies_from(&mut self, browser: Option<String>)
        requires
            old(self)@.wf(),
        ensures
            final(self)@.wf(),
            final(self).config() == old(self).config(),
            final(self)@ == (if old(self)@.cookies_from == text_of(browser) {
                old(self)@
            } else {
                EngineView { cookies_from: text_of(browser), cookie_file: None, ..old(self)@ }
            }),
    {
        let unchanged = match (&self.cookies_from, &browser) {
            (Some(a), Some(b)) => same(a.as_str(), b.as_str()),
            (None, None) => true,
            _ => false,
        };
        if !unchanged {
            self.cookies_from = browser;
            self.cookie_file = None;
        }
    }

    /// Where the cookies for the next fetch come from.
    pub fn cookie_file(&self) -> (r: CookieStep)
        ensures
            r@ == cookie_step(self@, self.config().platform, self.config().bin_dir@),
    {
        let browser = match &self.cookies_from {
            Some(b) => b.as_str(),
            None => {
                return CookieStep::Without;
            },
        };
        if let Some(f) = &self.cookie_file {
            if same(f.0.as_str(), browser) {
                return CookieStep::Use(f.1.as_str().to_owned());
            }
        }
        CookieStep::Export {
            browser: browser.to_owned(),
            dest: paths::join(self.cfg.platform, self.cfg.bin_dir.as_str(), "cookies.txt"),
        }
    }

    /// Remembers where a browser's cookies were exported to.
    pub fn exported(&mut self, browser: String, path: String)
        requires
            old(self)@.wf(),
        ensures
            final(self)@.wf(),
            final(self).config() == old(self).config(),
            final(self)@ == (EngineView { cookie_file: Some((browser@, path@)), ..old(self)@ }),
    {
        self.cookie_file = Some((browser, path));
    }

    /// The file with the cookies that were exported last.
    pub fn exported_cookies(&self) -> (r: Option<String>)
        ensures
            text_of(r) == (match self@.cookie_file {
                Some(f) => Some(f.1),
                None => None,
            }),
    {
        match &self.cookie_file {
            Some(f) => Some(f.1.as_str().to_owned()),
            None => None,
        }
    }

    fn note(&mut self, id: u64, patch: &Patch, events: &mut Vec<Item>)
        requires
            old(self)@.wf(),
        ensures
            final(self)@.wf(),
            final(self).config() == old(self).config(),
            final(self)@ == (EngineView {
                items: updated(old(self)@.items, id, patch@),
                ..old(self)@
            }),
            item_views(final(events)@) == told(
                item_views(old(events)@),
                updated(old(self)@.items, id, patch@),
                id,
            ),
    {
        if let Some(i) = self.update(id, patch) {
            events.push(i);
            proof {
                assert(item_views(events@) =~= item_views(old(events)@).push(i@));
            }
        }
    }

    fn take_in(&mut self, id: u64, kind: &str, job: Job, label: String, jobs: &mut Vec<(u64, Job)>, events: &mut Vec<Item>)
        requires
            old(self)@.wf(),
            old(self)@.next_id < u64::MAX,
        ensures
            final(self)@.wf(),
            final(self).config() == old(self).config(),
            ({
                let b = (Batch {
                    items: old(self)@.items,
                    seen: old(self)@.seen,
                    next_id: old(self)@.next_id as int,
                    jobs: job_views(old(jobs)@),
                    events: item_views(old(events)@),
                }).took(id, kind@, job@, label@);
                &&& final(self)@ == (EngineView {
                    items: b.items,
                    seen: b.seen,
                    next_id: b.next_id as u64,
                    ..old(self)@
                })
                &&& job_views(final(jobs)@) == b.jobs
                &&& item_views(final(events)@) == b.events
                &&& b.next_id <= old(self)@.next_id + 1
            }),
    {
        let ghost jv = job@;
        let ghost j0 = job_views(jobs@);
        let ghost e0 = item_views(events@);
        if listed(self.seen.as_slice(), job.key()) {
            return;
        }
        let ghost s0 = texts(self.seen@);
        push_text(&mut self.seen, job.key());
        proof {
            assert(self@.seen == s0.push(jv.key()));
            assert(s0.push(jv.key()).no_duplicates()) by {
                let p = s0.push(jv.key());
                assert forall|i: int, k: int| 0 <= i < p.len() && 0 <= k < p.len() && i != k implies p[i] != p[k] by {
                    if i == s0.len() {
                        assert(s0.contains(s0[k]));
                    } else if k == s0.len() {
                        assert(s0.contains(s0[i]));
                    }
                }
            }
            assert(j0.len() == jobs@.len());
        }
        if jobs.len() == 0 {
            let patch = Patch::Title(label);
            self.note(id, &patch, events);
            jobs.push((id, job));
            proof {
                assert(job_views(jobs@) =~= j0.push((id, jv)));
            }
        } else {
            let item = self.push(job.key(), label.as_str(), kind);
            let nid: u64 = item.id;
            jobs.push((nid, job));
            events.push(item);
            proof {
                assert(job_views(jobs@) =~= j0.push((nid, jv)));
                assert(item_views(events@) =~= e0.push(item@));
            }
        }
    }

    /// Takes a resolved link into the queue. `id` is the item that was made for
    /// the link.
    pub fn enqueue(&mut self, id: u64, input: &str, kind: &str, resolution: Resolution) -> (r: Enqueued)
        requires
            old(self)@.wf(),
            resolution@ matches ResolutionView::Playlist { items, .. } ==> old(self)@.next_id + items.len()
                <= u64::MAX,
        ensures
            final(self)@.wf(),
            final(self).config() == old(self).config(),
            ({
                let b = enqueued(old(self)@, id, input@, kind@, resolution@);
                &&& final(self)@ == (EngineView {
                    items: b.items,
                    seen: b.seen,
                    next_id: b.next_id as u64,
                    ..old(self)@
                })
                &&& job_views(r.jobs@) == b.jobs
                &&& item_views(r.events@) == b.events
            }),
    {
        let mut jobs: Vec<(u64, Job)> = Vec::new();
        let mut events: Vec<Item> = Vec::new();
        proof {
            assert(job_views(jobs@) =~= seq![]);
            assert(item_views(events@) =~= seq![]);
        }
        match resolution {
            Resolution::Single { job, title } => {
                if listed(self.seen.as_slice(), input) {
                    let patch = Patch::Needless("這個項目已經在佇列裡了".to_owned());
                    self.note(id, &patch, &mut events);
                } else {
                    let ghost s0 = texts(self.seen@);
                    push_text(&mut self.seen, input);
                    proof {
                        let p = s0.push(input@);
                        assert(self@.seen == p);
                        assert(p.no_duplicates()) by {
                            assert forall|i: int, k: int| 0 <= i < p.len() && 0 <= k < p.len() && i != k implies p[i] != p[k] by {
                                if i == s0.len() {
                                    assert(s0.contains(s0[k]));
                                } else if k == s0.len() {
                                    assert(s0.contains(s0[i]));
                                }
                            }
                        }
                    }
                    let patch = Patch::Title(title);
                    self.note(id, &patch, &mut events);
                    let ghost jv = job@;
                    jobs.push((id, job));
                    proof {
                        assert(job_views(jobs@) =~= seq![(id, jv)]);
                    }
                }
            },
            Resolution::Playlist { title, items } => {
                let patch = Patch::Title(cat(title.as_str(), "（清單）"));
                self.note(id, &patch, &mut events);
                self.take_list(id, kind, items, &mut jobs, &mut events);
                proof {
                    assert(job_views(jobs@).len() == jobs@.len());
                }
                if jobs.len() == 0 {
                    let patch = Patch::Needless("這份清單裡的項目都已經排過了".to_owned());
                    self.note(id, &patch, &mut events);
                }
            },
        }
        Enqueued { jobs, events }
    }

    fn take_list(
        &mut self,
        id: u64,
        kind: &str,
        items: Vec<(Job, String)>,
        jobs: &mut Vec<(u64, Job)>,
        events: &mut Vec<Item>,
    )
        requires
            old(self)@.wf(),
            old(self)@.next_id + items@.len() <= u64::MAX,
        ensures
            final(self)@.wf(),
            final(self).config() == old(self).config(),
            ({
                let b = (Batch {
                    items: old(self)@.items,
                    seen: old(self)@.seen,
                    next_id: old(self)@.next_id as int,
                    jobs: job_views(old(jobs)@),
                    events: item_views(old(events)@),
                }).took_all(id, kind@, label_views(items@));
                &&& final(self)@ == (EngineView {
                    items: b.items,
                    seen: b.seen,
                    next_id: b.next_id as u64,
                    ..old(self)@
                })
                &&& job_views(final(jobs)@) == b.jobs
                &&& item_views(final(events)@) == b.events
                &&& b.next_id <= old(self)@.next_id + items@.len()
            }),
    {
        let ghost all = label_views(items@);
        let ghost start = Batch {
            items: self@.items,
            seen: self@.seen,
            next_id: self@.next_id as int,
            jobs: job_views(jobs@),
            events: item_views(events@),
        };
        let ghost first = *self;
        let mut rest = items;
        let n: usize = rest.len();
        let mut i: usize = 0;
        proof {
            assert(all.take(0) =~= seq![]);
            assert(label_views(rest@) =~= all.skip(0));
        }
        while i < n
            invariant
                n == all.len(),
                i <= n,
                rest@.len() == n - i,
                label_views(rest@) == all.skip(i as int),
                self@.wf(),
                self.config() == first.config(),
                first@.next_id + n <= u64::MAX,
                start.next_id == first@.next_id,
                ({
                    let b = start.took_all(id, kind@, all.take(i as int));
                    &&& self@ == (EngineView {
                        items: b.items,
                        seen: b.seen,
                        next_id: b.next_id as u64,
                        ..first@
                    })
                    &&& job_views(jobs@) == b.jobs
                    &&& item_views(events@) == b.events
                    &&& start.next_id <= b.next_id <= start.next_id + i
                }),
            decreases n - i,
        {
            let ghost before = rest@;
            let ghost b = start.took_all(id, kind@, all.take(i as int));
            let p = rest.remove(0);
            proof {
                assert(label_views(before)[0] == (p.0@, p.1@));
                assert(all.skip(i as int)[0] == all[i as int]);
                assert(label_views(rest@) =~= all.skip(i + 1)) by {
                    assert forall|j: int| 0 <= j < rest@.len() implies (#[trigger] label_views(rest@)[j]) == all.skip(i + 1)[j] by {
                        assert(rest@[j] == before[j + 1]);
                        assert(label_views(before)[j + 1] == all.skip(i as int)[j + 1]);
                    }
                }
                assert(all.take(i + 1).drop_last() =~= all.take(i as int));
                assert(all.take(i + 1).last() == (p.0@, p.1@));
            }
            self.take_in(id, kind, p.0, p.1, jobs, events);
            i += 1;
        }
        proof {
            assert(all.take(i as int) =~= all);
        }
    }
}

proof fn lemma_unfinished_bound(items: Seq<ItemView>, next: u64)
    requires
        forall|i: int| 0 <= i < items.len() ==> (#[trigger] items[i]).id < next,
    ensures
        forall|i: int| 0 <= i < unfinished(items).len() ==> (#[trigger] unfinished(items)[i]).id < next,
    decreases items.len(),
{
    if items.len() > 0 {
        let t = items.drop_last();
        assert forall|i: int| 0 <= i < t.len() implies (#[trigger] t[i]).id < next by {
            assert(t[i] == items[i]);
        }
        lemma_unfinished_bound(t, next);
        let u = unfinished(items);
        assert forall|i: int| 0 <= i < u.len() implies (#[trigger] u[i]).id < next by {
            if i < unfinished(t).len() {
                assert(u[i] == unfinished(t)[i]);
            } else {
                assert(items[items.len() - 1].id < next);
            }
        }
    }
}

/// A remembered item, and whether a file is at its path.
pub struct Remembered {
    pub item: Item,
    pub is_file: bool,
}

/// Whether a remembered item is worth showing: its file is still there, or it
/// failed and never had one.
pub open spec fn worth_showing(r: Remembered) -> bool {
    match r.item.path {
        Some(_) => r.is_file,
        None => r.item.status@ == "failed"@,
    }
}

/// The remembered items that are worth showing, in their order.
pub open spec fn shown(l: Seq<Remembered>) -> Seq<ItemView>
    decreases l.len(),
{
    if l.len() == 0 {
        seq![]
    } else if worth_showing(l.last()) {
        shown(l.drop_last()).push(l.last().item@)
    } else {
        shown(l.drop_last())
    }
}

/// The last `cap` of a list.
pub open spec fn last_of(l: Seq<ItemView>, cap: nat) -> Seq<ItemView> {
    if l.len() > cap {
        l.skip(l.len() - cap)
    } else {
        l
    }
}

/// The history to start with: what is worth showing of the remembered items, the
/// last `cap` of them.
pub fn load_history(records: &Vec<Remembered>, cap: usize) -> (r: Vec<Item>)
    ensures
        item_views(r@) == last_of(shown(records@), cap as nat),
{
    let mut out: Vec<Item> = Vec::new();
    let mut i: usize = 0;
    while i < records.len()
        invariant
            i <= records@.len(),
            item_views(out@) == shown(records@.take(i as int)),
        decreases records@.len() - i,
    {
        let ghost done = item_views(out@);
        proof {
            assert(records@.take(i + 1).drop_last() =~= records@.take(i as int));
            assert(records@.take(i + 1).last() == records@[i as int]);
        }
        let keep = match &records[i].item.path {
            Some(_) => records[i].is_file,
            None => same(records[i].item.status.as_str(), "failed"),
        };
        if keep {
            let c = records[i].item.copy();
            out.push(c);
            proof {
                assert(item_views(out@) =~= done.push(c@));
            }
        }
        i += 1;
    }
    proof {
        assert(records@.take(i as int) =~= records@);
        assert(item_views(out@).len() == out@.len());
    }
    if out.len() > cap {
        let cut: usize = out.len() - cap;
        let ghost full = item_views(out@);
        let last = out.split_off(cut);
        proof {
            assert(item_views(last@) =~= full.skip(cut as int));
        }
        return last;
    }
    out
}

/// The history never outgrows its limit, and ends with the newest item.
pub proof fn law_history_keeps_the_newest(l: Seq<Remembered>, cap: nat)
    requires
        cap > 0,
        shown(l).len() > 0,
    ensures
        0 < last_of(shown(l), cap).len() <= cap,
        last_of(shown(l), cap).last() == shown(l).last(),
{
}

/// A new item gets a number that no item of the queue has.
pub proof fn law_new_number_is_fresh(v: EngineView, i: int)
    requires
        v.wf(),
        0 <= i < v.items.len(),
    ensures
        v.items[i].id != v.next_id,
{
}

/// A change of one item leaves every other item, and every number, as it was.
pub proof fn law_update_spares_the_rest(items: Seq<ItemView>, id: u64, p: PatchView, j: int)
    requires
        0 <= j < items.len(),
    ensures
        updated(items, id, p).len() == items.len(),
        updated(items, id, p)[j].id == items[j].id,
        items[j].id != id ==> updated(items, id, p)[j] == items[j],
{
    lemma_place(items, id);
}

/// What belongs into the history is over, and nothing else ends an item but
/// that there is nothing to do for it.
pub proof fn law_final_changes_end_items(i: ItemView, p: PatchView)
    requires
        !over(i),
        p matches PatchView::Status(s) ==> s != "done"@ && s != "failed"@,
    ensures
        over(patched(i, p)) == (final_patch(p) || p is Needless),
{
}

/// A page to log in at is given once at most: after that no failure gives one.
pub proof fn law_one_login_page(v: EngineView, id: u64, why: Seq<char>)
    requires
        v.login_opened,
    ensures
        login_page(v, id, why) is None,
{
}

/// After clearing, nothing that is over is left, and nothing else is gone.
pub proof fn law_clearing_keeps_the_unfinished(items: Seq<ItemView>)
    ensures
        forall|i: int| 0 <= i < unfinished(items).len() ==> !over(#[trigger] unfinished(items)[i]),
        forall|i: int|
            0 <= i < items.len() && !over(#[trigger] items[i]) ==> unfinished(items).contains(items[i]),
    decreases items.len(),
{
    if items.len() > 0 {
        let t = items.drop_last();
        law_clearing_keeps_the_unfinished(t);
        let u = unfinished(items);
        let f = unfinished(t);
        assert forall|i: int| 0 <= i < u.len() implies !over(#[trigger] u[i]) by {
            if i < f.len() {
                assert(u[i] == f[i]);
            }
        }
        assert forall|i: int| 0 <= i < items.len() && !over(#[trigger] items[i]) implies u.contains(
            items[i],
        ) by {
            if i < t.len() {
                assert(t[i] == items[i]);
                assert(f.contains(t[i]));
                let k = f.index_of(t[i]);
                assert(f[k] == t[i]);
                assert(u[k] == items[i]);
            } else {
                assert(u[u.len() - 1] == items[i]);
            }
        }
    }
}

/// The addresses of jobs.
pub open spec fn keys(jobs: Seq<(u64, JobView)>) -> Seq<Seq<char>> {
    jobs.map_values(|p: (u64, JobView)| p.1.key())
}

/// Of a list, each address is taken in once: the addresses of the jobs are the
/// ones that are new among those taken in, no two of them alike.
pub proof fn law_each_address_once(
    b: Batch,
    id: u64,
    kind: Seq<char>,
    list: Seq<(JobView, Seq<char>)>,
)
    requires
        b.jobs.len() == 0,
        b.seen.no_duplicates(),
    ensures
        b.took_all(id, kind, list).seen == b.seen + keys(b.took_all(id, kind, list).jobs),
        b.took_all(id, kind, list).seen.no_duplicates(),
    decreases list.len(),
{
    if list.len() == 0 {
        assert(b.seen + keys(b.jobs) =~= b.seen);
    } else {
        law_each_address_once(b, id, kind, list.drop_last());
        let f = b.took_all(id, kind, list.drop_last());
        let a = b.took_all(id, kind, list);
        let key = list.last().0.key();
        if !f.seen.contains(key) {
            assert(keys(a.jobs) =~= keys(f.jobs).push(key));
            assert(a.seen =~= b.seen + keys(a.jobs));
            assert forall|i: int, k: int| 0 <= i < a.seen.len() && 0 <= k < a.seen.len() && i != k implies a.seen[i]
                != a.seen[k] by {
                if i == f.seen.len() {
                    assert(f.seen.contains(f.seen[k]));
                } else if k == f.seen.len() {
                    assert(f.seen.contains(f.seen[i]));
                }
            }
        }
    }
}

/// The jobs of a list have an item of their own each: the first that of the
/// link, the others new ones, numbered one after the other.
pub proof fn law_jobs_have_their_own_items(
    b: Batch,
    id: u64,
    kind: Seq<char>,
    list: Seq<(JobView, Seq<char>)>,
)
    requires
        b.jobs.len() == 0,
        id < b.next_id,
        0 <= b.next_id,
        b.next_id + list.len() <= u64::MAX,
    ensures
        ({
            let a = b.took_all(id, kind, list);
            &&& a.next_id == b.next_id + (if a.jobs.len() > 0 {
                a.jobs.len() - 1
            } else {
                0
            })
            &&& a.jobs.len() <= list.len()
            &&& a.jobs.len() > 0 ==> a.jobs[0].0 == id
            &&& forall|k: int|
                1 <= k < a.jobs.len() ==> (#[trigger] a.jobs[k]).0 == b.next_id + k - 1
            &&& forall|j: int, k: int|
                0 <= j < k < a.jobs.len() ==> (#[trigger] a.jobs[j]).0 != (#[trigger] a.jobs[k]).0
        }),
    decreases list.len(),
{
    if list.len() > 0 {
        law_jobs_have_their_own_items(b, id, kind, list.drop_last());
        let f = b.took_all(id, kind, list.drop_last());
        let a = b.took_all(id, kind, list);
        if !f.seen.contains(list.last().0.key()) {
            assert forall|k: int| 1 <= k < a.jobs.len() implies (#[trigger] a.jobs[k]).0 == b.next_id
                + k - 1 by {
                if k < f.jobs.len() {
                    assert(a.jobs[k] == f.jobs[k]);
                }
            }
            if f.jobs.len() > 0 {
                assert(a.jobs[0] == f.jobs[0]);
            }
            assert forall|j: int, k: int| 0 <= j < k < a.jobs.len() implies (#[trigger] a.jobs[j]).0
                != (#[trigger] a.jobs[k]).0 by {
                if j == 0 {
                    assert(a.jobs[j].0 == id);
                }
            }
        }
    }
}

/// Every entry of a list is taken in, now or before.
pub proof fn law_every_entry_is_taken_in(
    b: Batch,
    id: u64,
    kind: Seq<char>,
    list: Seq<(JobView, Seq<char>)>,
    i: int,
)
    requires
        0 <= i < list.len(),
    ensures
        b.took_all(id, kind, list).seen.contains(list[i].0.key()),
    decreases list.len(),
{
    let f = b.took_all(id, kind, list.drop_last());
    let a = b.took_all(id, kind, list);
    let key = list[i].0.key();
    if i < list.len() - 1 {
        law_every_entry_is_taken_in(b, id, kind, list.drop_last(), i);
        let k = f.seen.index_of(key);
        assert(f.seen[k] == key);
        assert(a.seen[k] == key);
    } else if !f.seen.contains(key) {
        assert(a.seen[a.seen.len() - 1] == key);
    }
}

/// A list that has been taken in whole gives no job the second time.
pub proof fn law_second_time_nothing_to_do(
    b: Batch,
    id: u64,
    kind: Seq<char>,
    list: Seq<(JobView, Seq<char>)>,
)
    requires
        b.jobs.len() == 0,
        forall|i: int| 0 <= i < list.len() ==> b.seen.contains((#[trigger] list[i]).0.key()),
    ensures
        b.took_all(id, kind, list) == b,
    decreases list.len(),
{
    if list.len() > 0 {
        let t = list.drop_last();
        assert forall|i: int| 0 <= i < t.len() implies b.seen.contains((#[trigger] t[i]).0.key()) by {
            assert(t[i] == list[i]);
        }
        law_second_time_nothing_to_do(b, id, kind, t);
        assert(b.seen.contains(list[list.len() - 1].0.key()));
    }
}

/// Whether it is time for another report of progress.
pub struct Throttle {
    last: Option<Instant>,
}

impl View for Throttle {
    type V = Option<Instant>;

    /// When the last report was made.
    closed spec fn view(&self) -> Option<Instant> {
        self.last
    }
}

pub open spec fn report_due(last: Option<Instant>, now: Instant) -> bool {
    match last {
        Some(t) => now.since(t).nanos >= PROGRESS_EVERY * 1_000_000,
        None => true,
    }
}

impl Throttle {
    pub fn new() -> (r: Throttle)
        ensures
            r@ is None,
    {
        Throttle { last: None }
    }

    /// Whether to report at `now`; a report is remembered.
    pub fn tick(&mut self, now: Instant) -> (r: bool)
        ensures
            r == report_due(old(self)@, now),
            final(self)@ == (if r {
                Some(now)
            } else {
                old(self)@
            }),
    {
        self.due(now, 0, 0)
    }

    /// Whether to report the given progress at `now`: the interval has passed, or
    /// all is there. A report is remembered.
    pub fn due(&mut self, now: Instant, bytes: u64, total: u64) -> (r: bool)
        ensures
            r == (report_due(old(self)@, now) || (total > 0 && bytes >= total)),
            final(self)@ == (if r {
                Some(now)
            } else {
                old(self)@
            }),
    {
        let passed = match self.last {
            Some(t) => now.duration_since(t).nanos >= PROGRESS_EVERY as u128 * 1_000_000,
            None => true,
        };
        if passed || (total > 0 && bytes >= total) {
            self.last = Some(now);
            return true;
        }
        false
    }
}

/// What an item, a job or a change is taken to say is what it holds.
pub proof fn law_views_say_what_is_held(i: Item, url: String, media: String, title: String, sub: Option<String>)
    ensures
        i@.id == i.id && i@.input == i.input@ && i@.title == i.title@ && i@.kind == i.kind@
            && i@.status == i.status@ && i@.bytes == i.bytes && i@.total == i.total && i@.secs == i.secs,
        i@.file == text_of(i.file) && i@.verified == text_of(i.verified) && i@.path == text_of(i.path)
            && i@.error == text_of(i.error),
        (Job::Ytdlp { url })@ == (JobView::Ytdlp { url: url@ }),
        (Job::Direct { media, title, content_type: None, subdir: sub })@ == (JobView::Direct {
            media: media@,
            title: title@,
            content_type: None,
            subdir: text_of(sub),
        }),
        Patch::Failed(title)@ == PatchView::Failed(title@),
        Patch::Status(title)@ == PatchView::Status(title@),
        Patch::Title(title)@ == PatchView::Title(title@),
        Patch::Needless(title)@ == PatchView::Needless(title@),
        (Patch::Existing { file: media, path: url })@ == (PatchView::Existing {
            file: media@,
            path: url@,
        }),
{
}

/// An item that failed says so and why; what was known of it stays.
pub proof fn law_failures_are_shown(i: ItemView, why: Seq<char>)
    ensures
        patched(i, PatchView::Failed(why)).status == "failed"@,
        patched(i, PatchView::Failed(why)).error == Some(why),
        patched(i, PatchView::Failed(why)) == (ItemView {
            status: "failed"@,
            error: Some(why),
            ..i
        }),
        over(patched(i, PatchView::Failed(why))),
{
}

/// An item that is done says where its file lies, how much was told of it and how
/// large it is, and no longer says what went wrong before.
pub proof fn law_success_is_shown(
    i: ItemView,
    secs: Option<Seconds>,
    file: Seq<char>,
    level: Seq<char>,
    path: Seq<char>,
    size: u64,
)
    ensures
        ({
            let d = patched(i, PatchView::Done { secs, file, level, path, size });
            &&& d.status == "done"@ && d.error is None && d.secs == secs
            &&& d.file == Some(file) && d.path == Some(path) && d.verified == Some(level)
            &&& d.bytes == size && d.total == size
            &&& d.id == i.id && d.input == i.input && d.title == i.title && d.kind == i.kind
            &&& over(d)
        }),
        ({
            let e = patched(i, PatchView::Existing { file, path });
            &&& e.status == "done"@ && e.file == Some(file) && e.path == Some(path)
            &&& e.verified == Some("existing"@) && e.error == Some("已經下載過了，跳過"@)
            &&& e.id == i.id && e.input == i.input && e.title == i.title && e.kind == i.kind
            &&& e.bytes == i.bytes && e.total == i.total && e.secs == i.secs
            &&& over(e)
        }),
        ({
            let n = patched(i, PatchView::Needless(file));
            &&& n.status == "done"@ && n.error == Some(file) && n.file == i.file && n.path == i.path
            &&& n.id == i.id && n.input == i.input && n.title == i.title && n.kind == i.kind
        }),
{
}

/// What happens on the way changes nothing else of an item.
pub proof fn law_progress_is_shown(i: ItemView, s: Seq<char>, bytes: u64, total: u64)
    ensures
        patched(i, PatchView::Progress { bytes, total }).bytes == bytes,
        patched(i, PatchView::Progress { bytes, total }).total == total,
        patched(i, PatchView::Progress { bytes, total }) == (ItemView { bytes, total, ..i }),
        patched(i, PatchView::Status(s)) == (ItemView { status: s, ..i }),
        patched(i, PatchView::Title(s)) == (ItemView { title: s, ..i }),
{
}

/// What ends an item is its failure or its success, and only those two words mean
/// that it is over.
pub proof fn law_two_ends(i: ItemView, p: PatchView)
    ensures
        over(i) <==> i.status == "done"@ || i.status == "failed"@,
        p is Failed || p is Done || p is Existing ==> final_patch(p),
        p is Status || p is Title || p is Progress || p is Needless ==> !final_patch(p),
{
}

/// A change reaches the item of its number.
pub proof fn law_update_reaches_its_item(items: Seq<ItemView>, k: int, p: PatchView)
    requires
        0 <= k < items.len(),
        forall|j: int| 0 <= j < k ==> (#[trigger] items[j]).id != items[k].id,
    ensures
        updated(items, items[k].id, p)[k] == patched(items[k], p),
        item_at(items, items[k].id) == Some(items[k]),
        item_at(updated(items, items[k].id, p), items[k].id) == Some(patched(items[k], p)),
{
    let id = items[k].id;
    lemma_place_is(items, id, k);
    let u = updated(items, id, p);
    assert forall|j: int| 0 <= j < k implies (#[trigger] u[j]).id != id by {
        assert(u[j] == items[j]);
    }
    lemma_place_is(u, id, k);
}

/// A link that stands for one thing gives one job, for the item that was made for
/// the link, and the item gets the title. The second time it gives none.
pub proof fn law_link_is_taken_in(
    v: EngineView,
    k: int,
    input: Seq<char>,
    kind: Seq<char>,
    job: JobView,
    title: Seq<char>,
)
    requires
        0 <= k < v.items.len(),
        forall|j: int| 0 <= j < k ==> (#[trigger] v.items[j]).id != v.items[k].id,
    ensures
        ({
            let b = enqueued(v, v.items[k].id, input, kind, ResolutionView::Single { job, title });
            &&& !v.seen.contains(input) ==> b.jobs == seq![(v.items[k].id, job)] && b.seen
                == v.seen.push(input) && b.items.len() == v.items.len() && b.items[k] == (ItemView {
                title,
                ..v.items[k]
            }) && b.events == seq![b.items[k]]
            &&& v.seen.contains(input) ==> b.jobs.len() == 0 && b.seen == v.seen && b.items[k]
                == (ItemView {
                status: "done"@,
                error: Some("這個項目已經在佇列裡了"@),
                ..v.items[k]
            }) && b.events == seq![b.items[k]]
            &&& b.next_id == v.next_id
        }),
{
    law_update_reaches_its_item(v.items, k, PatchView::Title(title));
    law_update_spares_the_rest(v.items, v.items[k].id, PatchView::Title(title), k);
    law_update_spares_the_rest(
        v.items,
        v.items[k].id,
        PatchView::Needless("這個項目已經在佇列裡了"@),
        k,
    );
    law_update_reaches_its_item(
        v.items,
        k,
        PatchView::Needless("這個項目已經在佇列裡了"@),
    );
    assert(Seq::<ItemView>::empty().push(v.items[k]) =~= seq![v.items[k]]);
    let b = enqueued(v, v.items[k].id, input, kind, ResolutionView::Single { job, title });
    assert(b.events =~= seq![b.items[k]]);
}

/// A new entry of a list gets an item of its own, which waits, under the entry's
/// address and title; the first one gets the item of the link. An entry that was
/// taken in before gets nothing.
pub proof fn law_entry_gets_its_item(b: Batch, id: u64, kind: Seq<char>, job: JobView, label: Seq<char>)
    requires
        0 <= b.next_id < u64::MAX,
    ensures
        b.seen.contains(job.key()) ==> b.took(id, kind, job, label) == b,
        !b.seen.contains(job.key()) && b.jobs.len() > 0 ==> {
            let a = b.took(id, kind, job, label);
            &&& a.jobs == b.jobs.push((b.next_id as u64, job))
            &&& a.items.len() == b.items.len() + 1
            &&& a.items.last() == (ItemView {
                id: b.next_id as u64,
                input: job.key(),
                title: label,
                kind,
                status: "queued"@,
                bytes: 0,
                total: 0,
                secs: None,
                file: None,
                verified: None,
                path: None,
                error: None,
            })
            &&& a.events == b.events.push(a.items.last())
            &&& a.next_id == b.next_id + 1
        },
        !b.seen.contains(job.key()) && b.jobs.len() == 0 ==> {
            let a = b.took(id, kind, job, label);
            &&& a.jobs == b.jobs.push((id, job))
            &&& a.items == updated(b.items, id, PatchView::Title(label))
            &&& a.next_id == b.next_id
        },
        !b.seen.contains(job.key()) ==> b.took(id, kind, job, label).seen == b.seen.push(job.key()),
{
}

/// What tells one job from another is the address that it fetches.
pub proof fn law_jobs_go_by_their_address(url: Seq<char>, title: Seq<char>, ct: Option<Seq<char>>, sub: Option<Seq<char>>)
    ensures
        (JobView::Ytdlp { url }).key() == url,
        (JobView::Direct { media: url, title, content_type: ct, subdir: sub }).key() == url,
{
}

/// A list whose entries have all been taken in gives no job, and its item says so.
pub proof fn law_list_without_news(
    v: EngineView,
    k: int,
    input: Seq<char>,
    kind: Seq<char>,
    title: Seq<char>,
    list: Seq<(JobView, Seq<char>)>,
)
    requires
        0 <= k < v.items.len(),
        forall|j: int| 0 <= j < k ==> (#[trigger] v.items[j]).id != v.items[k].id,
        forall|i: int| 0 <= i < list.len() ==> v.seen.contains((#[trigger] list[i]).0.key()),
    ensures
        ({
            let b = enqueued(
                v,
                v.items[k].id,
                input,
                kind,
                ResolutionView::Playlist { title, items: list },
            );
            &&& b.jobs.len() == 0
            &&& b.seen == v.seen
            &&& b.next_id == v.next_id
            &&& b.items[k] == (ItemView {
                title: title + "（清單）"@,
                status: "done"@,
                error: Some("這份清單裡的項目都已經排過了"@),
                ..v.items[k]
            })
        }),
{
    let id = v.items[k].id;
    let start = Batch {
        items: v.items,
        seen: v.seen,
        next_id: v.next_id as int,
        jobs: seq![],
        events: seq![],
    };
    let name = PatchView::Title(title + "（清單）"@);
    let named = updated(v.items, id, name);
    law_update_reaches_its_item(v.items, k, name);
    let first = Batch { items: named, events: told(seq![], named, id), ..start };
    law_second_time_nothing_to_do(first, id, kind, list);
    law_update_spares_the_rest(v.items, id, name, k);
    assert forall|j: int| 0 <= j < k implies (#[trigger] named[j]).id != named[k].id by {
        law_update_spares_the_rest(v.items, id, name, j);
        assert(v.items[j].id != v.items[k].id);
    }
    law_update_reaches_its_item(
        named,
        k,
        PatchView::Needless("這份清單裡的項目都已經排過了"@),
    );
}

/// The numbers of an engine go on from the largest that is remembered.
pub proof fn law_numbers_go_on(items: Seq<ItemView>, i: int)
    ensures
        0 <= i < items.len() ==> items[i].id <= top_id(items),
        items.len() == 0 ==> top_id(items) == 0,
        items.len() > 0 ==> exists|j: int| 0 <= j < items.len() && (#[trigger] items[j]).id == top_id(
            items,
        ),
    decreases items.len(),
{
    lemma_top_id(items);
    if items.len() > 0 {
        let t = items.drop_last();
        law_numbers_go_on(t, 0);
        let last = items[items.len() - 1];
        if top_id(items) != last.id {
            assert(t.len() > 0);
            let j = choose|j: int| 0 <= j < t.len() && (#[trigger] t[j]).id == top_id(t);
            assert(items[j] == t[j]);
        } else {
            assert(items[items.len() - 1].id == top_id(items));
        }
    }
}

/// A failure for want of a login gives the page of the item to log in at.
pub proof fn law_login_page_is_the_items(v: EngineView, k: int, why: Seq<char>)
    requires
        0 <= k < v.items.len(),
        forall|j: int| 0 <= j < k ==> (#[trigger] v.items[j]).id != v.items[k].id,
        !v.login_opened,
    ensures
        (contains(why, "401"@) || contains(why, "403"@) || contains(why, "需要登入"@)) && starts_with(
            v.items[k].input,
            "http"@,
        ) ==> login_page(v, v.items[k].id, why) == Some(v.items[k].input),
        !contains(why, "401"@) && !contains(why, "403"@) && !contains(why, "需要登入"@)
            ==> login_page(v, v.items[k].id, why) is None,
        !starts_with(v.items[k].input, "http"@) ==> login_page(v, v.items[k].id, why) is None,
{
    lemma_place_is(v.items, v.items[k].id, k);
}

/// Without a browser no session is used. A session that was exported from the same
/// browser is used; else it is exported into `cookies.txt` first.
pub proof fn law_session_is_exported_once(v: EngineView, platform: Platform, bin_dir: Seq<char>)
    ensures
        v.cookies_from is None ==> cookie_step(v, platform, bin_dir) == CookieStepView::Without,
        v.cookies_from is Some && v.cookie_file is Some && (v.cookie_file->0).0 == v.cookies_from->0
            ==> cookie_step(v, platform, bin_dir) == CookieStepView::Use((v.cookie_file->0).1),
        v.cookies_from matches Some(b) ==> (v.cookie_file is None || (v.cookie_file->0).0 != b
            ==> cookie_step(v, platform, bin_dir) == (CookieStepView::Export {
            browser: b,
            dest: paths::joined(platform, bin_dir, "cookies.txt"@),
        })),
{
}

/// From one to eight downloads run at a time, as many as asked for between those.
pub proof fn law_downloads_at_a_time(n: usize)
    ensures
        1 <= at_a_time(n) <= 8,
        1 <= n <= 8 ==> at_a_time(n) == n,
        n == 0 ==> at_a_time(n) == 1,
        n > 8 ==> at_a_time(n) == 8,
{
}

/// What is remembered is shown while its file is there; without a file only what
/// failed is. The newest five hundred are kept.
pub proof fn law_history_shows_what_is_there(l: Seq<Remembered>, r: Remembered, cap: nat, i: int)
    ensures
        r.item.path is Some && r.is_file ==> shown(l.push(r)) == shown(l).push(r.item@),
        r.item.path is Some && !r.is_file ==> shown(l.push(r)) == shown(l),
        r.item.path is None && r.item.status@ == "failed"@ ==> shown(l.push(r)) == shown(l).push(r.item@),
        r.item.path is None && r.item.status@ != "failed"@ ==> shown(l.push(r)) == shown(l),
        shown(l).len() <= cap ==> last_of(shown(l), cap) == shown(l),
        shown(l).len() > cap && 0 <= i < cap ==> last_of(shown(l), cap).len() == cap && last_of(
            shown(l),
            cap,
        )[i] == shown(l)[shown(l).len() - cap + i],
        HISTORY_CAP == 500,
{
    assert(l.push(r).drop_last() =~= l);
}

/// Progress is reported at once, and then every fifth of a second at most.
pub proof fn law_reports_are_spaced(t: Instant, now: Instant)
    requires
        t.nanos <= now.nanos,
    ensures
        report_due(None, now),
        report_due(Some(t), now) <==> now.nanos - t.nanos >= 200_000_000,
{
}

/// What a list says is what its members say, one by one.
pub proof fn law_said_of_lists(v: Seq<Item>, l: Seq<(Job, String)>, j: Seq<(u64, Job)>, i: int, x: Item)
    ensures
        item_views(v).len() == v.len(),
        0 <= i < v.len() ==> item_views(v)[i] == v[i]@,
        label_views(l).len() == l.len(),
        0 <= i < l.len() ==> label_views(l)[i] == (l[i].0@, l[i].1@),
        job_views(j).len() == j.len(),
        0 <= i < j.len() ==> job_views(j)[i] == (j[i].0, j[i].1@),
        item_of(Some(x)) == Some(x@) && item_of(None) is None,
{
}

/// What a job is taken to say is what it holds.
pub proof fn law_said_of_job(x: Job)
    ensures
        match x {
            Job::Ytdlp { url } => x@ == (JobView::Ytdlp { url: url@ }),
            Job::Direct { media, title, content_type, subdir } => x@ == (JobView::Direct { media: media@, title: title@, content_type: text_of(content_type), subdir: text_of(subdir), }),
        },
{
}

/// What a resolution is taken to say is what it holds.
pub proof fn law_said_of_resolution(x: Resolution)
    ensures
        match x {
            Resolution::Single { job, title } => x@ == (ResolutionView::Single { job: job@, title: title@, }),
            Resolution::Playlist { title, items } => x@ == (ResolutionView::Playlist { title: title@, items: label_views(items@), }),
        },
{
}

/// What a patch is taken to say is what it holds.
pub proof fn law_said_of_patch(x: Patch)
    ensures
        match x {
            Patch::Status(s) => x@ == (PatchView::Status(s@)),
            Patch::Title(t) => x@ == (PatchView::Title(t@)),
            Patch::Progress { bytes, total } => x@ == (PatchView::Progress { bytes: bytes, total: total, }),
            Patch::Failed(why) => x@ == (PatchView::Failed(why@)),
            Patch::Needless(why) => x@ == (PatchView::Needless(why@)),
            Patch::Existing { file, path } => x@ == (PatchView::Existing { file: file@, path: path@ }),
            Patch::Done { secs, file, level, path, size } => x@ == (PatchView::Done { secs: secs, file: file@, level: level@, path: path@, size: size, }),
        },
{
}

/// What a cookie step is taken to say is what it holds.
pub proof fn law_said_of_cookie_step(x: CookieStep)
    ensures
        match x {
            CookieStep::Without => x@ == (CookieStepView::Without),
            CookieStep::Use(p) => x@ == (CookieStepView::Use(p@)),
            CookieStep::Export { browser, dest } => x@ == (CookieStepView::Export { browser: browser@, dest: dest@, }),
        },
{
}

/// Nothing comes of nothing.
pub proof fn law_nothing_comes_of_nothing(b: Batch, id: u64, kind: Seq<char>)
    ensures
        unfinished(seq![]).len() == 0,
        shown(seq![]).len() == 0,
        b.took_all(id, kind, seq![]) == b,
        item_at(seq![], id) is None,
{
}

} // verus!
