//! How a link is resolved: who is asked what it is, in which order, and what
//! each answer means.

use vstd::prelude::*;
use crate::browser::sniff::{Candidate, Kind};
use crate::direct::{file_url, looks_like_file_url, Found, FoundView};
use crate::engine::names::{sanitize, sanitized, short, short_name};
use crate::engine::queue::{label_views, Job, JobView, Resolution, ResolutionView};
use crate::extract::{entry_views, Entry, EntryView, Mode, Probe, ProbeView};
use crate::gallery;
use crate::page_images::{image_views, Image, ImageView, Page, PageView};
use crate::text::{cat3, contains, copy_text, ends_with, lemma_contains_at, starts_with, text_of};

verus! {

/// Who is asked next, and what is known by then.
#[derive(Debug)]
pub enum Stage {
    /// The link names a file: only its server is asked.
    File,
    /// yt-dlp is asked.
    Ytdlp,
    /// gallery-dl is asked, since yt-dlp refused.
    Gallery { refusal: String },
    /// The server is asked whether the link is a file.
    Direct { refusal: String, hint: Option<String> },
    /// The page is searched for pictures.
    Page { refusal: String, hint: Option<String> },
}

/// What a stage says.
#[verifier::ext_equal]
pub enum StageView {
    File,
    Ytdlp,
    Gallery { refusal: Seq<char> },
    Direct { refusal: Seq<char>, hint: Option<Seq<char>> },
    Page { refusal: Seq<char>, hint: Option<Seq<char>> },
}

impl View for Stage {
    type V = StageView;

    open spec fn view(&self) -> StageView {
        match self {
            Stage::File => StageView::File,
            Stage::Ytdlp => StageView::Ytdlp,
            Stage::Gallery { refusal } => StageView::Gallery { refusal: refusal@ },
            Stage::Direct { refusal, hint } => StageView::Direct {
                refusal: refusal@,
                hint: text_of(*hint),
            },
            Stage::Page { refusal, hint } => StageView::Page {
                refusal: refusal@,
                hint: text_of(*hint),
            },
        }
    }
}

/// What gallery-dl had to say.
#[derive(Debug)]
pub enum GalleryAnswer {
    /// It is not installed.
    Missing,
    /// It does not know the address.
    Unsupported,
    /// The pictures of the page, or why there are none.
    Listed(Result<Vec<gallery::Entry>, String>),
}

/// What came back from the one who was asked.
#[derive(Debug)]
pub enum Reply {
    Found(Result<Found, String>),
    Probed(Result<Probe, String>),
    Gallery(GalleryAnswer),
    Page(Result<Page, String>),
}

/// What a reply says.
#[verifier::ext_equal]
pub enum ReplyView {
    Found(Result<FoundView, Seq<char>>),
    Probed(Result<ProbeView, Seq<char>>),
    Missing,
    Unsupported,
    Listed(Result<Seq<gallery::EntryView>, Seq<char>>),
    Page(Result<PageView, Seq<char>>),
}

impl View for Reply {
    type V = ReplyView;

    open spec fn view(&self) -> ReplyView {
        match self {
            Reply::Found(r) => ReplyView::Found(
                match r {
                    Ok(f) => Ok(f@),
                    Err(e) => Err(e@),
                },
            ),
            Reply::Probed(r) => ReplyView::Probed(
                match r {
                    Ok(p) => Ok(p@),
                    Err(e) => Err(e@),
                },
            ),
            Reply::Gallery(g) => match g {
                GalleryAnswer::Missing => ReplyView::Missing,
                GalleryAnswer::Unsupported => ReplyView::Unsupported,
                GalleryAnswer::Listed(r) => ReplyView::Listed(
                    match r {
                        Ok(v) => Ok(gallery::entry_views(v@)),
                        Err(e) => Err(e@),
                    },
                ),
            },
            Reply::Page(r) => ReplyView::Page(
                match r {
                    Ok(p) => Ok(p@),
                    Err(e) => Err(e@),
                },
            ),
        }
    }
}

/// What a reply leads to.
#[derive(Debug)]
pub enum Move {
    Resolved(Resolution),
    Failed(String),
    Ask(Stage),
}

/// What a move says.
#[verifier::ext_equal]
pub enum MoveView {
    Resolved(ResolutionView),
    Failed(Seq<char>),
    Ask(StageView),
}

impl View for Move {
    type V = MoveView;

    open spec fn view(&self) -> MoveView {
        match self {
            Move::Resolved(r) => MoveView::Resolved(r@),
            Move::Failed(e) => MoveView::Failed(e@),
            Move::Ask(s) => MoveView::Ask(s@),
        }
    }
}

/// A link that plainly names a file is never taken to an extractor: which one would
/// answer depends on the moment, and with it the file's name and its check.
pub open spec fn first_stage(input: Seq<char>) -> StageView {
    if file_url(input) {
        StageView::File
    } else {
        StageView::Ytdlp
    }
}

pub fn start(input: &str) -> (r: Stage)
    ensures
        r@ == first_stage(input@),
{
    if looks_like_file_url(input) {
        Stage::File
    } else {
        Stage::Ytdlp
    }
}

/// A found file as the only item.
pub open spec fn one_file(f: FoundView) -> ResolutionView {
    ResolutionView::Single {
        job: JobView::Direct {
            media: f.media,
            title: f.title,
            content_type: f.content_type,
            subdir: None,
        },
        title: f.title,
    }
}

/// The items of a playlist, each under its title or, without one, the tail of
/// its address.
pub open spec fn playlist_items(entries: Seq<EntryView>) -> Seq<(JobView, Seq<char>)> {
    entries.map_values(
        |e: EntryView|
            (
                JobView::Ytdlp { url: e.url },
                match e.title {
                    Some(t) => t,
                    None => short_name(e.url),
                },
            ),
    )
}

/// The pictures of a gallery, in a directory of their own.
pub open spec fn gallery_items(entries: Seq<gallery::EntryView>, sub: Seq<char>) -> Seq<
    (JobView, Seq<char>),
> {
    entries.map_values(
        |e: gallery::EntryView|
            (
                JobView::Direct {
                    media: e.url,
                    title: e.title,
                    content_type: None,
                    subdir: Some(sub),
                },
                e.title,
            ),
    )
}

/// The pictures of a page, in a directory of their own.
pub open spec fn page_items(images: Seq<ImageView>, sub: Seq<char>) -> Seq<(JobView, Seq<char>)> {
    images.map_values(
        |i: ImageView|
            (
                JobView::Direct {
                    media: i.url,
                    title: i.title,
                    content_type: i.content_type,
                    subdir: Some(sub),
                },
                i.title,
            ),
    )
}

/// What to tell where nobody knew what to do: yt-dlp's reason, and the hint.
pub open spec fn reason(refusal: Seq<char>, hint: Option<Seq<char>>) -> Seq<char> {
    match hint {
        Some(h) => refusal + "\n"@ + h,
        None => refusal,
    }
}

/// What a reply leads to. A reply to another question is not heard.
pub open spec fn moved(stage: StageView, reply: ReplyView, input: Seq<char>, mode: Mode) -> MoveView {
    match (stage, reply) {
        (StageView::File, ReplyView::Found(r)) => match r {
            Ok(f) => MoveView::Resolved(one_file(f)),
            Err(e) => MoveView::Failed(e),
        },
        (StageView::Ytdlp, ReplyView::Probed(r)) => match r {
            Ok(ProbeView::Single { title }) => MoveView::Resolved(
                ResolutionView::Single { job: JobView::Ytdlp { url: input }, title },
            ),
            Ok(ProbeView::Playlist { title, entries }) => MoveView::Resolved(
                ResolutionView::Playlist { title, items: playlist_items(entries) },
            ),
            Err(e) => MoveView::Ask(StageView::Gallery { refusal: e }),
        },
        (StageView::Gallery { refusal }, ReplyView::Missing) => MoveView::Ask(
            StageView::Direct {
                refusal,
                hint: Some(
                    "若這是圖庫或漫畫頁，安裝 gallery-dl 後可支援：pipx install gallery-dl"@,
                ),
            },
        ),
        (StageView::Gallery { refusal }, ReplyView::Unsupported) => MoveView::Ask(
            StageView::Direct { refusal, hint: None },
        ),
        (StageView::Gallery { refusal }, ReplyView::Listed(r)) => match r {
            Ok(entries) => MoveView::Resolved(
                ResolutionView::Playlist {
                    title: sanitized(short_name(input)),
                    items: gallery_items(entries, sanitized(short_name(input))),
                },
            ),
            Err(e) => MoveView::Ask(
                StageView::Direct { refusal, hint: Some("（圖庫萃取器："@ + e + "）"@) },
            ),
        },
        (StageView::Direct { refusal, hint }, ReplyView::Found(r)) => match r {
            Ok(f) => MoveView::Resolved(one_file(f)),
            Err(_) => if mode == Mode::Image {
                MoveView::Ask(StageView::Page { refusal, hint })
            } else {
                MoveView::Failed(reason(refusal, hint))
            },
        },
        (StageView::Page { refusal, hint }, ReplyView::Page(r)) => match r {
            Ok(p) => MoveView::Resolved(
                ResolutionView::Playlist {
                    title: sanitized(p.title),
                    items: page_items(p.images, sanitized(p.title)),
                },
            ),
            Err(_) => MoveView::Failed(reason(refusal, hint)),
        },
        _ => MoveView::Ask(stage),
    }
}

fn file_item(f: Found) -> (r: Resolution)
    ensures
        r@ == one_file(f@),
{
    let title = f.title.as_str().to_owned();
    let r = Resolution::Single {
        job: Job::Direct {
            media: f.media,
            title: f.title,
            content_type: f.content_type,
            subdir: None,
        },
        title,
    };
    proof {
        assert(r@ =~= one_file(f@));
    }
    r
}

fn list_playlist(entries: &Vec<Entry>) -> (r: Vec<(Job, String)>)
    ensures
        label_views(r@) == playlist_items(entry_views(entries@)),
        r@.len() == entries@.len(),
        forall|i: int|
            0 <= i < entries@.len() ==> ((#[trigger] r@[i]).0 matches Job::Ytdlp { url } && url@
                == entries@[i].url@),
{
    let ghost all = playlist_items(entry_views(entries@));
    let mut out: Vec<(Job, String)> = Vec::new();
    let mut i: usize = 0;
    while i < entries.len()
        invariant
            all == playlist_items(entry_views(entries@)),
            i <= entries@.len(),
            out@.len() == i,
            forall|j: int|
                0 <= j < i ==> ((#[trigger] out@[j]).0 matches Job::Ytdlp { url } && url@
                    == entries@[j].url@),
            label_views(out@) == all.take(i as int),
        decreases entries@.len() - i,
    {
        let e = &entries[i];
        let ghost done = label_views(out@);
        let label = match &e.title {
            Some(t) => t.as_str().to_owned(),
            None => short(e.url.as_str()),
        };
        let job = Job::Ytdlp { url: e.url.as_str().to_owned() };
        proof {
            assert(entry_views(entries@)[i as int] == e@);
            assert(all[i as int] == (job@, label@));
            assert(all.take(i + 1) =~= all.take(i as int).push(all[i as int]));
        }
        let ghost pair = (job@, label@);
        out.push((job, label));
        proof {
            assert(label_views(out@) =~= done.push(pair));
        }
        i += 1;
    }
    proof {
        assert(all.take(i as int) =~= all);
    }
    out
}

fn list_gallery(entries: &Vec<gallery::Entry>, sub: &str) -> (r: Vec<(Job, String)>)
    ensures
        label_views(r@) == gallery_items(gallery::entry_views(entries@), sub@),
{
    let ghost all = gallery_items(gallery::entry_views(entries@), sub@);
    let mut out: Vec<(Job, String)> = Vec::new();
    let mut i: usize = 0;
    while i < entries.len()
        invariant
            all == gallery_items(gallery::entry_views(entries@), sub@),
            i <= entries@.len(),
            label_views(out@) == all.take(i as int),
        decreases entries@.len() - i,
    {
        let e = &entries[i];
        let ghost done = label_views(out@);
        let job = Job::Direct {
            media: e.url.as_str().to_owned(),
            title: e.title.as_str().to_owned(),
            content_type: None,
            subdir: Some(sub.to_owned()),
        };
        let label = e.title.as_str().to_owned();
        proof {
            assert(gallery::entry_views(entries@)[i as int] == e@);
            assert(all[i as int] == (job@, label@));
            assert(all.take(i + 1) =~= all.take(i as int).push(all[i as int]));
        }
        let ghost pair = (job@, label@);
        out.push((job, label));
        proof {
            assert(label_views(out@) =~= done.push(pair));
        }
        i += 1;
    }
    proof {
        assert(all.take(i as int) =~= all);
    }
    out
}

fn list_page(images: &Vec<Image>, sub: &str) -> (r: Vec<(Job, String)>)
    ensures
        label_views(r@) == page_items(image_views(images@), sub@),
{
    let ghost all = page_items(image_views(images@), sub@);
    let mut out: Vec<(Job, String)> = Vec::new();
    let mut i: usize = 0;
    while i < images.len()
        invariant
            all == page_items(image_views(images@), sub@),
            i <= images@.len(),
            label_views(out@) == all.take(i as int),
        decreases images@.len() - i,
    {
        let e = &images[i];
        let ghost done = label_views(out@);
        let job = Job::Direct {
            media: e.url.as_str().to_owned(),
            title: e.title.as_str().to_owned(),
            content_type: copy_text(&e.content_type),
            subdir: Some(sub.to_owned()),
        };
        let label = e.title.as_str().to_owned();
        proof {
            assert(image_views(images@)[i as int] == e@);
            assert(all[i as int] == (job@, label@));
            assert(all.take(i + 1) =~= all.take(i as int).push(all[i as int]));
        }
        let ghost pair = (job@, label@);
        out.push((job, label));
        proof {
            assert(label_views(out@) =~= done.push(pair));
        }
        i += 1;
    }
    proof {
        assert(all.take(i as int) =~= all);
    }
    out
}

fn explain(refusal: &str, hint: &Option<String>) -> (r: String)
    ensures
        r@ == reason(refusal@, text_of(*hint)),
{
    match hint {
        Some(h) => cat3(refusal, "\n", h.as_str()),
        None => refusal.to_owned(),
    }
}

fn after_ytdlp(r: Result<Probe, String>, input: &str) -> (m: Move)
    ensures
        forall|mode: Mode| moved(StageView::Ytdlp, (Reply::Probed(r))@, input@, mode) == m@,
        r matches Ok(Probe::Playlist { entries, .. }) ==> (m matches Move::Resolved(
            Resolution::Playlist { items, .. },
        ) && items@.len() == entries@.len() && forall|i: int|
            0 <= i < entries@.len() ==> ((#[trigger] items@[i]).0 matches Job::Ytdlp { url } && url@
                == entries@[i].url@)),
{
    match r {
        Ok(Probe::Single { title }) => Move::Resolved(
            Resolution::Single { job: Job::Ytdlp { url: input.to_owned() }, title },
        ),
        Ok(Probe::Playlist { title, entries }) => Move::Resolved(
            Resolution::Playlist { title, items: list_playlist(&entries) },
        ),
        Err(e) => Move::Ask(Stage::Gallery { refusal: e }),
    }
}

fn after_gallery(refusal: String, g: GalleryAnswer, input: &str) -> (m: Move)
    ensures
        forall|mode: Mode|
            moved(
                StageView::Gallery { refusal: refusal@ },
                (Reply::Gallery(g))@,
                input@,
                mode,
            ) == m@,
{
    match g {
        GalleryAnswer::Missing => Move::Ask(
            Stage::Direct {
                refusal,
                hint: Some(
                    "若這是圖庫或漫畫頁，安裝 gallery-dl 後可支援：pipx install gallery-dl".to_owned(),
                ),
            },
        ),
        GalleryAnswer::Unsupported => Move::Ask(Stage::Direct { refusal, hint: None }),
        GalleryAnswer::Listed(r) => match r {
            Ok(entries) => {
                let sub = sanitize(short(input).as_str());
                let items = list_gallery(&entries, sub.as_str());
                Move::Resolved(Resolution::Playlist { title: sub, items })
            },
            Err(e) => Move::Ask(
                Stage::Direct {
                    refusal,
                    hint: Some(cat3("（圖庫萃取器：", e.as_str(), "）")),
                },
            ),
        },
    }
}

/// What a reply leads to: the link is resolved, or nobody knows it, or the next
/// one is asked.
pub fn advance(stage: Stage, reply: Reply, input: &str, mode: Mode) -> (m: Move)
    ensures
        m@ == moved(stage@, reply@, input@, mode),
        stage is Ytdlp ==> (reply matches Reply::Probed(Ok(Probe::Playlist { entries, .. })) ==> (m
            matches Move::Resolved(Resolution::Playlist { items, .. }) && items@.len()
            == entries@.len() && forall|i: int|
            0 <= i < entries@.len() ==> ((#[trigger] items@[i]).0 matches Job::Ytdlp { url } && url@
                == entries@[i].url@))),
{
    match (stage, reply) {
        (Stage::File, Reply::Found(r)) => match r {
            Ok(f) => Move::Resolved(file_item(f)),
            Err(e) => Move::Failed(e),
        },
        (Stage::Ytdlp, Reply::Probed(r)) => after_ytdlp(r, input),
        (Stage::Gallery { refusal }, Reply::Gallery(g)) => after_gallery(refusal, g, input),
        (Stage::Direct { refusal, hint }, Reply::Found(r)) => match r {
            Ok(f) => Move::Resolved(file_item(f)),
            Err(_) => if mode == Mode::Image {
                Move::Ask(Stage::Page { refusal, hint })
            } else {
                Move::Failed(explain(refusal.as_str(), &hint))
            },
        },
        (Stage::Page { refusal, hint }, Reply::Page(r)) => match r {
            Ok(p) => {
                let sub = sanitize(p.title.as_str());
                let items = list_page(&p.images, sub.as_str());
                Move::Resolved(Resolution::Playlist { title: sub, items })
            },
            Err(_) => Move::Failed(explain(refusal.as_str(), &hint)),
        },
        (s, _) => Move::Ask(s),
    }
}

/// What a browser that loaded the page of a link found, as an item: a manifest is
/// yt-dlp's work, anything else is fetched as it is.
pub open spec fn item_in_browser(c: Candidate, title: Seq<char>, input: Seq<char>) -> ResolutionView {
    let name = if title.len() == 0 {
        short_name(input)
    } else {
        title
    };
    ResolutionView::Single {
        job: if c.kind == Kind::Manifest {
            JobView::Ytdlp { url: c.url@ }
        } else {
            JobView::Direct {
                media: c.url@,
                title: name,
                content_type: Some(c.mime@),
                subdir: None,
            }
        },
        title: name,
    }
}

/// The item that a browser found on the page of a link.
pub fn in_browser(c: &Candidate, title: &str, input: &str) -> (r: Resolution)
    ensures
        r@ == item_in_browser(*c, title@, input@),
{
    let name = if title.unicode_len() == 0 {
        short(input)
    } else {
        title.to_owned()
    };
    let job = match c.kind {
        Kind::Manifest => Job::Ytdlp { url: c.url.as_str().to_owned() },
        _ => Job::Direct {
            media: c.url.as_str().to_owned(),
            title: name.as_str().to_owned(),
            content_type: Some(c.mime.as_str().to_owned()),
            subdir: None,
        },
    };
    let r = Resolution::Single { job, title: name };
    proof {
        assert(r@ =~= item_in_browser(*c, title@, input@));
    }
    r
}

/// How far a stage is along.
pub open spec fn rank(s: StageView) -> nat {
    match s {
        StageView::File => 4,
        StageView::Ytdlp => 3,
        StageView::Gallery { .. } => 2,
        StageView::Direct { .. } => 1,
        StageView::Page { .. } => 0,
    }
}

/// Whether a reply answers the question of a stage.
pub open spec fn answers(s: StageView, r: ReplyView) -> bool {
    match s {
        StageView::File => r is Found,
        StageView::Ytdlp => r is Probed,
        StageView::Gallery { .. } => r is Missing || r is Unsupported || r is Listed,
        StageView::Direct { .. } => r is Found,
        StageView::Page { .. } => r is Page,
    }
}

/// Resolving comes to an end: an answer either settles the matter or leads to
/// someone who has not been asked yet.
pub proof fn law_resolving_ends(s: StageView, r: ReplyView, input: Seq<char>, mode: Mode)
    requires
        answers(s, r),
    ensures
        moved(s, r, input, mode) matches MoveView::Ask(next) ==> rank(next) < rank(s),
{
}

/// A link that plainly names a file meets no extractor: its server is asked, and
/// the answer settles the matter.
pub proof fn law_files_meet_no_extractor(input: Seq<char>, r: ReplyView, mode: Mode)
    requires
        file_url(input),
        answers(first_stage(input), r),
    ensures
        first_stage(input) is File,
        !(moved(first_stage(input), r, input, mode) is Ask),
{
}

/// A page is searched for pictures in image mode only.
pub proof fn law_pages_are_for_images(s: StageView, r: ReplyView, input: Seq<char>, mode: Mode)
    requires
        !(s is Page),
        moved(s, r, input, mode) matches MoveView::Ask(next) && next is Page,
    ensures
        mode == Mode::Image,
{
}

/// Where nobody knows a link, what is told begins with yt-dlp's reason.
pub proof fn law_refusal_is_told(refusal: Seq<char>, hint: Option<Seq<char>>)
    ensures
        crate::text::starts_with(reason(refusal, hint), refusal),
{
    assert(reason(refusal, hint).take(refusal.len() as int) =~= refusal);
}

/// Each item of a resolved playlist is a job for yt-dlp at the very address of the
/// entry in the same place, under that entry's title; none is left out and none
/// added.
pub proof fn law_playlist_keeps_its_addresses(
    title: Seq<char>,
    entries: Seq<EntryView>,
    input: Seq<char>,
    mode: Mode,
)
    ensures
        moved(
            StageView::Ytdlp,
            ReplyView::Probed(Ok(ProbeView::Playlist { title, entries })),
            input,
            mode,
        ) matches MoveView::Resolved(ResolutionView::Playlist { title: t, items }) && t == title
            && items.len() == entries.len() && forall|i: int|
            0 <= i < entries.len() ==> {
                &&& (#[trigger] items[i]).0 == (JobView::Ytdlp { url: entries[i].url })
                &&& items[i].0.key() == entries[i].url
                &&& entries[i].title matches Some(n) ==> items[i].1 == n
            },
{
}

/// A single item is fetched from the link itself, under the title that yt-dlp gave.
pub proof fn law_single_item_is_the_link(title: Seq<char>, input: Seq<char>, mode: Mode)
    ensures
        moved(StageView::Ytdlp, ReplyView::Probed(Ok(ProbeView::Single { title })), input, mode)
            == MoveView::Resolved(
            ResolutionView::Single { job: JobView::Ytdlp { url: input }, title },
        ),
{
}

/// The pictures of a gallery and those of a page are fetched from their own
/// addresses, one for one, into a directory of their own.
pub proof fn law_pictures_keep_their_addresses(
    refusal: Seq<char>,
    hint: Option<Seq<char>>,
    entries: Seq<gallery::EntryView>,
    page: PageView,
    input: Seq<char>,
    mode: Mode,
)
    ensures
        moved(StageView::Gallery { refusal }, ReplyView::Listed(Ok(entries)), input, mode)
            matches MoveView::Resolved(ResolutionView::Playlist { items, .. }) && items.len()
            == entries.len() && forall|i: int|
            0 <= i < entries.len() ==> {
                &&& (#[trigger] items[i]).0.key() == entries[i].url
                &&& items[i].0 matches JobView::Direct { title, subdir: Some(_), .. } && title
                    == entries[i].title
            },
        moved(StageView::Page { refusal, hint }, ReplyView::Page(Ok(page)), input, mode)
            matches MoveView::Resolved(ResolutionView::Playlist { items, .. }) && items.len()
            == page.images.len() && forall|i: int|
            0 <= i < page.images.len() ==> {
                &&& (#[trigger] items[i]).0.key() == page.images[i].url
                &&& items[i].0 matches JobView::Direct {
                    title,
                    content_type,
                    subdir: Some(sub),
                    ..
                } && title == page.images[i].title && content_type == page.images[i].content_type
                    && sub == sanitized(page.title)
            },
{
}

/// A file that a server announces is fetched from where it said, as the only item.
pub proof fn law_found_file_is_the_item(
    refusal: Seq<char>,
    hint: Option<Seq<char>>,
    f: FoundView,
    input: Seq<char>,
    mode: Mode,
)
    ensures
        ({
            let item = MoveView::Resolved(
                ResolutionView::Single {
                    job: JobView::Direct {
                        media: f.media,
                        title: f.title,
                        content_type: f.content_type,
                        subdir: None,
                    },
                    title: f.title,
                },
            );
            &&& moved(StageView::File, ReplyView::Found(Ok(f)), input, mode) == item
            &&& moved(StageView::Direct { refusal, hint }, ReplyView::Found(Ok(f)), input, mode) == item
        }),
{
}

/// The layers are asked in their order: after yt-dlp the gallery's extractor, then
/// the server and, in image mode, the page. What yt-dlp said is carried along and
/// told at the end; a plain file fails with the server's own words.
pub proof fn law_layers_are_asked_in_order(
    e: Seq<char>,
    refusal: Seq<char>,
    hint: Option<Seq<char>>,
    input: Seq<char>,
    mode: Mode,
)
    ensures
        moved(StageView::Ytdlp, ReplyView::Probed(Err(e)), input, mode) == MoveView::Ask(
            StageView::Gallery { refusal: e },
        ),
        moved(StageView::Gallery { refusal }, ReplyView::Missing, input, mode) matches MoveView::Ask(
            StageView::Direct { refusal: w, hint: Some(_) },
        ) && w == refusal,
        moved(StageView::Gallery { refusal }, ReplyView::Unsupported, input, mode) == MoveView::Ask(
            StageView::Direct { refusal, hint: None },
        ),
        moved(StageView::Gallery { refusal }, ReplyView::Listed(Err(e)), input, mode)
            matches MoveView::Ask(StageView::Direct { refusal: w, hint: Some(h) }) && w == refusal
            && contains(h, e),
        mode == Mode::Image ==> moved(
            StageView::Direct { refusal, hint },
            ReplyView::Found(Err(e)),
            input,
            mode,
        ) == MoveView::Ask(StageView::Page { refusal, hint }),
        mode != Mode::Image ==> (moved(
            StageView::Direct { refusal, hint },
            ReplyView::Found(Err(e)),
            input,
            mode,
        ) matches MoveView::Failed(w) && starts_with(w, refusal) && (hint is None ==> w == refusal)
            && (hint matches Some(h) ==> ends_with(w, h))),
        moved(StageView::Page { refusal, hint }, ReplyView::Page(Err(e)), input, mode)
            matches MoveView::Failed(w) && starts_with(w, refusal) && (hint matches Some(h) ==> ends_with(
            w,
            h,
        )),
        moved(StageView::File, ReplyView::Found(Err(e)), input, mode) == MoveView::Failed(e),
{
    let front = "（圖庫萃取器："@;
    let h = front + e + "）"@;
    assert(h.subrange(front.len() as int, front.len() as int + e.len()) =~= e);
    lemma_contains_at(h, e, front.len() as int);
    law_refusal_is_told(refusal, hint);
    if hint is Some {
        let w = refusal + "\n"@ + hint->0;
        assert(w.skip(w.len() - hint->0.len()) =~= hint->0);
    }
}

/// What a browser found is fetched from where the browser saw it; a manifest is
/// yt-dlp's work and everything else a plain request.
pub proof fn law_browser_item_keeps_its_address(c: Candidate, title: Seq<char>, input: Seq<char>)
    ensures
        item_in_browser(c, title, input) matches ResolutionView::Single { job, title: t } && job.key()
            == c.url@ && (job is Ytdlp <==> c.kind == Kind::Manifest) && (title.len() > 0 ==> t
            == title) && (job matches JobView::Direct { content_type, .. } ==> content_type == Some(
            c.mime@,
        )),
{
}

/// Where no layer takes a link, the words of yt-dlp come first, with what the gallery
/// layer had to say behind them.
pub proof fn law_refusals_are_carried_on(refusal: Seq<char>, e: Seq<char>, input: Seq<char>, mode: Mode)
    ensures
        moved(StageView::Gallery { refusal }, ReplyView::Missing, input, mode) == MoveView::Ask(
            StageView::Direct {
                refusal,
                hint: Some(
                    "若這是圖庫或漫畫頁，安裝 gallery-dl 後可支援：pipx install gallery-dl"@,
                ),
            },
        ),
        moved(StageView::Gallery { refusal }, ReplyView::Unsupported, input, mode) == MoveView::Ask(
            StageView::Direct { refusal, hint: None },
        ),
        moved(StageView::Gallery { refusal }, ReplyView::Listed(Err(e)), input, mode) == MoveView::Ask(
            StageView::Direct { refusal, hint: Some("（圖庫萃取器："@ + e + "）"@) },
        ),
        mode != Mode::Image ==> moved(
            StageView::Direct { refusal, hint: None },
            ReplyView::Found(Err(e)),
            input,
            mode,
        ) == MoveView::Failed(reason(refusal, None)),
        starts_with(reason(refusal, Some(e)), refusal) && contains(reason(refusal, Some(e)), e),
        reason(refusal, None) == refusal,
{
    let r = reason(refusal, Some(e));
    assert(r.take(refusal.len() as int) =~= refusal);
    assert(r.subrange(r.len() - e.len(), r.len() as int) =~= e);
    crate::text::lemma_contains_at(r, e, r.len() - e.len());
}

/// What a stage is taken to say is what it holds.
pub proof fn law_said_of_stage(x: Stage)
    ensures
        match x {
            Stage::File => x@ == (StageView::File),
            Stage::Ytdlp => x@ == (StageView::Ytdlp),
            Stage::Gallery { refusal } => x@ == (StageView::Gallery { refusal: refusal@ }),
            Stage::Direct { refusal, hint } => x@ == (StageView::Direct { refusal: refusal@, hint: text_of(hint), }),
            Stage::Page { refusal, hint } => x@ == (StageView::Page { refusal: refusal@, hint: text_of(hint), }),
        },
{
}

/// What a reply is taken to say is what it holds.
pub proof fn law_said_of_reply(x: Reply)
    ensures
        match x {
            Reply::Found(r) => x@ == (ReplyView::Found( match r { Ok(f) => Ok(f@), Err(e) => Err(e@), }, )),
            Reply::Probed(r) => x@ == (ReplyView::Probed( match r { Ok(p) => Ok(p@), Err(e) => Err(e@), }, )),
            Reply::Gallery(g) => x@ == (match g { GalleryAnswer::Missing => ReplyView::Missing, GalleryAnswer::Unsupported => ReplyView::Unsupported, GalleryAnswer::Listed(r) => ReplyView::Listed( match r { Ok(v) => Ok(gallery::entry_views(v@)), Err(e) => Err(e@), }, ), }),
            Reply::Page(r) => x@ == (ReplyView::Page( match r { Ok(p) => Ok(p@), Err(e) => Err(e@), }, )),
        },
{
}

/// What a move is taken to say is what it holds.
pub proof fn law_said_of_move(x: Move)
    ensures
        match x {
            Move::Resolved(r) => x@ == (MoveView::Resolved(r@)),
            Move::Failed(e) => x@ == (MoveView::Failed(e@)),
            Move::Ask(s) => x@ == (MoveView::Ask(s@)),
        },
{
}

/// What has no title goes by the last part of its address; a gallery goes by that of the
/// link, made fit for a directory, and a page by its title.
pub proof fn law_titles_are_made_up(
    entries: Seq<EntryView>,
    title: Seq<char>,
    i: int,
    c: Candidate,
    pics: Seq<gallery::EntryView>,
    page: PageView,
    refusal: Seq<char>,
    hint: Option<Seq<char>>,
    input: Seq<char>,
    mode: Mode,
)
    ensures
        0 <= i < entries.len() && entries[i].title is None ==> playlist_items(entries)[i].1 == short_name(
            entries[i].url,
        ),
        item_in_browser(c, seq![], input) matches ResolutionView::Single { title: t, .. } && t
            == short_name(input),
        moved(StageView::Gallery { refusal }, ReplyView::Listed(Ok(pics)), input, mode) matches MoveView::Resolved(
            ResolutionView::Playlist { title: t, items },
        ) && t == sanitized(short_name(input)) && (0 <= i < pics.len() ==> items[i].1 == pics[i].title && (
        items[i].0 matches JobView::Direct { subdir, .. } && subdir == Some(
            sanitized(short_name(input)),
        ))),
        moved(StageView::Page { refusal, hint }, ReplyView::Page(Ok(page)), input, mode) matches MoveView::Resolved(
            ResolutionView::Playlist { title: t, items },
        ) && t == sanitized(page.title) && (0 <= i < page.images.len() ==> items[i].1
            == page.images[i].title),
        reason(refusal, Some(title)) == refusal + "\n"@ + title,
{
}

} // verus!
