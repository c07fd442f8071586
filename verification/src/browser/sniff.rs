//! Picking the real media of a page out of its network traffic: what a
//! response is, which requests are one and the same, which of them is the
//! content, and when enough has been seen.

use vstd::prelude::*;
use crate::clock::{Duration, Instant};
use crate::text::{
    after_last, cat, ends_with, find, find_last, first, has_prefix, has_suffix, head,
    lemma_after_last, lemma_after_last_is, lemma_first_is, lemma_trimmed_same, lower, pairs, same,
    starts_with, tail, to_lower, trim, trimmed, white, Class,
};

verus! {

/// What a media request is for.
#[derive(Clone, Copy, Debug, PartialEq, Eq, Structural)]
pub enum Kind {
    /// An HLS or DASH manifest: it names every quality and every segment.
    Manifest,
    /// One media file.
    File,
    /// A piece of an HLS or DASH stream. It cannot be fetched on its own.
    Segment,
}

/// A request that may be the media of the page.
#[derive(Clone, Debug)]
pub struct Candidate {
    pub url: String,
    pub kind: Kind,
    pub size: Option<u64>,
    pub mime: String,
    /// The headers of the request that are worth sending again.
    pub headers: Vec<(String, String)>,
}

/// What a candidate says.
#[verifier::ext_equal]
pub struct CandidateView {
    pub url: Seq<char>,
    pub kind: Kind,
    pub size: Option<u64>,
    pub mime: Seq<char>,
    pub headers: Seq<(Seq<char>, Seq<char>)>,
}

impl View for Candidate {
    type V = CandidateView;

    open spec fn view(&self) -> CandidateView {
        CandidateView {
            url: self.url@,
            kind: self.kind,
            size: self.size,
            mime: self.mime@,
            headers: pairs(self.headers@),
        }
    }
}

/// A "media file" smaller than this is a beacon or a probe, not content.
pub const MIN_FILE_BYTES: u64 = 10_240;

pub open spec fn manifest_mime(m: Seq<char>) -> bool {
    ||| m == "application/vnd.apple.mpegurl"@
    ||| m == "application/x-mpegurl"@
    ||| m == "audio/mpegurl"@
    ||| m == "audio/x-mpegurl"@
    ||| m == "application/dash+xml"@
}

pub open spec fn file_ext(e: Seq<char>) -> bool {
    ||| e == "mp4"@
    ||| e == "m4a"@
    ||| e == "m4v"@
    ||| e == "mp3"@
    ||| e == "webm"@
    ||| e == "ogg"@
    ||| e == "oga"@
    ||| e == "opus"@
    ||| e == "flac"@
    ||| e == "wav"@
    ||| e == "aac"@
    ||| e == "mov"@
    ||| e == "mkv"@
}

/// The extension of the file that a URL names, in lower case: what follows the
/// last dot of the last path segment, the query and the fragment aside.
pub open spec fn url_ext(url: Seq<char>) -> Seq<char> {
    let path = url.take(first(url, Class::Either('?', '#'), true));
    let name = path.skip(after_last(path, Class::Is('/'), true));
    let dot = after_last(name, Class::Is('.'), true);
    if dot == 0 {
        seq![]
    } else {
        lower(name.skip(dot))
    }
}

/// A content type without its parameters, in lower case.
pub open spec fn bare_mime(mime: Seq<char>) -> Seq<char> {
    lower(trimmed(mime.take(first(mime, Class::Is(';'), true))))
}

/// What a response is, by its content type, by the extension of its URL, and
/// at last by the browser's own opinion.
pub open spec fn kind_of(url: Seq<char>, mime: Seq<char>, resource_type: Seq<char>) -> Option<
    Kind,
> {
    let m = bare_mime(mime);
    let e = url_ext(url);
    if manifest_mime(m) || e == "m3u8"@ || e == "mpd"@ {
        Some(Kind::Manifest)
    } else if m == "video/mp2t"@ || m == "video/iso.segment"@ || e == "ts"@ || e == "m4s"@ {
        Some(Kind::Segment)
    } else if starts_with(m, "video/"@) || starts_with(m, "audio/"@) || file_ext(e)
        || resource_type == "Media"@ {
        Some(Kind::File)
    } else {
        None
    }
}

fn ext_of(url: &str) -> (r: String)
    ensures
        r@ == url_ext(url@),
{
    let path = head(url, find(url, Class::Either('?', '#'), true));
    let name = tail(path, find_last(path, Class::Is('/'), true));
    let dot: usize = find_last(name, Class::Is('.'), true);
    if dot == 0 {
        String::new()
    } else {
        to_lower(tail(name, dot))
    }
}

/// A content type without its parameters, in lower case.
pub fn mime_of(mime: &str) -> (r: String)
    ensures
        r@ == bare_mime(mime@),
{
    to_lower(trim(head(mime, find(mime, Class::Is(';'), true))))
}

/// What a response is; nothing where it is no media at all.
pub fn classify(url: &str, mime: &str, resource_type: &str) -> (r: Option<Kind>)
    ensures
        r == kind_of(url@, mime@, resource_type@),
{
    let bare = mime_of(mime);
    let m = bare.as_str();
    let ext = ext_of(url);
    let e = ext.as_str();
    if same(m, "application/vnd.apple.mpegurl") || same(m, "application/x-mpegurl") || same(
        m,
        "audio/mpegurl",
    ) || same(m, "audio/x-mpegurl") || same(m, "application/dash+xml") || same(e, "m3u8") || same(
        e,
        "mpd",
    ) {
        return Some(Kind::Manifest);
    }
    if same(m, "video/mp2t") || same(m, "video/iso.segment") || same(e, "ts") || same(e, "m4s") {
        return Some(Kind::Segment);
    }
    if has_prefix(m, "video/") || has_prefix(m, "audio/") || is_file_ext(e) || same(
        resource_type,
        "Media",
    ) {
        return Some(Kind::File);
    }
    None
}

fn is_file_ext(e: &str) -> (r: bool)
    ensures
        r == file_ext(e@),
{
    same(e, "mp4") || same(e, "m4a") || same(e, "m4v") || same(e, "mp3") || same(e, "webm") || same(
        e,
        "ogg",
    ) || same(e, "oga") || same(e, "opus") || same(e, "flac") || same(e, "wav") || same(e, "aac")
        || same(e, "mov") || same(e, "mkv")
}

/// Whether `host` is the domain `d` or lies under it.
pub open spec fn under(host: Seq<char>, d: Seq<char>) -> bool {
    host == d || ends_with(host, "."@ + d)
}

pub open spec fn ad_host(host: Seq<char>) -> bool {
    let h = lower(host);
    ||| under(h, "doubleclick.net"@)
    ||| under(h, "googlesyndication.com"@)
    ||| under(h, "googleadservices.com"@)
    ||| under(h, "adnxs.com"@)
    ||| under(h, "adsystem.com"@)
    ||| under(h, "moatads.com"@)
}

pub(crate) fn is_under(host: &str, d: &str) -> (r: bool)
    ensures
        r == under(host@, d@),
{
    same(host, d) || has_suffix(host, cat(".", d).as_str())
}

/// Whether the host serves advertisements.
pub fn is_ad_host(host: &str) -> (r: bool)
    ensures
        r == ad_host(host@),
{
    let lowered = to_lower(host);
    let h = lowered.as_str();
    is_under(h, "doubleclick.net") || is_under(h, "googlesyndication.com") || is_under(
        h,
        "googleadservices.com",
    ) || is_under(h, "adnxs.com") || is_under(h, "adsystem.com") || is_under(h, "moatads.com")
}

/// Whether a header says who asks and from where, whatever the case of its name.
pub open spec fn forwardable(name: Seq<char>) -> bool {
    let n = lower(name);
    ||| n == "referer"@
    ||| n == "origin"@
    ||| n == "user-agent"@
    ||| n == "cookie"@
    ||| n == "authorization"@
}

/// The forwardable headers, in their order.
pub open spec fn kept(all: Seq<(Seq<char>, Seq<char>)>) -> Seq<(Seq<char>, Seq<char>)>
    decreases all.len(),
{
    if all.len() == 0 {
        seq![]
    } else if forwardable(all.last().0) {
        kept(all.drop_last()).push(all.last())
    } else {
        kept(all.drop_last())
    }
}

fn is_forwardable(name: &str) -> (r: bool)
    ensures
        r == forwardable(name@),
{
    let lowered = to_lower(name);
    let n = lowered.as_str();
    same(n, "referer") || same(n, "origin") || same(n, "user-agent") || same(n, "cookie") || same(
        n,
        "authorization",
    )
}

/// The headers that are worth sending again. Those that belong to one single
/// request, such as its range or its encoding, are left out.
pub fn keep_headers(all: &[(String, String)]) -> (r: Vec<(String, String)>)
    ensures
        pairs(r@) == kept(pairs(all@)),
{
    let mut out: Vec<(String, String)> = Vec::new();
    let mut i: usize = 0;
    while i < all.len()
        invariant
            i <= all@.len(),
            pairs(out@) == kept(pairs(all@).take(i as int)),
        decreases all@.len() - i,
    {
        let ghost before = pairs(out@);
        proof {
            let t = pairs(all@).take(i + 1);
            assert(t.drop_last() =~= pairs(all@).take(i as int));
            assert(t.last() == (all@[i as int].0@, all@[i as int].1@));
        }
        if is_forwardable(all[i].0.as_str()) {
            out.push((all[i].0.clone(), all[i].1.clone()));
            proof {
                assert(pairs(out@) =~= before.push((all@[i as int].0@, all@[i as int].1@)));
            }
        }
        i += 1;
    }
    proof {
        assert(pairs(all@).take(i as int) =~= pairs(all@));
    }
    out
}

/// The larger of two sizes, an unknown one giving way.
pub open spec fn larger(a: Option<u64>, b: Option<u64>) -> Option<u64> {
    match (a, b) {
        (Some(x), Some(y)) => if x < y {
            Some(y)
        } else {
            Some(x)
        },
        (Some(x), None) => Some(x),
        (None, _) => b,
    }
}

/// What stays of a candidate when its URL is requested once more.
pub open spec fn merged(a: CandidateView, b: CandidateView) -> CandidateView {
    CandidateView {
        size: larger(a.size, b.size),
        headers: if a.headers.len() == 0 {
            b.headers
        } else {
            a.headers
        },
        ..a
    }
}

/// The position of the first candidate with the given URL, or the length
/// where there is none.
pub open spec fn place(list: Seq<CandidateView>, url: Seq<char>) -> int
    decreases list.len(),
{
    if list.len() == 0 {
        0
    } else if list[0].url == url {
        0
    } else {
        1 + place(list.skip(1), url)
    }
}

/// The list after one more candidate has been seen.
pub open spec fn seen(list: Seq<CandidateView>, c: CandidateView) -> Seq<CandidateView> {
    let i = place(list, c.url);
    if c.kind == Kind::Segment {
        list
    } else if i < list.len() {
        list.update(i, merged(list[i], c))
    } else {
        list.push(c)
    }
}

/// Whether a file is large enough, or of unknown size.
pub open spec fn eligible(c: CandidateView) -> bool {
    c.kind == Kind::File && (c.size matches Some(n) ==> n >= MIN_FILE_BYTES)
}

/// A file's size, zero where it is unknown.
pub open spec fn weight(c: CandidateView) -> u64 {
    match c.size {
        Some(n) => n,
        None => 0,
    }
}

/// Whether the candidate at `i` is the one to take: the first manifest or,
/// with no manifest there, the largest eligible file, the last of equals.
pub open spec fn is_best(list: Seq<CandidateView>, i: int) -> bool {
    &&& 0 <= i < list.len()
    &&& if list[i].kind == Kind::Manifest {
        forall|j: int| 0 <= j < i ==> (#[trigger] list[j]).kind != Kind::Manifest
    } else {
        &&& eligible(list[i])
        &&& forall|j: int| 0 <= j < list.len() ==> (#[trigger] list[j]).kind != Kind::Manifest
        &&& forall|j: int|
            0 <= j < list.len() && eligible(#[trigger] list[j]) ==> weight(list[j]) <= weight(list[i])
                && (j > i ==> weight(list[j]) < weight(list[i]))
    }
}

/// Whether nothing in the list is worth taking.
pub open spec fn nothing_good(list: Seq<CandidateView>) -> bool {
    forall|j: int|
        0 <= j < list.len() ==> (#[trigger] list[j]).kind != Kind::Manifest && !eligible(list[j])
}

pub open spec fn views(list: Seq<Candidate>) -> Seq<CandidateView> {
    list.map_values(|c: Candidate| c@)
}

/// The media requests of one page, each URL once.
#[derive(Debug)]
pub struct Candidates {
    list: Vec<Candidate>,
    segments: usize,
}

impl Default for Candidates {
    fn default() -> (r: Candidates)
        ensures
            r.wf(),
            r.entries() == Seq::<CandidateView>::empty(),
            !r.segmented(),
    {
        let r = Candidates { list: Vec::new(), segments: 0 };
        proof {
            assert(views(r.list@) =~= Seq::<CandidateView>::empty());
        }
        r
    }
}

impl Candidates {
    /// The candidates in the order in which they were first seen.
    pub closed spec fn entries(&self) -> Seq<CandidateView> {
        views(self.list@)
    }

    /// Whether a piece of a stream has been seen.
    pub closed spec fn segmented(&self) -> bool {
        self.segments > 0
    }

    /// No URL is listed twice, and no segment is listed.
    pub open spec fn wf(&self) -> bool {
        let l = self.entries();
        &&& forall|i: int, j: int| 0 <= i < j < l.len() ==> (#[trigger] l[i]).url != (#[trigger] l[j]).url
        &&& forall|i: int| 0 <= i < l.len() ==> (#[trigger] l[i]).kind != Kind::Segment
    }

    /// Takes note of a request. Requests for the same URL become one, with the
    /// largest size and the first headers that were known.
    pub fn push(&mut self, c: Candidate)
        requires
            old(self).wf(),
        ensures
            final(self).wf(),
            final(self).entries() == seen(old(self).entries(), c@),
            final(self).segmented() == (old(self).segmented() || c.kind == Kind::Segment),
    {
        if c.kind == Kind::Segment {
            if self.segments < usize::MAX {
                self.segments += 1;
            }
            return;
        }
        let ghost before = self.entries();
        let n: usize = self.list.len();
        let mut i: usize = 0;
        while i < n && !same(self.list[i].url.as_str(), c.url.as_str())
            invariant
                n == self.list@.len(),
                i <= n,
                self.entries() == before,
                *self == *old(self),
                forall|j: int| 0 <= j < i ==> (#[trigger] before[j]).url != c.url@,
            decreases n - i,
        {
            i += 1;
        }
        proof {
            lemma_place_is(before, c.url@, i as int);
        }
        if i < n {
            let size = match (self.list[i].size, c.size) {
                (Some(a), Some(b)) => if a < b {
                    Some(b)
                } else {
                    Some(a)
                },
                (Some(a), None) => Some(a),
                (None, b) => b,
            };
            self.list[i].size = size;
            if self.list[i].headers.len() == 0 {
                self.list[i].headers = c.headers;
            }
            proof {
                assert(self.entries()[i as int] =~= merged(before[i as int], c@));
                assert(self.entries() =~= seen(before, c@));
            }
        } else {
            self.list.push(c);
            proof {
                assert(self.entries() =~= seen(before, c@));
            }
        }
    }

    pub fn list(&self) -> (r: &[Candidate])
        ensures
            views(r@) == self.entries(),
    {
        self.list.as_slice()
    }

    pub fn saw_segments(&self) -> (r: bool)
        ensures
            r == self.segmented(),
    {
        self.segments > 0
    }

    /// The candidate to take, where there is one.
    pub fn best(&self) -> (r: Option<&Candidate>)
        requires
            self.wf(),
        ensures
            match r {
                Some(c) => exists|i: int| #[trigger] is_best(self.entries(), i) && c@ == self.entries()[i],
                None => nothing_good(self.entries()),
            },
    {
        match self.best_index() {
            Some(i) => {
                proof {
                    assert(is_best(self.entries(), i as int));
                }
                Some(&self.list[i])
            },
            None => None,
        }
    }

    /// The position of the candidate to take, where there is one.
    pub fn best_index(&self) -> (r: Option<usize>)
        requires
            self.wf(),
        ensures
            match r {
                Some(i) => is_best(self.entries(), i as int),
                None => nothing_good(self.entries()),
            },
    {
        let ghost l = self.entries();
        let n: usize = self.list.len();
        let mut i: usize = 0;
        while i < n
            invariant
                n == self.list@.len(),
                l == self.entries(),
                i <= n,
                forall|j: int| 0 <= j < i ==> (#[trigger] l[j]).kind != Kind::Manifest,
            decreases n - i,
        {
            if self.list[i].kind == Kind::Manifest {
                return Some(i);
            }
            i += 1;
        }
        let mut best: Option<usize> = None;
        let mut top: u64 = 0;
        let mut k: usize = 0;
        while k < n
            invariant
                n == self.list@.len(),
                l == self.entries(),
                k <= n,
                forall|j: int| 0 <= j < n ==> (#[trigger] l[j]).kind != Kind::Manifest,
                match best {
                    Some(b) => {
                        &&& b < k
                        &&& eligible(l[b as int])
                        &&& top == weight(l[b as int])
                        &&& forall|j: int|
                            0 <= j < k && eligible(#[trigger] l[j]) ==> weight(l[j]) <= top && (j > b
                                ==> weight(l[j]) < top)
                    },
                    None => forall|j: int| 0 <= j < k ==> !eligible(#[trigger] l[j]),
                },
            decreases n - k,
        {
            let c = &self.list[k];
            proof {
                assert(l[k as int] == c@);
            }
            let w: u64 = match c.size {
                Some(s) => s,
                None => 0,
            };
            let enough = match c.size {
                Some(s) => s >= MIN_FILE_BYTES,
                None => true,
            };
            if c.kind == Kind::File && enough && (best.is_none() || w >= top) {
                best = Some(k);
                top = w;
            }
            k += 1;
        }
        best
    }
}

proof fn lemma_place_is(list: Seq<CandidateView>, url: Seq<char>, i: int)
    requires
        0 <= i <= list.len(),
        i < list.len() ==> list[i].url == url,
        forall|j: int| 0 <= j < i ==> (#[trigger] list[j]).url != url,
    ensures
        place(list, url) == i,
    decreases list.len(),
{
    if list.len() > 0 && i > 0 {
        let t = list.skip(1);
        assert(list[0].url != url);
        assert forall|j: int| 0 <= j < i - 1 implies (#[trigger] t[j]).url != url by {
            assert(t[j] == list[j + 1]);
        }
        lemma_place_is(t, url, i - 1);
    }
}

/// When enough of the page's traffic has been seen. A manifest settles what
/// the media is, so only a moment more is given after it; a file has to be
/// followed by a quiet spell, since players probe before they fetch. The whole
/// has a limit.
#[derive(Debug)]
pub struct StopRule {
    start: Instant,
    deadline: Instant,
    manifest_seen: bool,
}

impl StopRule {
    /// The limit of the whole watch, in seconds.
    pub const OVERALL: u64 = 60;

    /// The seconds that are given after a manifest.
    pub const AFTER_MANIFEST: u64 = 3;

    /// The seconds of quiet that have to follow a file.
    pub const QUIET_AFTER_FILE: u64 = 5;

    /// The limit of the whole watch.
    pub open spec fn overall() -> Duration {
        Duration::secs(StopRule::OVERALL as int)
    }

    pub closed spec fn begun(&self) -> Instant {
        self.start
    }

    pub closed spec fn until(&self) -> Instant {
        self.deadline
    }

    pub closed spec fn settled(&self) -> bool {
        self.manifest_seen
    }

    /// The watch never lasts longer than its limit.
    pub open spec fn wf(&self) -> bool {
        &&& self.begun().reaches(StopRule::overall())
        &&& self.until().nanos <= self.begun().plus(StopRule::overall()).nanos
    }

    pub fn new(now: Instant) -> (r: StopRule)
        requires
            now.reaches(StopRule::overall()),
        ensures
            r.wf(),
            r.begun() == now,
            r.until() == now.plus(StopRule::overall()),
            r.until().nanos == now.nanos + 60_000_000_000,
            !r.settled(),
    {
        StopRule { start: now, deadline: now + Duration::from_secs(StopRule::OVERALL), manifest_seen: false }
    }

    /// Takes note that media of the given kind was seen at `now`.
    pub fn saw(&mut self, kind: Kind, now: Instant)
        requires
            old(self).wf(),
            now.reaches(Duration::secs(StopRule::QUIET_AFTER_FILE as int)),
        ensures
            final(self).wf(),
            final(self).begun() == old(self).begun(),
            final(self).settled() == (old(self).settled() || kind == Kind::Manifest),
            final(self).until() == (if old(self).settled() || kind == Kind::Segment {
                old(self).until()
            } else if kind == Kind::Manifest {
                now.plus(Duration::secs(StopRule::AFTER_MANIFEST as int)).earlier(old(self).begun().plus(StopRule::overall()))
            } else {
                now.plus(Duration::secs(StopRule::QUIET_AFTER_FILE as int)).earlier(
                    old(self).begun().plus(StopRule::overall()),
                )
            }),
            final(self).until().nanos <= old(self).begun().nanos + 60_000_000_000,
            !old(self).settled() && kind == Kind::Manifest ==> final(self).until().nanos <= now.nanos
                + 3_000_000_000,
            !old(self).settled() && kind == Kind::File && now.nanos + 5_000_000_000 <= old(
                self,
            ).begun().nanos + 60_000_000_000 ==> final(self).until().nanos == now.nanos
                + 5_000_000_000,
            old(self).settled() ==> final(self).until() == old(self).until(),
    {
        let cap = self.start + Duration::from_secs(StopRule::OVERALL);
        if self.manifest_seen {
            return;
        }
        match kind {
            Kind::Manifest => {
                self.manifest_seen = true;
                self.deadline = (now + Duration::from_secs(StopRule::AFTER_MANIFEST)).min(cap);
            },
            Kind::File => {
                self.deadline = (now + Duration::from_secs(StopRule::QUIET_AFTER_FILE)).min(cap);
            },
            Kind::Segment => {},
        }
    }

    pub fn deadline(&self) -> (r: Instant)
        ensures
            r == self.until(),
    {
        self.deadline
    }
}

/// There is one candidate to take at most.
pub proof fn law_one_best(list: Seq<CandidateView>, i: int, j: int)
    requires
        is_best(list, i),
        is_best(list, j),
    ensures
        i == j,
{
    assert(list[i] == list[i] && list[j] == list[j]);
}

/// Where there is a manifest, a manifest is taken.
pub proof fn law_manifest_wins(list: Seq<CandidateView>, i: int, m: int)
    requires
        is_best(list, i),
        0 <= m < list.len(),
        list[m].kind == Kind::Manifest,
    ensures
        list[i].kind == Kind::Manifest,
{
}

/// A segment is never taken, nor a file that is known to be small.
pub proof fn law_small_files_and_segments_lose(list: Seq<CandidateView>, i: int)
    requires
        is_best(list, i),
    ensures
        list[i].kind != Kind::Segment,
        list[i].kind == Kind::File ==> (list[i].size matches Some(n) ==> n >= MIN_FILE_BYTES),
{
}

proof fn lemma_place(list: Seq<CandidateView>, url: Seq<char>)
    ensures
        0 <= place(list, url) <= list.len(),
        place(list, url) < list.len() ==> list[place(list, url)].url == url,
    decreases list.len(),
{
    if list.len() > 0 && list[0].url != url {
        lemma_place(list.skip(1), url);
    }
}

/// A URL that is requested once more adds no candidate, and what is known of
/// sizes only grows.
pub proof fn law_requests_merge(list: Seq<CandidateView>, c: CandidateView, i: int)
    requires
        0 <= i < list.len(),
    ensures
        seen(list, c)[i].url == list[i].url,
        seen(list, c)[i].kind == list[i].kind,
        weight(seen(list, c)[i]) >= weight(list[i]),
        list[i].url == c.url ==> seen(list, c).len() == list.len(),
{
    lemma_place(list, c.url);
    if list[i].url == c.url {
        lemma_place_first(list, c.url, i);
    }
}

proof fn lemma_place_first(list: Seq<CandidateView>, url: Seq<char>, i: int)
    requires
        0 <= i < list.len(),
        list[i].url == url,
    ensures
        place(list, url) <= i,
    decreases list.len(),
{
    if list[0].url != url {
        assert(list.skip(1)[i - 1] == list[i]);
        lemma_place_first(list.skip(1), url, i - 1);
    }
}

/// A content type that is a manifest's decides, whatever the URL looks like.
pub proof fn law_mime_comes_first(url: Seq<char>, mime: Seq<char>, resource_type: Seq<char>)
    requires
        manifest_mime(bare_mime(mime)),
    ensures
        kind_of(url, mime, resource_type) == Some(Kind::Manifest),
{
}

/// A response whose content type is that of a video or of sound is always media,
/// whatever its address and whatever the browser takes it for; and it is a file
/// where neither its type nor its extension is a manifest's or a segment's.
pub proof fn law_media_types_are_media(url: Seq<char>, mime: Seq<char>, resource_type: Seq<char>)
    requires
        starts_with(bare_mime(mime), "video/"@) || starts_with(bare_mime(mime), "audio/"@),
    ensures
        kind_of(url, mime, resource_type) is Some,
        ({
            let m = bare_mime(mime);
            let e = url_ext(url);
            &&& m != "audio/mpegurl"@
            &&& m != "audio/x-mpegurl"@
            &&& m != "video/mp2t"@
            &&& m != "video/iso.segment"@
            &&& e != "m3u8"@
            &&& e != "mpd"@
            &&& e != "ts"@
            &&& e != "m4s"@
        }) ==> kind_of(url, mime, resource_type) == Some(Kind::File),
{
    let m = bare_mime(mime);
    reveal_strlit("video/");
    reveal_strlit("audio/");
    reveal_strlit("application/vnd.apple.mpegurl");
    reveal_strlit("application/x-mpegurl");
    reveal_strlit("application/dash+xml");
    assert(m.take(6)[1] == m[1]);
    assert("video/"@[1] == 'i' && "audio/"@[1] == 'u');
    assert("application/vnd.apple.mpegurl"@[1] == 'p' && "application/x-mpegurl"@[1] == 'p'
        && "application/dash+xml"@[1] == 'p');
}

/// The types and the extensions of manifests and of segments tell them, and a
/// manifest is never a segment.
pub proof fn law_streams_are_told(url: Seq<char>, mime: Seq<char>, resource_type: Seq<char>)
    ensures
        ({
            let m = bare_mime(mime);
            let e = url_ext(url);
            let k = kind_of(url, mime, resource_type);
            &&& k == Some(Kind::Manifest) <==> {
                ||| m == "application/vnd.apple.mpegurl"@
                ||| m == "application/x-mpegurl"@
                ||| m == "audio/mpegurl"@
                ||| m == "audio/x-mpegurl"@
                ||| m == "application/dash+xml"@
                ||| e == "m3u8"@
                ||| e == "mpd"@
            }
            &&& m == "video/mp2t"@ || m == "video/iso.segment"@ || e == "ts"@ || e == "m4s"@ ==> k
                == Some(Kind::Segment) || k == Some(Kind::Manifest)
            &&& k == Some(Kind::Segment) ==> {
                ||| m == "video/mp2t"@
                ||| m == "video/iso.segment"@
                ||| e == "ts"@
                ||| e == "m4s"@
            }
        }),
{
}

/// A file is told by its extension too, and what the browser itself plays is media
/// whatever else is known of it. Nothing else is.
pub proof fn law_files_are_told(url: Seq<char>, mime: Seq<char>, resource_type: Seq<char>)
    ensures
        ({
            let e = url_ext(url);
            let k = kind_of(url, mime, resource_type);
            &&& {
                ||| e == "mp4"@
                ||| e == "m4a"@
                ||| e == "m4v"@
                ||| e == "mp3"@
                ||| e == "webm"@
                ||| e == "ogg"@
                ||| e == "oga"@
                ||| e == "opus"@
                ||| e == "flac"@
                ||| e == "wav"@
                ||| e == "aac"@
                ||| e == "mov"@
                ||| e == "mkv"@
            } ==> k is Some
            &&& resource_type == "Media"@ ==> k is Some
            &&& k == Some(Kind::File) ==> {
                ||| starts_with(bare_mime(mime), "video/"@)
                ||| starts_with(bare_mime(mime), "audio/"@)
                ||| resource_type == "Media"@
                ||| e.len() == 3
                ||| e.len() == 4
            }
        }),
{
    reveal_strlit("mp4");
    reveal_strlit("m4a");
    reveal_strlit("m4v");
    reveal_strlit("mp3");
    reveal_strlit("webm");
    reveal_strlit("ogg");
    reveal_strlit("oga");
    reveal_strlit("opus");
    reveal_strlit("flac");
    reveal_strlit("wav");
    reveal_strlit("aac");
    reveal_strlit("mov");
    reveal_strlit("mkv");
}

/// The parameters of a content type and the case of its letters do not count.
pub proof fn law_parameters_do_not_count(mime: Seq<char>, params: Seq<char>)
    requires
        !mime.contains(';'),
    ensures
        bare_mime(mime + ";"@ + params) == bare_mime(mime),
        (forall|i: int| 0 <= i < mime.len() ==> !white(#[trigger] mime[i])) ==> bare_mime(mime) == lower(
            mime,
        ) && bare_mime(lower(mime)) == bare_mime(mime),
{
    let k = Class::Is(';');
    reveal_strlit(";");
    let s = mime + ";"@ + params;
    assert forall|j: int| 0 <= j < mime.len() implies k.has(#[trigger] s[j]) != true && k.has(mime[j])
        != true by {
        assert(mime.contains(mime[j]));
    }
    lemma_first_is(s, k, true, mime.len() as int);
    assert forall|j: int| 0 <= j < mime.len() implies k.has(#[trigger] mime[j]) != true by {
        assert(mime.contains(mime[j]));
    }
    lemma_first_is(mime, k, true, mime.len() as int);
    assert(s.take(mime.len() as int) =~= mime);
    assert(mime.take(mime.len() as int) =~= mime);
    if forall|i: int| 0 <= i < mime.len() ==> !white(#[trigger] mime[i]) {
        lemma_trimmed_same(mime);
        let l = lower(mime);
        assert forall|i: int| 0 <= i < l.len() implies !white(#[trigger] l[i]) && k.has(l[i]) != true by {
            assert(!white(mime[i]));
            assert(k.has(mime[i]) != true);
        }
        lemma_first_is(l, k, true, l.len() as int);
        assert(l.take(l.len() as int) =~= l);
        lemma_trimmed_same(l);
        assert(lower(l) =~= l);
    }
}

/// The extension is read behind the last dot, whatever the query and the fragment
/// say, and in lower case.
pub proof fn law_extension_is_read(front: Seq<char>, ext: Seq<char>, rest: Seq<char>)
    requires
        !front.contains('?') && !front.contains('#'),
        forall|i: int|
            0 <= i < ext.len() ==> (#[trigger] ext[i]) != '?' && ext[i] != '#' && ext[i] != '/'
                && ext[i] != '.',
        rest.len() > 0 ==> rest[0] == '?' || rest[0] == '#',
    ensures
        url_ext(front + "."@ + ext + rest) == lower(ext),
{
    reveal_strlit(".");
    let u = front + "."@ + ext;
    let s = u + rest;
    let k = Class::Either('?', '#');
    let n = u.len() as int;
    assert forall|j: int| 0 <= j < n implies k.has(#[trigger] s[j]) != true by {
        if j < front.len() {
            assert(front.contains(front[j]));
        } else if j > front.len() {
            assert(s[j] == ext[j - front.len() - 1]);
        }
    }
    lemma_first_is(s, k, true, n);
    assert(s.take(n) =~= u);
    let slash = Class::Is('/');
    lemma_after_last(u, slash, true);
    let a = after_last(u, slash, true);
    if a > front.len() {
        assert(u[a - 1] == '/');
        assert(a - 1 == front.len() || u[a - 1] == ext[a - 1 - front.len() - 1]);
    }
    let name = u.skip(a);
    let dot = Class::Is('.');
    let d = front.len() - a + 1;
    assert(name[d - 1] == '.');
    assert forall|j: int| d <= j < name.len() implies dot.has(#[trigger] name[j]) != true by {
        assert(name[j] == ext[j - d]);
    }
    lemma_after_last_is(name, dot, true, d);
    assert(name.skip(d) =~= ext);
    assert(front + "."@ + ext + rest =~= s);
}

/// Whoever serves advertisements under one of the known domains does so under
/// every name below it, in whatever case; a name that only ends alike does not.
pub proof fn law_advertisers_are_known(sub: Seq<char>, host: Seq<char>)
    ensures
        lower(host) == "doubleclick.net"@ ==> ad_host(host),
        lower(host) == sub + ".doubleclick.net"@ ==> ad_host(host),
        lower(host) == sub + ".googlesyndication.com"@ ==> ad_host(host),
        lower(host) == sub + ".googleadservices.com"@ ==> ad_host(host),
        lower(host) == sub + ".adnxs.com"@ ==> ad_host(host),
        lower(host) == sub + ".adsystem.com"@ ==> ad_host(host),
        lower(host) == sub + ".moatads.com"@ ==> ad_host(host),
        ad_host(host) ==> ends_with(lower(host), ".net"@) || ends_with(lower(host), ".com"@),
{
    reveal_strlit(".");
    reveal_strlit(".net");
    reveal_strlit(".com");
    reveal_strlit("doubleclick.net");
    reveal_strlit("googlesyndication.com");
    reveal_strlit("googleadservices.com");
    reveal_strlit("adnxs.com");
    reveal_strlit("adsystem.com");
    reveal_strlit("moatads.com");
    reveal_strlit(".doubleclick.net");
    reveal_strlit(".googlesyndication.com");
    reveal_strlit(".googleadservices.com");
    reveal_strlit(".adnxs.com");
    reveal_strlit(".adsystem.com");
    reveal_strlit(".moatads.com");
    assert(".doubleclick.net"@ =~= "."@ + "doubleclick.net"@);
    assert(".googlesyndication.com"@ =~= "."@ + "googlesyndication.com"@);
    assert(".googleadservices.com"@ =~= "."@ + "googleadservices.com"@);
    assert(".adnxs.com"@ =~= "."@ + "adnxs.com"@);
    assert(".adsystem.com"@ =~= "."@ + "adsystem.com"@);
    assert(".moatads.com"@ =~= "."@ + "moatads.com"@);
    lemma_under(sub, lower(host), "doubleclick.net"@);
    lemma_under(sub, lower(host), "googlesyndication.com"@);
    lemma_under(sub, lower(host), "googleadservices.com"@);
    lemma_under(sub, lower(host), "adnxs.com"@);
    lemma_under(sub, lower(host), "adsystem.com"@);
    lemma_under(sub, lower(host), "moatads.com"@);
    let h = lower(host);
    lemma_ends_under(h, "doubleclick.net"@, ".net"@);
    lemma_ends_under(h, "googlesyndication.com"@, ".com"@);
    lemma_ends_under(h, "googleadservices.com"@, ".com"@);
    lemma_ends_under(h, "adnxs.com"@, ".com"@);
    lemma_ends_under(h, "adsystem.com"@, ".com"@);
    lemma_ends_under(h, "moatads.com"@, ".com"@);
}

proof fn lemma_under(sub: Seq<char>, h: Seq<char>, d: Seq<char>)
    ensures
        h == sub + ("."@ + d) ==> under(h, d),
{
    if h == sub + ("."@ + d) {
        assert(h.skip(h.len() - ("."@ + d).len()) =~= "."@ + d);
    }
}

proof fn lemma_ends_under(h: Seq<char>, d: Seq<char>, e: Seq<char>)
    requires
        e.len() == 4,
        d.len() > 4,
        d.skip(d.len() - 4) =~= e,
    ensures
        under(h, d) ==> ends_with(h, e),
{
    reveal_strlit(".");
    if under(h, d) && h != d {
        let t = "."@ + d;
        let x = h.skip(h.len() - t.len());
        assert(h.skip(h.len() - 4) =~= x.skip(x.len() - 4));
        assert(t.skip(t.len() - 4) =~= d.skip(d.len() - 4));
    }
}

/// Of the headers of a request, those that say who asks and from where are kept,
/// all of them and no other.
pub proof fn law_identity_is_kept(all: Seq<(Seq<char>, Seq<char>)>, h: (Seq<char>, Seq<char>))
    ensures
        kept(all).contains(h) <==> all.contains(h) && {
            let n = lower(h.0);
            ||| n == "referer"@
            ||| n == "origin"@
            ||| n == "user-agent"@
            ||| n == "cookie"@
            ||| n == "authorization"@
        },
        kept(all).len() <= all.len(),
    decreases all.len(),
{
    if all.len() > 0 {
        let front = all.drop_last();
        law_identity_is_kept(front, h);
        let k = kept(front);
        if all.contains(h) {
            let i = all.index_of(h);
            if i < front.len() {
                assert(front[i] == h);
            }
        }
        if front.contains(h) {
            let i = front.index_of(h);
            assert(all[i] == h);
        }
        assert(all[all.len() - 1] == all.last());
        if forwardable(all.last().0) {
            assert(kept(all) =~= k.push(all.last()));
            assert(kept(all)[k.len() as int] == all.last());
            if k.contains(h) {
                let i = k.index_of(h);
                assert(kept(all)[i] == h);
            }
            if kept(all).contains(h) {
                let i = kept(all).index_of(h);
                if i < k.len() {
                    assert(k[i] == h);
                }
            }
        }
    } else {
        assert(!kept(all).contains(h));
    }
}

/// What is new is listed as it is, behind the others; pieces of a stream are not.
pub proof fn law_new_media_is_listed(list: Seq<CandidateView>, c: CandidateView)
    requires
        forall|i: int| 0 <= i < list.len() ==> (#[trigger] list[i]).url != c.url,
    ensures
        c.kind != Kind::Segment ==> seen(list, c) == list.push(c),
        c.kind == Kind::Segment ==> seen(list, c) == list,
{
    lemma_place(list, c.url);
    if place(list, c.url) < list.len() {
        assert(list[place(list, c.url)].url == c.url);
    }
}

/// What is taken is the largest: no listed file of at least ten kilobytes is larger
/// than the file that is taken, and a file of known size below that never is.
pub proof fn law_largest_file_is_taken(list: Seq<CandidateView>, i: int, j: int)
    requires
        is_best(list, i),
        0 <= j < list.len(),
        list[i].kind == Kind::File,
        list[j].kind == Kind::File,
    ensures
        list[i].size matches Some(n) ==> n >= 10_240,
        list[j].size matches Some(m) ==> m >= 10_240 ==> (list[i].size matches Some(n) && n >= m),
{
    assert(list[j] == list[j]);
}

/// The first of several manifests is taken.
pub proof fn law_first_manifest_is_taken(list: Seq<CandidateView>, i: int, m: int)
    requires
        is_best(list, i),
        0 <= m < list.len(),
        list[m].kind == Kind::Manifest,
    ensures
        i <= m,
{
    law_manifest_wins(list, i, m);
    if m < i {
        assert(list[m].kind != Kind::Manifest);
    }
}

/// Once a URL is known, what a further request tells is added to it: the larger
/// size, and the headers where there were none.
pub proof fn law_merge_adds(a: CandidateView, b: CandidateView)
    ensures
        merged(a, b).url == a.url,
        merged(a, b).kind == a.kind,
        a.headers.len() > 0 ==> merged(a, b).headers == a.headers,
        a.headers.len() == 0 ==> merged(a, b).headers == b.headers,
        a.size is None ==> merged(a, b).size == b.size,
        b.size is None ==> merged(a, b).size == a.size,
        a.size matches Some(x) ==> (b.size matches Some(y) ==> (merged(a, b).size matches Some(z) && z
            >= x && z >= y && (z == x || z == y))),
{
}

/// The hosts of advertisers, with every host below them; a host that only ends alike
/// is none of theirs.
pub proof fn law_hosts_of_advertisers(host: Seq<char>)
    ensures
        under(lower(host), "doubleclick.net"@) ==> ad_host(host),
        under(lower(host), "googlesyndication.com"@) ==> ad_host(host),
        under(lower(host), "googleadservices.com"@) ==> ad_host(host),
        under(lower(host), "adnxs.com"@) ==> ad_host(host),
        under(lower(host), "adsystem.com"@) ==> ad_host(host),
        under(lower(host), "moatads.com"@) ==> ad_host(host),
        ad_host(host) ==> under(lower(host), "doubleclick.net"@) || under(
            lower(host),
            "googlesyndication.com"@,
        ) || under(lower(host), "googleadservices.com"@) || under(lower(host), "adnxs.com"@) || under(
            lower(host),
            "adsystem.com"@,
        ) || under(lower(host), "moatads.com"@),
{
}

/// What a candidate is taken to say is what it holds.
pub proof fn law_said_of_candidate(x: Candidate)
    ensures
        x@.url == x.url@,
        x@.kind == x.kind,
        x@.size == x.size,
        x@.mime == x.mime@,
        x@.headers == pairs(x.headers@),
{
}

/// What a list of candidates says is what they say, and nothing in it is worth taking
/// exactly where it holds neither a manifest nor a file worth taking.
pub proof fn law_said_of_candidates(v: Seq<Candidate>, l: Seq<CandidateView>, i: int)
    ensures
        views(v).len() == v.len(),
        0 <= i < v.len() ==> views(v)[i] == v[i]@,
        0 <= i < l.len() && l[i].kind == Kind::Manifest ==> !nothing_good(l),
        0 <= i < l.len() && eligible(l[i]) ==> !nothing_good(l),
        nothing_good(seq![]),
{
}

/// Nothing is a file but what is sound or video by its type, has the extension of a
/// media file, or is played by the browser itself.
pub proof fn law_nothing_else_is_a_file(url: Seq<char>, mime: Seq<char>, resource_type: Seq<char>)
    requires
        kind_of(url, mime, resource_type) == Some(Kind::File),
    ensures
        ({
            ||| starts_with(bare_mime(mime), "video/"@)
            ||| starts_with(bare_mime(mime), "audio/"@)
            ||| resource_type == "Media"@
            ||| url_ext(url) == "mp4"@
            ||| url_ext(url) == "m4a"@
            ||| url_ext(url) == "m4v"@
            ||| url_ext(url) == "mp3"@
            ||| url_ext(url) == "webm"@
            ||| url_ext(url) == "ogg"@
            ||| url_ext(url) == "oga"@
            ||| url_ext(url) == "opus"@
            ||| url_ext(url) == "flac"@
            ||| url_ext(url) == "wav"@
            ||| url_ext(url) == "aac"@
            ||| url_ext(url) == "mov"@
            ||| url_ext(url) == "mkv"@
        }),
{
}

/// The headers that say who asks, and no others, are sent on, in their order.
pub proof fn law_only_identity_is_sent_on(all: Seq<(Seq<char>, Seq<char>)>, h: (Seq<char>, Seq<char>))
    ensures
        ({
            ||| lower(h.0) == "referer"@
            ||| lower(h.0) == "origin"@
            ||| lower(h.0) == "user-agent"@
            ||| lower(h.0) == "cookie"@
            ||| lower(h.0) == "authorization"@
        }) ==> kept(all.push(h)) == kept(all).push(h),
        !({
            ||| lower(h.0) == "referer"@
            ||| lower(h.0) == "origin"@
            ||| lower(h.0) == "user-agent"@
            ||| lower(h.0) == "cookie"@
            ||| lower(h.0) == "authorization"@
        }) ==> kept(all.push(h)) == kept(all),
{
    assert(all.push(h).drop_last() =~= all);
}

/// Nothing comes of nothing.
pub proof fn law_no_headers_give_none()
    ensures
        kept(seq![]).len() == 0,
{
}

} // verus!
