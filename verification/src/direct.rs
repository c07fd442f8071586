//! Links that name a file themselves, or a page whose rule is known here:
//! what to fetch, how fast, and whether what came is what was asked for.

use vstd::prelude::*;
use vstd::utf8::encode_utf8;
use crate::browser::traffic::{append_headers, is_named, names};
use crate::clock::{Duration, Instant};
use crate::codec::{lossy, utf8_lossy};
use crate::engine::names::{ext_of, plausible, url_ext};
use crate::number::{decimal, parse, parsed, to_decimal};
use crate::pattern::{first_id, first_match, regex_first, UUID_PATTERN};
use crate::text::{
    after, before, behind, cat, cat3, contains, cut_end, cut_ends, ends_with, find_text, first_line,
    first_words, followed, has_suffix, has_text, index_of, lemma_cat_without, lines, lower, pairs,
    push_text, replace, replaced, same, second, second_part, starts_with, stem, stem_text, str_of,
    tail, text_of, texts, to_lower, trim, trim_class, trim_class_end, trimmed, up_to, white, Class,
};
use crate::verify::{ext_level, level_for, Level};

verus! {

/// The name under which requests are made.
pub const UA: &'static str = "Mozilla/5.0 (Macintosh; Intel Mac OS X 10_15_7) AppleWebKit/537.36 (KHTML, like Gecko) Chrome/131.0.0.0 Safari/537.36";

/// The headers of a request: what it was given, under the usual name unless it
/// was given another.
pub open spec fn headers_sent(given: Seq<(Seq<char>, Seq<char>)>) -> Seq<(Seq<char>, Seq<char>)> {
    if names(given, "user-agent"@) {
        given
    } else {
        seq![("user-agent"@, UA@)] + given
    }
}

pub fn request_headers(given: &Vec<(String, String)>) -> (r: Vec<(String, String)>)
    ensures
        pairs(r@) == headers_sent(pairs(given@)),
{
    let mut out: Vec<(String, String)> = Vec::new();
    if !is_named(given, "user-agent") {
        out.push(("user-agent".to_owned(), UA.to_owned()));
        proof {
            assert(pairs(out@) =~= seq![("user-agent"@, UA@)]);
        }
    } else {
        proof {
            assert(pairs(out@) =~= seq![]);
        }
    }
    append_headers(&mut out, given);
    proof {
        assert(pairs(out@) =~= headers_sent(pairs(given@)));
    }
    out
}

/// The milliseconds between two requests to one host. A gallery is hundreds of
/// requests to the same host, and without this most of them are turned away.
pub const MIN_HOST_INTERVAL: u64 = 300;

/// How often a request is made that the host puts off.
pub const MAX_ATTEMPTS: u32 = 4;

/// A download smaller than this is no complete media file.
pub const MIN_BYTES: u64 = 10_240;

/// A file to fetch.
#[derive(Debug, Clone)]
pub struct Found {
    pub media: String,
    pub title: String,
    /// What the server says it is, more reliable than the extension.
    pub content_type: Option<String>,
}

/// What a found file says.
#[verifier::ext_equal]
pub struct FoundView {
    pub media: Seq<char>,
    pub title: Seq<char>,
    pub content_type: Option<Seq<char>>,
}

impl View for Found {
    type V = FoundView;

    open spec fn view(&self) -> FoundView {
        FoundView {
            media: self.media@,
            title: self.title@,
            content_type: text_of(self.content_type),
        }
    }
}

pub open spec fn found(r: Result<Found, String>) -> Result<FoundView, Seq<char>> {
    match r {
        Ok(f) => Ok(f@),
        Err(e) => Err(e@),
    }
}

/// The title of a page for sharing, with the name in front of the content.
pub const OG_TITLE_PATTERN: &'static str = r#"(?is)<meta[^>]+(?:property|name)=["']og:title["'][^>]*content=["']([^"']*)["']"#;

/// The same with the content in front of the name.
pub const OG_TITLE_BACK_PATTERN: &'static str = r#"(?is)<meta[^>]+content=["']([^"']*)["'][^>]*(?:property|name)=["']og:title["']"#;

/// A character by its number.
pub const NUMERIC_PATTERN: &'static str = r"&#(\d{1,7});";

/// `char::from_u32` gives the character of that number, where there is one:
/// the numbers up to 0x10FFFF but for the surrogates.
pub assume_specification[ char::from_u32 ](i: u32) -> (r: Option<char>)
    ensures
        r == scalar(i as nat),
;

/// The character of that number, where there is one.
pub open spec fn scalar(n: nat) -> Option<char> {
    if n < 0xd800 || 0xe000 <= n <= 0x10ffff {
        Some(n as char)
    } else {
        None
    }
}

/// The character that a number in decimal stands for, nothing where there is
/// none.
pub open spec fn numbered(digits: Seq<char>) -> Seq<char> {
    match parsed(digits, u32::MAX as nat) {
        Some(n) => match scalar(n) {
            Some(c) => seq![c],
            None => seq![],
        },
        None => seq![],
    }
}

/// The group at `i`, empty where there is none.
pub open spec fn group(groups: Seq<Seq<char>>, i: int) -> Seq<char> {
    if 0 <= i < groups.len() {
        groups[i]
    } else {
        seq![]
    }
}

pub(crate) fn group_text(groups: &Vec<String>, i: usize) -> (r: String)
    ensures
        r@ == group(texts(groups@), i as int),
{
    if i < groups.len() {
        proof {
            assert(texts(groups@)[i as int] == groups@[i as int]@);
        }
        groups[i].as_str().to_owned()
    } else {
        String::new()
    }
}

/// A text with the characters that are given by number put in.
pub open spec fn with_numbers(s: Seq<char>) -> Seq<char>
    decreases s.len(),
{
    match regex_first(NUMERIC_PATTERN@, s) {
        Some(m) => if m.after.len() < s.len() {
            m.before + numbered(group(m.groups, 1)) + with_numbers(m.after)
        } else {
            s
        },
        None => s,
    }
}

/// A text with the characters that HTML gives by a common name put in.
pub open spec fn with_names(s: Seq<char>) -> Seq<char> {
    let a = replaced(s, "&amp;"@, "&"@);
    let b = replaced(a, "&lt;"@, "<"@);
    let c = replaced(b, "&gt;"@, ">"@);
    let d = replaced(c, "&quot;"@, "\""@);
    let e = replaced(d, "&#39;"@, "'"@);
    let f = replaced(e, "&apos;"@, "'"@);
    replaced(f, "&nbsp;"@, " "@)
}

/// A text with HTML's character references put in.
pub open spec fn decoded(s: Seq<char>) -> Seq<char> {
    let t = with_names(s);
    if contains(t, "&#"@) {
        with_numbers(t)
    } else {
        t
    }
}

fn put_names(s: &str) -> (r: String)
    ensures
        r@ == with_names(s@),
{
    proof {
        reveal_strlit("&amp;");
        reveal_strlit("&lt;");
        reveal_strlit("&gt;");
        reveal_strlit("&quot;");
        reveal_strlit("&#39;");
        reveal_strlit("&apos;");
        reveal_strlit("&nbsp;");
    }
    let a = replace(s, "&amp;", "&");
    let b = replace(a.as_str(), "&lt;", "<");
    let c = replace(b.as_str(), "&gt;", ">");
    let d = replace(c.as_str(), "&quot;", "\"");
    let e = replace(d.as_str(), "&#39;", "'");
    let f = replace(e.as_str(), "&apos;", "'");
    replace(f.as_str(), "&nbsp;", " ")
}

/// The character that a number in decimal stands for, as a text.
pub fn numeric_entity(digits: &str) -> (r: String)
    ensures
        r@ == numbered(digits@),
{
    let mut out = String::new();
    if let Some(n) = parse(digits, u32::MAX as u64) {
        if let Some(c) = char::from_u32(n as u32) {
            out.push(c);
        }
    }
    out
}

fn put_numbers(s: &str) -> (r: String)
    ensures
        r@ == with_numbers(s@),
    decreases s@.len(),
{
    match first_match(NUMERIC_PATTERN, s) {
        Some(m) => if m.after.as_str().unicode_len() < s.unicode_len() {
            let c = numeric_entity(group_text(&m.groups, 1).as_str());
            let rest = put_numbers(m.after.as_str());
            cat3(m.before.as_str(), c.as_str(), rest.as_str())
        } else {
            s.to_owned()
        },
        None => s.to_owned(),
    }
}

/// Puts HTML's character references into a text: the common names, then those
/// by number.
pub fn decode_entities(s: &str) -> (r: String)
    ensures
        r@ == decoded(s@),
{
    let t = put_names(s);
    if has_text(t.as_str(), "&#") {
        put_numbers(t.as_str())
    } else {
        t
    }
}

/// A URL without its query.
pub open spec fn no_query(url: Seq<char>) -> Seq<char> {
    up_to(url, Class::Is('?'))
}

pub open spec fn media_ext(e: Seq<char>) -> bool {
    ||| e == "mp4"@
    ||| e == "m4a"@
    ||| e == "mp3"@
    ||| e == "webm"@
    ||| e == "mkv"@
    ||| e == "mov"@
    ||| e == "wav"@
    ||| e == "flac"@
    ||| e == "opus"@
    ||| e == "ogg"@
}

/// Whether a URL, its query aside, ends in the extension of a media file.
pub open spec fn media_url(url: Seq<char>) -> bool {
    media_ext(lower(behind(no_query(url), Class::Is('.'))))
}

pub fn looks_like_media_url(url: &str) -> (r: bool)
    ensures
        r == media_url(url@),
{
    let ext = to_lower(after(before(url, Class::Is('?')), Class::Is('.')));
    let e = ext.as_str();
    same(e, "mp4") || same(e, "m4a") || same(e, "mp3") || same(e, "webm") || same(e, "mkv") || same(
        e,
        "mov",
    ) || same(e, "wav") || same(e, "flac") || same(e, "opus") || same(e, "ogg")
}

/// Whether something of a URL, its query aside, stands behind the host.
pub open spec fn has_path(url: Seq<char>) -> bool {
    match second(no_query(url), "://"@) {
        Some(rest) => rest.contains('/'),
        None => true,
    }
}

/// Whether files with this extension are pages.
pub open spec fn page_ext(e: Seq<char>) -> bool {
    e == "html"@ || e == "htm"@
}

/// Whether a URL plainly names a file: by its extension the file is media, or it
/// can be checked for more than its size. A page is no file, and what follows a
/// dot of the host is no extension.
pub open spec fn file_url(url: Seq<char>) -> bool {
    media_url(url) || has_path(url) && !page_ext(url_ext(url)) && ext_level(url_ext(url))
        != Level::Integrity
}

pub fn looks_like_file_url(url: &str) -> (r: bool)
    ensures
        r == file_url(url@),
{
    if looks_like_media_url(url) {
        return true;
    }
    if let Some(rest) = second_part(before(url, Class::Is('?')), "://") {
        if !crate::text::has_char(rest, '/') {
            return false;
        }
    }
    let ext = ext_of(url);
    let e = ext.as_str();
    !same(e, "html") && !same(e, "htm") && level_for(e) != Level::Integrity
}

/// The host of a URL, with its port, where it has a scheme.
pub open spec fn authority(url: Seq<char>) -> Option<Seq<char>> {
    match second(url, "://"@) {
        Some(rest) => Some(up_to(rest, Class::Is('/'))),
        None => None,
    }
}

pub(crate) fn authority_of<'a>(url: &'a str) -> (r: Option<&'a str>)
    ensures
        str_of(r) == authority(url@),
{
    match second_part(url, "://") {
        Some(rest) => Some(before(rest, Class::Is('/'))),
        None => None,
    }
}

/// The host of a URL in lower case, with its port; empty where there is none.
pub open spec fn host(url: Seq<char>) -> Seq<char> {
    match authority(url) {
        Some(h) => lower(h),
        None => seq![],
    }
}

pub fn host_of(url: &str) -> (r: String)
    ensures
        r@ == host(url@),
{
    match authority_of(url) {
        Some(h) => to_lower(h),
        None => String::new(),
    }
}

/// The turns that have been given out, at most one for each host.
pub struct Turns {
    slots: Vec<(String, Instant)>,
}

impl View for Turns {
    type V = Map<Seq<char>, Instant>;

    /// The last turn of each host.
    closed spec fn view(&self) -> Map<Seq<char>, Instant> {
        Map::new(
            |h: Seq<char>| exists|i: int| 0 <= i < self.slots@.len() && (#[trigger] self.slots@[i]).0@ == h,
            |h: Seq<char>|
                self.slots@[choose|i: int| 0 <= i < self.slots@.len() && (#[trigger] self.slots@[i]).0@ == h].1,
        )
    }
}

/// The turn after the given one: the interval later, but not in the past.
pub open spec fn next_turn(last: Option<Instant>, now: Instant) -> Instant {
    match last {
        Some(t) => {
            let next = Instant { nanos: (t.nanos + MIN_HOST_INTERVAL * 1_000_000) as u128 };
            if next.nanos < now.nanos {
                now
            } else {
                next
            }
        },
        None => now,
    }
}

/// The last turn of a host.
pub open spec fn turn_of(turns: Map<Seq<char>, Instant>, host: Seq<char>) -> Option<Instant> {
    if turns.contains_key(host) {
        Some(turns[host])
    } else {
        None
    }
}

impl Turns {
    /// No host is listed twice.
    pub closed spec fn wf(&self) -> bool {
        forall|i: int, j: int|
            0 <= i < j < self.slots@.len() ==> (#[trigger] self.slots@[i]).0@ != (
            #[trigger] self.slots@[j]).0@
    }

    pub fn new() -> (r: Turns)
        ensures
            r.wf(),
            r@ == Map::<Seq<char>, Instant>::empty(),
    {
        let r = Turns { slots: Vec::new() };
        proof {
            assert(r@ =~= Map::<Seq<char>, Instant>::empty());
        }
        r
    }

    proof fn lemma_at(&self, i: int)
        requires
            self.wf(),
            0 <= i < self.slots@.len(),
        ensures
            self@.contains_key(self.slots@[i].0@),
            self@[self.slots@[i].0@] == self.slots@[i].1,
    {
        let h = self.slots@[i].0@;
        let k = choose|k: int| 0 <= k < self.slots@.len() && (#[trigger] self.slots@[k]).0@ == h;
        assert(self.slots@[i].0@ == h);
        assert(0 <= k < self.slots@.len() && self.slots@[k].0@ == h);
        if k < i {
            assert(self.slots@[k].0@ != self.slots@[i].0@);
        }
        if i < k {
            assert(self.slots@[i].0@ != self.slots@[k].0@);
        }
    }

    /// Whether the clock can still tell the next turn of a host.
    pub fn has_room(&self, host: &str) -> (r: bool)
        requires
            self.wf(),
        ensures
            r == (turn_of(self@, host@) matches Some(t) ==> t.nanos + MIN_HOST_INTERVAL * 1_000_000
                <= u128::MAX),
    {
        let mut i: usize = 0;
        while i < self.slots.len()
            invariant
                self.wf(),
                i <= self.slots@.len(),
                forall|j: int| 0 <= j < i ==> (#[trigger] self.slots@[j]).0@ != host@,
            decreases self.slots@.len() - i,
        {
            if same(self.slots[i].0.as_str(), host) {
                proof {
                    self.lemma_at(i as int);
                }
                return self.slots[i].1.nanos <= u128::MAX - MIN_HOST_INTERVAL as u128 * 1_000_000;
            }
            i += 1;
        }
        true
    }

    /// Takes the next turn of a host and says how long to wait for it. The turn
    /// is taken at once, so that those who ask together are spread out.
    pub fn wait_turn(&mut self, host: &str, now: Instant) -> (r: Duration)
        requires
            old(self).wf(),
            turn_of(old(self)@, host@) matches Some(t) ==> t.nanos + MIN_HOST_INTERVAL * 1_000_000
                <= u128::MAX,
        ensures
            final(self).wf(),
            final(self)@ == old(self)@.insert(host@, next_turn(turn_of(old(self)@, host@), now)),
            r == next_turn(turn_of(old(self)@, host@), now).since(now),
    {
        let n: usize = self.slots.len();
        let mut i: usize = 0;
        while i < n && !same(self.slots[i].0.as_str(), host)
            invariant
                n == self.slots@.len(),
                *self == *old(self),
                i <= n,
                forall|j: int| 0 <= j < i ==> (#[trigger] self.slots@[j]).0@ != host@,
            decreases n - i,
        {
            i += 1;
        }
        let ghost before = *self;
        if i < n {
            proof {
                self.lemma_at(i as int);
            }
            let next = Instant {
                nanos: self.slots[i].1.nanos + MIN_HOST_INTERVAL as u128 * 1_000_000,
            };
            let slot = if next.nanos < now.nanos {
                now
            } else {
                next
            };
            self.slots[i].1 = slot;
            proof {
                assert forall|a: int, b: int| 0 <= a < b < self.slots@.len() implies (
                #[trigger] self.slots@[a]).0@ != (#[trigger] self.slots@[b]).0@ by {
                    assert(self.slots@[a].0@ == before.slots@[a].0@);
                    assert(self.slots@[b].0@ == before.slots@[b].0@);
                }
                lemma_turns(before, *self, host@, i as int, slot);
            }
            slot.duration_since(now)
        } else {
            proof {
                if before@.contains_key(host@) {
                    let k = choose|k: int|
                        0 <= k < before.slots@.len() && (#[trigger] before.slots@[k]).0@ == host@;
                    assert(before.slots@[k].0@ == host@);
                }
            }
            self.slots.push((host.to_owned(), now));
            proof {
                assert forall|a: int, b: int| 0 <= a < b < self.slots@.len() implies (
                #[trigger] self.slots@[a]).0@ != (#[trigger] self.slots@[b]).0@ by {
                    assert(self.slots@[a] == before.slots@[a]);
                    if b < n {
                        assert(self.slots@[b] == before.slots@[b]);
                    }
                }
                lemma_turns(before, *self, host@, n as int, now);
            }
            now.duration_since(now)
        }
    }
}

proof fn lemma_turns(a: Turns, b: Turns, host: Seq<char>, at: int, slot: Instant)
    requires
        a.wf(),
        b.wf(),
        0 <= at < b.slots@.len(),
        at <= a.slots@.len(),
        b.slots@.len() == a.slots@.len() || b.slots@.len() == a.slots@.len() + 1 && at
            == a.slots@.len(),
        b.slots@[at].0@ == host,
        b.slots@[at].1 == slot,
        at < a.slots@.len() ==> a.slots@[at].0@ == host,
        forall|i: int|
            0 <= i < a.slots@.len() && i != at ==> (#[trigger] b.slots@[i]) == a.slots@[i],
    ensures
        b@ == a@.insert(host, slot),
{
    let want = a@.insert(host, slot);
    b.lemma_at(at);
    assert forall|h: Seq<char>| b@.contains_key(h) == want.contains_key(h) by {
        if b@.contains_key(h) && h != host {
            let i = choose|i: int| 0 <= i < b.slots@.len() && (#[trigger] b.slots@[i]).0@ == h;
            assert(b.slots@[i] == a.slots@[i]);
            a.lemma_at(i);
        }
        if want.contains_key(h) && h != host {
            let i = choose|i: int| 0 <= i < a.slots@.len() && (#[trigger] a.slots@[i]).0@ == h;
            assert(b.slots@[i] == a.slots@[i]);
            b.lemma_at(i);
        }
    }
    assert forall|h: Seq<char>| b@.contains_key(h) implies b@[h] == want[h] by {
        if h != host {
            let i = choose|i: int| 0 <= i < b.slots@.len() && (#[trigger] b.slots@[i]).0@ == h;
            assert(b.slots@[i] == a.slots@[i]);
            a.lemma_at(i);
            b.lemma_at(i);
        }
    }
    assert(b@ =~= want);
}

/// Two turns of one host, one right after the other, are at least the interval
/// apart, and none lies in the past.
pub proof fn law_turns_are_spread(turns: Map<Seq<char>, Instant>, host: Seq<char>, now: Instant)
    requires
        turn_of(turns, host) matches Some(t) ==> t.nanos + MIN_HOST_INTERVAL * 1_000_000 <= u128::MAX,
    ensures
        next_turn(turn_of(turns, host), now).nanos >= now.nanos,
        turn_of(turns, host) matches Some(t) ==> next_turn(turn_of(turns, host), now).nanos >= t.nanos
            + MIN_HOST_INTERVAL * 1_000_000,
{
}

/// The power of two, up to the fifth.
pub open spec fn doubled(attempt: u32) -> u64 {
    if attempt == 0 {
        1
    } else if attempt == 1 {
        2
    } else if attempt == 2 {
        4
    } else if attempt == 3 {
        8
    } else if attempt == 4 {
        16
    } else {
        32
    }
}

/// How long to wait before the next attempt: as many seconds as the server
/// asks for, else half a second doubled with each attempt.
pub open spec fn delay(retry_after: Option<Seq<char>>, attempt: u32) -> Duration {
    let asked = match retry_after {
        Some(v) => parsed(trimmed(v), u64::MAX as nat),
        None => None,
    };
    match asked {
        Some(n) => Duration::secs(n as int),
        None => Duration { nanos: (500 * doubled(attempt) * 1_000_000) as u128 },
    }
}

pub fn retry_delay(retry_after: Option<&str>, attempt: u32) -> (r: Duration)
    ensures
        r == delay(str_of(retry_after), attempt),
{
    let asked = match retry_after {
        Some(v) => parse(trim(v), u64::MAX),
        None => None,
    };
    match asked {
        Some(n) => Duration::from_secs(n),
        None => {
            let times: u64 = if attempt == 0 {
                1
            } else if attempt == 1 {
                2
            } else if attempt == 2 {
                4
            } else if attempt == 3 {
                8
            } else if attempt == 4 {
                16
            } else {
                32
            };
            Duration::from_millis(500 * times)
        },
    }
}

/// The identifier in the link of a song, in lower case.
pub open spec fn song_id(url: Seq<char>) -> Result<Seq<char>, Seq<char>> {
    match first_id(url) {
        Some(i) => Ok(lower(url.subrange(i, i + 36))),
        None => Err("這個 Suno 連結裡沒有歌曲 id"@),
    }
}

pub fn suno_id(url: &str) -> (r: Result<String, String>)
    ensures
        crate::text::outcome(r) == song_id(url@),
{
    match first_match(UUID_PATTERN, url) {
        Some(m) => Ok(to_lower(group_text(&m.groups, 0).as_str())),
        None => Err("這個 Suno 連結裡沒有歌曲 id".to_owned()),
    }
}

/// Where a song lies, by its identifier and the extension.
pub open spec fn song_media(id: Seq<char>, ext: Seq<char>) -> Seq<char> {
    "https://cdn1.suno.ai/"@ + id + "."@ + ext
}

/// The addresses to try for a song, in this order.
pub fn suno_candidates(id: &str) -> (r: Vec<String>)
    ensures
        texts(r@) == seq![song_media(id@, "mp4"@), song_media(id@, "mp3"@)],
{
    let mut v: Vec<String> = Vec::new();
    push_text(&mut v, cat(cat3("https://cdn1.suno.ai/", id, ".").as_str(), "mp4").as_str());
    push_text(&mut v, cat(cat3("https://cdn1.suno.ai/", id, ".").as_str(), "mp3").as_str());
    proof {
        assert(texts(v@) =~= seq![song_media(id@, "mp4"@), song_media(id@, "mp3"@)]);
    }
    v
}

/// The title of a page for sharing, as it is written there.
pub open spec fn shared_title(html: Seq<char>) -> Option<Seq<char>> {
    match regex_first(OG_TITLE_PATTERN@, html) {
        Some(m) => Some(group(m.groups, 1)),
        None => match regex_first(OG_TITLE_BACK_PATTERN@, html) {
            Some(m) => Some(group(m.groups, 1)),
            None => None,
        },
    }
}

pub fn og_title(html: &str) -> (r: Option<String>)
    ensures
        text_of(r) == shared_title(html@),
{
    match first_match(OG_TITLE_PATTERN, html) {
        Some(m) => Some(group_text(&m.groups, 1)),
        None => match first_match(OG_TITLE_BACK_PATTERN, html) {
            Some(m) => Some(group_text(&m.groups, 1)),
            None => None,
        },
    }
}

/// The title of a song: that of its page, or its identifier where the page has
/// none or could not be read.
pub open spec fn song_title(id: Seq<char>, shared: Option<Seq<char>>) -> Seq<char> {
    match shared {
        Some(t) => if trimmed(decoded(t)).len() > 0 {
            decoded(t)
        } else {
            id
        },
        None => id,
    }
}

pub fn suno_title(id: &str, shared: Option<String>) -> (r: String)
    ensures
        r@ == song_title(id@, text_of(shared)),
{
    if let Some(t) = shared {
        let d = decode_entities(t.as_str());
        if trim(d.as_str()).unicode_len() > 0 {
            return d;
        }
    }
    id.to_owned()
}

/// What is known of a song once it has been asked for: which of its addresses
/// answered, and what its page shows as a title.
pub open spec fn song(id: Seq<char>, mp4: bool, mp3: bool, shared: Option<Seq<char>>) -> Result<
    FoundView,
    Seq<char>,
> {
    if mp4 || mp3 {
        Ok(
            FoundView {
                media: song_media(
                    id,
                    if mp4 {
                        "mp4"@
                    } else {
                        "mp3"@
                    },
                ),
                title: song_title(id, shared),
                content_type: None,
            },
        )
    } else {
        Err("Suno 的 CDN 上找不到這首（可能是私人的，或路徑規則又改了）"@)
    }
}

/// A song, given which of its addresses answered and the text of its page.
pub fn suno(id: &str, mp4: bool, mp3: bool, html: Option<&str>) -> (r: Result<Found, String>)
    ensures
        found(r) == song(
            id@,
            mp4,
            mp3,
            match html {
                Some(h) => shared_title(h@),
                None => None,
            },
        ),
{
    if !mp4 && !mp3 {
        return Err("Suno 的 CDN 上找不到這首（可能是私人的，或路徑規則又改了）".to_owned());
    }
    let ext = if mp4 {
        "mp4"
    } else {
        "mp3"
    };
    let media = cat(cat3("https://cdn1.suno.ai/", id, ".").as_str(), ext);
    let shared = match html {
        Some(h) => og_title(h),
        None => None,
    };
    Ok(Found { media, title: suno_title(id, shared), content_type: None })
}

/// What a link is, as far as it shows by itself.
#[derive(Debug)]
pub enum Look {
    /// The link is the file.
    Media(Found),
    /// The page of a song.
    Suno,
    /// The server has to be asked.
    Ask,
}

/// What a look says.
#[verifier::ext_equal]
pub enum LookView {
    Media(FoundView),
    Suno,
    Ask,
}

impl View for Look {
    type V = LookView;

    open spec fn view(&self) -> LookView {
        match self {
            Look::Media(f) => LookView::Media(f@),
            Look::Suno => LookView::Suno,
            Look::Ask => LookView::Ask,
        }
    }
}

/// The title of a file by its URL: the last part of the path without its
/// extension.
pub open spec fn url_title(url: Seq<char>) -> Seq<char> {
    match stem(behind(no_query(url), Class::Is('/'))) {
        Some(s) => if s.len() > 0 {
            s
        } else {
            "untitled"@
        },
        None => "untitled"@,
    }
}

/// What a link is, as far as it shows by itself.
pub open spec fn look(url: Seq<char>) -> LookView {
    if media_url(url) {
        LookView::Media(FoundView { media: url, title: url_title(url), content_type: None })
    } else if ends_with(host(url), "suno.com"@) || ends_with(host(url), "suno.ai"@) {
        LookView::Suno
    } else {
        LookView::Ask
    }
}

pub fn probe(url: &str) -> (r: Look)
    ensures
        r@ == look(url@),
{
    if looks_like_media_url(url) {
        let title = match stem_text(after(before(url, Class::Is('?')), Class::Is('/'))) {
            Some(s) => if s.unicode_len() > 0 {
                s
            } else {
                "untitled"
            },
            None => "untitled",
        };
        return Look::Media(
            Found { media: url.to_owned(), title: title.to_owned(), content_type: None },
        );
    }
    let h = host_of(url);
    if has_suffix(h.as_str(), "suno.com") || has_suffix(h.as_str(), "suno.ai") {
        return Look::Suno;
    }
    Look::Ask
}

/// What a server answered before anything was fetched.
pub struct Answer {
    pub status: u16,
    /// The status as it is shown, with its words.
    pub status_text: String,
    pub content_type: Option<String>,
    pub disposition: Option<String>,
}

pub open spec fn success(status: u16) -> bool {
    200 <= status < 300
}

/// Whether a content type is that of a page.
pub open spec fn page_type(content_type: Option<Seq<char>>) -> bool {
    match content_type {
        Some(t) => lower(trimmed(up_to(t, Class::Is(';')))) == "text/html"@,
        None => false,
    }
}

pub fn is_page(content_type: &Option<String>) -> (r: bool)
    ensures
        r == page_type(text_of(*content_type)),
{
    match content_type {
        Some(t) => same(
            to_lower(trim(before(t.as_str(), Class::Is(';')))).as_str(),
            "text/html",
        ),
        None => false,
    }
}

/// The name of a file by its URL: the last part of the path, where that has a
/// dot.
pub open spec fn named_part(url: Seq<char>) -> Option<Seq<char>> {
    let name = behind(cut_end(no_query(url), Class::Is('/')), Class::Is('/'));
    if name.len() > 0 && name.contains('.') {
        Some(name)
    } else {
        None
    }
}

/// The title of a file that a server offers: the name that the server gives it,
/// else the last part of its URL, else the host.
pub open spec fn offered_title(url: Seq<char>, disposition: Option<Seq<char>>) -> Seq<char> {
    let given = match disposition {
        Some(d) => disposed_name(d),
        None => None,
    };
    match given {
        Some(n) => n,
        None => match named_part(url) {
            Some(n) => n,
            None => match authority(url) {
                Some(h) => h,
                None => "download"@,
            },
        },
    }
}

/// What comes of a server's answer: a file to fetch, or why there is none. A
/// page is no file unless pages are wanted.
pub open spec fn offered(url: Seq<char>, a: Answer, allow_html: bool) -> Result<
    FoundView,
    Seq<char>,
> {
    if !success(a.status) {
        Err("HTTP "@ + a.status_text@)
    } else if page_type(text_of(a.content_type)) && !allow_html {
        Err("這是一個網頁不是檔案。要存下網頁本身請加 --any"@)
    } else {
        Ok(
            FoundView {
                media: url,
                title: offered_title(url, text_of(a.disposition)),
                content_type: text_of(a.content_type),
            },
        )
    }
}

fn name_in_url(url: &str) -> (r: Option<String>)
    ensures
        text_of(r) == named_part(url@),
{
    let name = after(
        trim_class_end(before(url, Class::Is('?')), Class::Is('/')),
        Class::Is('/'),
    );
    let n: usize = name.unicode_len();
    let dot: usize = crate::text::find(name, Class::Is('.'), true);
    proof {
        crate::text::lemma_first(name@, Class::Is('.'), true);
        if dot < n {
            assert(name@.contains(name@[dot as int]));
        } else if name@.contains('.') {
            let j = name@.index_of('.');
            assert(Class::Is('.').has(name@[j]));
        }
    }
    if n > 0 && dot < n {
        Some(name.to_owned())
    } else {
        None
    }
}

/// What comes of a server's answer to the question what a link is.
pub fn any_file(url: &str, answer: &Answer, allow_html: bool) -> (r: Result<Found, String>)
    ensures
        found(r) == offered(url@, *answer, allow_html),
{
    if !(200 <= answer.status && answer.status < 300) {
        return Err(cat("HTTP ", answer.status_text.as_str()));
    }
    if is_page(&answer.content_type) && !allow_html {
        return Err("這是一個網頁不是檔案。要存下網頁本身請加 --any".to_owned());
    }
    let given = match &answer.disposition {
        Some(d) => filename_from_disposition(d.as_str()),
        None => None,
    };
    let title = match given {
        Some(n) => n,
        None => match name_in_url(url) {
            Some(n) => n,
            None => match authority_of(url) {
                Some(h) => h.to_owned(),
                None => "download".to_owned(),
            },
        },
    };
    let content_type = crate::text::copy_text(&answer.content_type);
    Ok(Found { media: url.to_owned(), title, content_type })
}

/// The value behind a key in a `Content-Disposition`, up to the next semicolon,
/// trimmed. The case of the key does not matter.
pub open spec fn disposed(v: Seq<char>, key: Seq<char>) -> Option<Seq<char>> {
    match index_of(lower(v), key) {
        Some(i) => Some(trimmed(up_to(v.skip(i + key.len()), Class::Is(';')))),
        None => None,
    }
}

fn disposed_value<'a>(v: &'a str, key: &str) -> (r: Option<&'a str>)
    ensures
        str_of(r) == disposed(v@, key@),
{
    let low = to_lower(v);
    let n: usize = low.as_str().unicode_len();
    let m: usize = key.unicode_len();
    match find_text(low.as_str(), key) {
        Some(i) => {
            proof {
                assert(i + m <= n);
                assert(low@.len() == v@.len());
            }
            Some(trim(before(tail(v, i + m), Class::Is(';'))))
        },
        None => None,
    }
}

/// The name of the file in a `Content-Disposition`: the encoded one, where it
/// has the form that RFC 5987 gives it, else the plain one without its quotes.
pub open spec fn disposed_name(v: Seq<char>) -> Option<Seq<char>> {
    let encoded = match disposed(v, "filename*="@) {
        Some(val) => second(val, "''"@),
        None => None,
    };
    match encoded {
        Some(e) => Some(percent_decoded(e)),
        None => match disposed(v, "filename="@) {
            Some(val) => {
                let name = cut_ends(val, Class::Is('"'));
                if name.len() > 0 {
                    Some(name)
                } else {
                    None
                }
            },
            None => None,
        },
    }
}

pub fn filename_from_disposition(v: &str) -> (r: Option<String>)
    ensures
        text_of(r) == disposed_name(v@),
{
    if let Some(val) = disposed_value(v, "filename*=") {
        if let Some(e) = second_part(val, "''") {
            return Some(percent_decode(e));
        }
    }
    match disposed_value(v, "filename=") {
        Some(val) => {
            let name = trim_class(val, Class::Is('"'));
            if name.unicode_len() > 0 {
                Some(name.to_owned())
            } else {
                None
            }
        },
        None => None,
    }
}

/// The value of a hexadecimal digit.
pub open spec fn hex(b: u8) -> Option<u8> {
    if 48 <= b <= 57 {
        Some((b - 48) as u8)
    } else if 65 <= b <= 70 {
        Some((b - 55) as u8)
    } else if 97 <= b <= 102 {
        Some((b - 87) as u8)
    } else {
        None
    }
}

/// The byte that two hexadecimal digits stand for.
pub open spec fn hex_pair(a: u8, b: u8) -> Option<u8> {
    match (hex(a), hex(b)) {
        (Some(x), Some(y)) => Some((x * 16 + y) as u8),
        _ => None,
    }
}

/// Bytes with their percent escapes resolved. What only looks like an escape
/// stays as it is.
pub open spec fn unescaped(b: Seq<u8>) -> Seq<u8>
    decreases b.len(),
{
    if b.len() == 0 {
        seq![]
    } else if b[0] == 37 && b.len() > 2 && hex_pair(b[1], b[2]) is Some {
        seq![hex_pair(b[1], b[2])->0] + unescaped(b.skip(3))
    } else {
        seq![b[0]] + unescaped(b.skip(1))
    }
}

/// A text with its percent escapes resolved; bytes that are no UTF-8 after that
/// are replaced.
pub open spec fn percent_decoded(s: Seq<char>) -> Seq<char> {
    utf8_lossy(unescaped(encode_utf8(s)))
}

fn hex_value(b: u8) -> (r: Option<u8>)
    ensures
        r == hex(b),
{
    if 48 <= b && b <= 57 {
        Some(b - 48)
    } else if 65 <= b && b <= 70 {
        Some(b - 55)
    } else if 97 <= b && b <= 102 {
        Some(b - 87)
    } else {
        None
    }
}

fn pair_value(a: u8, b: u8) -> (r: Option<u8>)
    ensures
        r == hex_pair(a, b),
{
    match (hex_value(a), hex_value(b)) {
        (Some(x), Some(y)) => Some(x * 16 + y),
        _ => None,
    }
}

/// Resolves percent escapes in bytes.
pub fn percent_bytes(b: &[u8]) -> (r: Vec<u8>)
    ensures
        r@ == unescaped(b@),
{
    let mut out: Vec<u8> = Vec::new();
    let mut i: usize = 0;
    proof {
        assert(b@.skip(0) =~= b@);
    }
    while i < b.len()
        invariant
            i <= b@.len(),
            out@ + unescaped(b@.skip(i as int)) == unescaped(b@),
        decreases b@.len() - i,
    {
        let ghost rest = b@.skip(i as int);
        let ghost done = out@;
        proof {
            assert(rest[0] == b@[i as int]);
        }
        if b[i] == 37 && b.len() - i > 2 {
            proof {
                assert(rest[1] == b@[i + 1]);
                assert(rest[2] == b@[i + 2]);
            }
            if let Some(v) = pair_value(b[i + 1], b[i + 2]) {
                out.push(v);
                i += 3;
                proof {
                    assert(rest.skip(3) =~= b@.skip(i as int));
                    assert(out@ + unescaped(b@.skip(i as int)) =~= done + unescaped(rest));
                }
                continue;
            }
        }
        out.push(b[i]);
        i += 1;
        proof {
            assert(rest.skip(1) =~= b@.skip(i as int));
            assert(out@ + unescaped(b@.skip(i as int)) =~= done + unescaped(rest));
        }
    }
    proof {
        assert(out@ + unescaped(b@.skip(i as int)) =~= out@);
    }
    out
}

/// Resolves percent escapes. A text without any is left as it is, and one with
/// broken ones keeps them.
pub fn percent_decode(s: &str) -> (r: String)
    ensures
        r@ == percent_decoded(s@),
        !s@.contains('%') ==> r@ == s@,
{
    let out = percent_bytes(s.as_bytes());
    proof {
        if !s@.contains('%') {
            lemma_no_escape(s@);
            vstd::utf8::encode_utf8_valid_utf8(s@);
            vstd::utf8::encode_utf8_decode_utf8(s@);
        }
    }
    lossy(out.as_slice())
}

/// What to do with the response to a request.
#[derive(Debug, Clone, Copy, PartialEq, Eq, Structural)]
pub enum Next {
    /// Take the body.
    Take,
    /// Wait and ask again.
    Again,
}

/// Whether the host puts the request off.
pub open spec fn put_off(status: u16) -> bool {
    status == 429 || status == 503
}

/// The hint behind a status that is a failure.
pub open spec fn hint(status: u16) -> Seq<char> {
    if status == 401 || status == 403 {
        "（可能是私人的或連結已失效）"@
    } else if status == 404 {
        "（找不到這個檔案）"@
    } else {
        ""@
    }
}

/// What to do with a response at the given attempt. A host that puts the
/// request off is asked again until the attempts are used up.
pub open spec fn judged(status: u16, status_text: Seq<char>, attempt: u32) -> Result<Next, Seq<char>> {
    if put_off(status) {
        if attempt >= MAX_ATTEMPTS {
            Err(
                "HTTP "@ + status_text + "（退讓重試 "@ + decimal(MAX_ATTEMPTS as nat)
                    + " 次後仍被限流）"@,
            )
        } else {
            Ok(Next::Again)
        }
    } else if success(status) {
        Ok(Next::Take)
    } else {
        Err("HTTP "@ + status_text + hint(status))
    }
}

pub fn judge_response(status: u16, status_text: &str, attempt: u32) -> (r: Result<Next, String>)
    ensures
        match r {
            Ok(n) => judged(status, status_text@, attempt) == Ok::<Next, Seq<char>>(n),
            Err(e) => judged(status, status_text@, attempt) == Err::<Next, Seq<char>>(e@),
        },
{
    if status == 429 || status == 503 {
        if attempt >= MAX_ATTEMPTS {
            let front = cat3("HTTP ", status_text, "（退讓重試 ");
            return Err(
                cat3(
                    front.as_str(),
                    to_decimal(MAX_ATTEMPTS as u64).as_str(),
                    " 次後仍被限流）",
                ),
            );
        }
        return Ok(Next::Again);
    }
    if 200 <= status && status < 300 {
        return Ok(Next::Take);
    }
    let words = if status == 401 || status == 403 {
        "（可能是私人的或連結已失效）"
    } else if status == 404 {
        "（找不到這個檔案）"
    } else {
        ""
    };
    Err(cat3("HTTP ", status_text, words))
}

/// Refuses a page where a file was asked for. The answer to the question what a
/// link is and the answer to the request for it can differ.
pub fn accept_body(content_type: &Option<String>, allow_html: bool) -> (r: Result<(), String>)
    ensures
        match r {
            Ok(_) => allow_html || !page_type(text_of(*content_type)),
            Err(e) => !allow_html && page_type(text_of(*content_type)) && e@
                == "伺服器回的是網頁不是檔案（要存網頁請加 --any）"@,
        },
        r is Ok == takes_body(text_of(*content_type), allow_html),
{
    if !allow_html && is_page(content_type) {
        return Err("伺服器回的是網頁不是檔案（要存網頁請加 --any）".to_owned());
    }
    Ok(())
}

/// Whether a download is whole: as long as the server announced, where it did,
/// and no shorter than any media file.
pub open spec fn whole(got: u64, total: u64) -> Result<u64, Seq<char>> {
    if total > 0 && got != total {
        Err("下載不完整（"@ + decimal(got as nat) + "/"@ + decimal(total as nat) + " bytes）"@)
    } else if got < MIN_BYTES {
        Err("檔案只有 "@ + decimal(got as nat) + " bytes，不像完整媒體檔"@)
    } else {
        Ok(got)
    }
}

pub fn check_size(got: u64, total: u64) -> (r: Result<u64, String>)
    ensures
        match r {
            Ok(n) => whole(got, total) == Ok::<u64, Seq<char>>(n),
            Err(e) => whole(got, total) == Err::<u64, Seq<char>>(e@),
        },
{
    if total > 0 && got != total {
        let a = to_decimal(got);
        let b = to_decimal(total);
        let front = cat3("下載不完整（", a.as_str(), "/");
        return Err(cat3(front.as_str(), b.as_str(), " bytes）"));
    }
    if got < MIN_BYTES {
        return Err(
            cat3("檔案只有 ", to_decimal(got).as_str(), " bytes，不像完整媒體檔"),
        );
    }
    Ok(got)
}

/// A download that is shorter or longer than it was announced never passes.
pub proof fn law_cut_off_downloads_fail(got: u64, total: u64)
    requires
        total > 0,
        got != total,
    ensures
        whole(got, total) is Err,
{
}

/// A page is no file unless pages are wanted, whatever its address.
pub proof fn law_pages_are_refused(url: Seq<char>, a: Answer)
    requires
        page_type(text_of(a.content_type)),
    ensures
        offered(url, a, false) is Err,
{
}

/// A host that puts requests off is asked again before the last attempt, and
/// given up at it.
pub proof fn law_retries_end(status: u16, status_text: Seq<char>, attempt: u32)
    requires
        put_off(status),
    ensures
        judged(status, status_text, attempt) is Ok <==> attempt < MAX_ATTEMPTS,
{
}

/// The command line that takes the sound out of a file without encoding it
/// again.
pub open spec fn audio_line(src: Seq<char>, dest: Seq<char>) -> Seq<Seq<char>> {
    seq!["-v"@, "error"@, "-nostdin"@, "-y"@, "-i"@, src, "-vn"@, "-c:a"@, "copy"@, dest]
}

pub fn extract_audio(src: &str, dest: &str) -> (r: Vec<String>)
    ensures
        texts(r@) == audio_line(src@, dest@),
{
    let mut a: Vec<String> = Vec::new();
    push_text(&mut a, "-v");
    push_text(&mut a, "error");
    push_text(&mut a, "-nostdin");
    push_text(&mut a, "-y");
    push_text(&mut a, "-i");
    push_text(&mut a, src);
    push_text(&mut a, "-vn");
    push_text(&mut a, "-c:a");
    push_text(&mut a, "copy");
    push_text(&mut a, dest);
    proof {
        assert(texts(a@) =~= audio_line(src@, dest@));
    }
    a
}

/// The words for sound that could not be taken out.
pub fn extract_audio_error(stderr: &str) -> (r: String)
    ensures
        r@ == "抽出音軌失敗："@ + first_words(lines(stderr@)),
{
    cat("抽出音軌失敗：", first_line(stderr).as_str())
}

proof fn lemma_encoded_no_percent(s: Seq<char>)
    requires
        !s.contains('%'),
    ensures
        forall|i: int| 0 <= i < encode_utf8(s).len() ==> (#[trigger] encode_utf8(s)[i]) != 37,
    decreases s.len(),
{
    reveal_with_fuel(encode_utf8, 2);
    if s.len() > 0 {
        let t = s.drop_first();
        assert forall|i: int| 0 <= i < t.len() implies (#[trigger] t[i]) != '%' by {
            assert(t[i] == s[i + 1]);
            assert(s.contains(s[i + 1]));
        }
        lemma_encoded_no_percent(t);
        assert(s.contains(s[0]));
        lemma_scalar_no_percent(s[0]);
        let e = encode_utf8(s);
        let a = vstd::utf8::encode_scalar(s[0] as u32);
        let b = encode_utf8(t);
        assert(e =~= a + b);
        assert forall|i: int| 0 <= i < e.len() implies (#[trigger] e[i]) != 37 by {
            if i < a.len() {
                assert(e[i] == a[i]);
            } else {
                assert(e[i] == b[i - a.len()]);
            }
        }
    }
}

proof fn lemma_scalar_no_percent(c: char)
    requires
        c != '%',
    ensures
        forall|i: int|
            0 <= i < vstd::utf8::encode_scalar(c as u32).len() ==> (#[trigger] vstd::utf8::encode_scalar(c as u32)[i])
                != 37,
{
    let n: u32 = c as u32;
    assert(forall|x: u8| (0xC0u8 | x) != 37u8) by (bit_vector);
    assert(forall|x: u8| (0xE0u8 | x) != 37u8) by (bit_vector);
    assert(forall|x: u8| (0xF0u8 | x) != 37u8) by (bit_vector);
    assert(forall|x: u8| (0x80u8 | x) != 37u8) by (bit_vector);
    assert(n <= 0x7f && n != 37 ==> (n & 0x7f) as u8 != 37u8) by (bit_vector);
}

proof fn lemma_unescaped_plain(b: Seq<u8>)
    requires
        forall|i: int| 0 <= i < b.len() ==> (#[trigger] b[i]) != 37,
    ensures
        unescaped(b) == b,
    decreases b.len(),
{
    if b.len() > 0 {
        let t = b.skip(1);
        assert forall|i: int| 0 <= i < t.len() implies (#[trigger] t[i]) != 37 by {
            assert(t[i] == b[i + 1]);
        }
        lemma_unescaped_plain(t);
        assert(b[0] != 37);
        assert(unescaped(b) =~= b);
    }
}

proof fn lemma_no_escape(s: Seq<char>)
    requires
        !s.contains('%'),
    ensures
        unescaped(encode_utf8(s)) == encode_utf8(s),
{
    lemma_encoded_no_percent(s);
    lemma_unescaped_plain(encode_utf8(s));
}

/// A request that was given no name goes out under the usual one, before all it was
/// given; a request that was given a name keeps to it.
pub proof fn law_requests_carry_a_name(given: Seq<(Seq<char>, Seq<char>)>)
    ensures
        names(given, "user-agent"@) ==> headers_sent(given) == given,
        !names(given, "user-agent"@) ==> headers_sent(given).len() == given.len() + 1
            && headers_sent(given)[0] == (
            "user-agent"@,
            "Mozilla/5.0 (Macintosh; Intel Mac OS X 10_15_7) AppleWebKit/537.36 (KHTML, like Gecko) Chrome/131.0.0.0 Safari/537.36"@,
        ) && headers_sent(given).skip(1) == given,
{
    assert((seq![("user-agent"@, UA@)] + given).skip(1) =~= given);
}

/// A pattern that begins with an ampersand finds nothing in a text that has none,
/// nor where another name stands.
pub(crate) proof fn lemma_other_name(a: Seq<char>, p: Seq<char>, b: Seq<char>, q: Seq<char>, w: Seq<char>, k: int)
    requires
        p.len() > 0 && q.len() > 0,
        p[0] == '&' && q[0] == '&',
        !a.contains('&') && !b.contains('&'),
        0 <= k < q.len(),
        k < p.len() + b.len(),
        (p + b)[k] != q[k],
        forall|j: int| 1 <= j < p.len() ==> p[j] != '&',
    ensures
        replaced(a + p + b, q, w) == a + p + b,
{
    let s = a + p + b;
    crate::text::lemma_index_of(s, q);
    if index_of(s, q) is Some {
        let i = index_of(s, q)->0;
        let t = s.skip(i).take(q.len() as int);
        assert(t[0] == s[i]);
        if i < a.len() {
            assert(a.contains(a[i]));
        } else if i > a.len() {
            if i < a.len() + p.len() {
                assert(s[i] == p[i - a.len()]);
            } else {
                assert(s[i] == b[i - a.len() - p.len()]);
                assert(b.contains(b[i - a.len() - p.len()]));
            }
        } else {
            assert(t[k] == (p + b)[k]);
        }
    }
}

/// Without an ampersand nothing is put in.
pub proof fn law_plain_text_is_kept(s: Seq<char>)
    requires
        !s.contains('&'),
    ensures
        decoded(s) == s,
{
    reveal_strlit("&amp;");
    reveal_strlit("&lt;");
    reveal_strlit("&gt;");
    reveal_strlit("&quot;");
    reveal_strlit("&#39;");
    reveal_strlit("&apos;");
    reveal_strlit("&nbsp;");
    reveal_strlit("&#");
    crate::text::law_found_where_it_stands(s, "&amp;"@, "&"@);
    crate::text::law_found_where_it_stands(s, "&lt;"@, "<"@);
    crate::text::law_found_where_it_stands(s, "&gt;"@, ">"@);
    crate::text::law_found_where_it_stands(s, "&quot;"@, "\""@);
    crate::text::law_found_where_it_stands(s, "&#39;"@, "'"@);
    crate::text::law_found_where_it_stands(s, "&apos;"@, "'"@);
    crate::text::law_found_where_it_stands(s, "&nbsp;"@, " "@);
    crate::text::law_found_where_it_stands(s, "&#"@, s);
}

/// The names that HTML gives to characters are read as those characters, and the
/// text around them stays.
#[verifier::rlimit(40)]
pub proof fn law_named_characters_are_put_in(a: Seq<char>, b: Seq<char>)
    requires
        !a.contains('&'),
        !b.contains('&'),
    ensures
        decoded(a + "&lt;"@ + b) == a + "<"@ + b,
        decoded(a + "&gt;"@ + b) == a + ">"@ + b,
        decoded(a + "&quot;"@ + b) == a + "\""@ + b,
        decoded(a + "&#39;"@ + b) == a + "'"@ + b,
        decoded(a + "&apos;"@ + b) == a + "'"@ + b,
        decoded(a + "&nbsp;"@ + b) == a + " "@ + b,
        b.len() == 0 || b[0] == ' ' ==> decoded(a + "&amp;"@ + b) == a + "&"@ + b,
{
    reveal_strlit("&amp;");
    reveal_strlit("&lt;");
    reveal_strlit("&gt;");
    reveal_strlit("&quot;");
    reveal_strlit("&#39;");
    reveal_strlit("&apos;");
    reveal_strlit("&nbsp;");
    reveal_strlit("&");
    reveal_strlit("<");
    reveal_strlit(">");
    reveal_strlit("\"");
    reveal_strlit("'");
    reveal_strlit(" ");
    reveal_strlit("&#");
    lemma_named(a, "&lt;"@, b, "<"@);
    lemma_named(a, "&gt;"@, b, ">"@);
    lemma_named(a, "&quot;"@, b, "\""@);
    lemma_named(a, "&#39;"@, b, "'"@);
    lemma_named(a, "&apos;"@, b, "'"@);
    lemma_named(a, "&nbsp;"@, b, " "@);
    if b.len() == 0 || b[0] == ' ' {
        let s = a + "&amp;"@ + b;
        let t = a + "&"@ + b;
        crate::text::law_replaced_in_place(a, "&amp;"@, b, "&"@);
        crate::text::law_found_where_it_stands(b, "&amp;"@, "&"@);
        assert(replaced(s, "&amp;"@, "&"@) =~= t);
        if b.len() > 0 {
            lemma_other_name(a, "&"@, b, "&lt;"@, "<"@, 1);
            lemma_other_name(a, "&"@, b, "&gt;"@, ">"@, 1);
            lemma_other_name(a, "&"@, b, "&quot;"@, "\""@, 1);
            lemma_other_name(a, "&"@, b, "&#39;"@, "'"@, 1);
            lemma_other_name(a, "&"@, b, "&apos;"@, "'"@, 1);
            lemma_other_name(a, "&"@, b, "&nbsp;"@, " "@, 1);
        } else {
            assert(t =~= a + "&"@);
            lemma_short(a, "&lt;"@, "<"@);
            lemma_short(a, "&gt;"@, ">"@);
            lemma_short(a, "&quot;"@, "\""@);
            lemma_short(a, "&#39;"@, "'"@);
            lemma_short(a, "&apos;"@, "'"@);
            lemma_short(a, "&nbsp;"@, " "@);
        }
        assert(with_names(s) == t);
        crate::text::lemma_index_of(t, "&#"@);
        if contains(t, "&#"@) {
            let i = index_of(t, "&#"@)->0;
            let u = t.skip(i).take(2);
            assert(u[0] == t[i] && u[1] == t[i + 1]);
            if i < a.len() {
                assert(a.contains(a[i]));
            } else if i > a.len() {
                assert(t[i] == b[i - a.len() - 1]);
                assert(b.contains(b[i - a.len() - 1]));
            } else {
                assert(t[i + 1] == b[0]);
            }
        }
    }
}

pub(crate) proof fn lemma_short(a: Seq<char>, q: Seq<char>, w: Seq<char>)
    requires
        !a.contains('&'),
        q.len() > 1,
        q[0] == '&',
    ensures
        replaced(a + "&"@, q, w) == a + "&"@,
{
    reveal_strlit("&");
    let s = a + "&"@;
    crate::text::lemma_index_of(s, q);
    if index_of(s, q) is Some {
        let i = index_of(s, q)->0;
        assert(s.skip(i).take(q.len() as int)[0] == s[i]);
        assert(i < a.len());
        assert(a.contains(a[i]));
    }
}

#[verifier::rlimit(40)]
proof fn lemma_named(a: Seq<char>, p: Seq<char>, b: Seq<char>, w: Seq<char>)
    requires
        !a.contains('&') && !b.contains('&') && !w.contains('&'),
        ({
            ||| p == "&lt;"@ && w == "<"@
            ||| p == "&gt;"@ && w == ">"@
            ||| p == "&quot;"@ && w == "\""@
            ||| p == "&#39;"@ && w == "'"@
            ||| p == "&apos;"@ && w == "'"@
            ||| p == "&nbsp;"@ && w == " "@
        }),
    ensures
        decoded(a + p + b) == a + w + b,
{
    reveal_strlit("&amp;");
    reveal_strlit("&lt;");
    reveal_strlit("&gt;");
    reveal_strlit("&quot;");
    reveal_strlit("&#39;");
    reveal_strlit("&apos;");
    reveal_strlit("&nbsp;");
    reveal_strlit("&");
    reveal_strlit("<");
    reveal_strlit(">");
    reveal_strlit("\"");
    reveal_strlit("'");
    reveal_strlit(" ");
    reveal_strlit("&#");
    let s = a + p + b;
    let t = a + w + b;
    crate::text::law_replaced_in_place(a, p, b, w);
    crate::text::law_found_where_it_stands(b, p, w);
    assert(replaced(s, p, w) =~= t);
    assert forall|i: int| 0 <= i < t.len() implies #[trigger] t[i] != '&' by {
        if i < a.len() {
            assert(a.contains(a[i]));
        } else if i < a.len() + w.len() {
            assert(w.contains(w[i - a.len()]));
        } else {
            assert(b.contains(b[i - a.len() - w.len()]));
        }
    }
    crate::text::law_found_where_it_stands(t, "&amp;"@, "&"@);
    crate::text::law_found_where_it_stands(t, "&lt;"@, "<"@);
    crate::text::law_found_where_it_stands(t, "&gt;"@, ">"@);
    crate::text::law_found_where_it_stands(t, "&quot;"@, "\""@);
    crate::text::law_found_where_it_stands(t, "&#39;"@, "'"@);
    crate::text::law_found_where_it_stands(t, "&apos;"@, "'"@);
    crate::text::law_found_where_it_stands(t, "&nbsp;"@, " "@);
    crate::text::law_found_where_it_stands(t, "&#"@, t);
    if p != "&amp;"@ {
        let k: int = if p[1] != "&amp;"@[1] {
            1
        } else {
            2
        };
        lemma_other_name(a, p, b, "&amp;"@, "&"@, k);
    }
    if p != "&lt;"@ {
        let k: int = if p[1] != "&lt;"@[1] {
            1
        } else {
            2
        };
        lemma_other_name(a, p, b, "&lt;"@, "<"@, k);
    }
    if p != "&gt;"@ {
        let k: int = if p[1] != "&gt;"@[1] {
            1
        } else {
            2
        };
        lemma_other_name(a, p, b, "&gt;"@, ">"@, k);
    }
    if p != "&quot;"@ {
        let k: int = if p[1] != "&quot;"@[1] {
            1
        } else {
            2
        };
        lemma_other_name(a, p, b, "&quot;"@, "\""@, k);
    }
    if p != "&#39;"@ {
        let k: int = if p[1] != "&#39;"@[1] {
            1
        } else {
            2
        };
        lemma_other_name(a, p, b, "&#39;"@, "'"@, k);
    }
    if p != "&apos;"@ {
        let k: int = if p[1] != "&apos;"@[1] {
            1
        } else {
            2
        };
        lemma_other_name(a, p, b, "&apos;"@, "'"@, k);
    }
    if p != "&nbsp;"@ {
        let k: int = if p[1] != "&nbsp;"@[1] {
            1
        } else {
            2
        };
        lemma_other_name(a, p, b, "&nbsp;"@, " "@, k);
    }
}

/// A character that is given by its number is the character of that number.
pub proof fn law_numbered_characters(n: nat)
    ensures
        n < 0xd800 || 0xe000 <= n <= 0x10ffff ==> numbered(decimal(n)) == seq![n as char],
        0xd800 <= n < 0xe000 ==> numbered(decimal(n)).len() == 0,
        0x10ffff < n <= u32::MAX ==> numbered(decimal(n)).len() == 0,
{
    if n <= u32::MAX {
        crate::number::law_decimal_reads_back(n, u32::MAX as nat);
    }
}

/// A URL that ends in the extension of a media file names one, with a query or
/// without; a URL that ends in another does not.
#[verifier::rlimit(40)]
pub proof fn law_media_urls_are_known(base: Seq<char>, ext: Seq<char>, query: Seq<char>)
    requires
        !base.contains('?') && !ext.contains('?') && !ext.contains('.'),
    ensures
        lower(ext) == "mp4"@ ==> media_url(base + "."@ + ext) && media_url(base + "."@ + ext + "?"@ + query),
        lower(ext) == "m4a"@ ==> media_url(base + "."@ + ext) && media_url(base + "."@ + ext + "?"@ + query),
        lower(ext) == "mp3"@ ==> media_url(base + "."@ + ext) && media_url(base + "."@ + ext + "?"@ + query),
        lower(ext) == "webm"@ ==> media_url(base + "."@ + ext) && media_url(base + "."@ + ext + "?"@ + query),
        lower(ext) == "mkv"@ ==> media_url(base + "."@ + ext) && media_url(base + "."@ + ext + "?"@ + query),
        lower(ext) == "mov"@ ==> media_url(base + "."@ + ext) && media_url(base + "."@ + ext + "?"@ + query),
        lower(ext) == "wav"@ ==> media_url(base + "."@ + ext) && media_url(base + "."@ + ext + "?"@ + query),
        lower(ext) == "flac"@ ==> media_url(base + "."@ + ext) && media_url(base + "."@ + ext + "?"@ + query),
        lower(ext) == "opus"@ ==> media_url(base + "."@ + ext) && media_url(base + "."@ + ext + "?"@ + query),
        lower(ext) == "ogg"@ ==> media_url(base + "."@ + ext) && media_url(base + "."@ + ext + "?"@ + query),
        lower(ext) == "html"@ || lower(ext) == "jpg"@ || lower(ext) == "zip"@ || lower(ext)
            == "php"@ ==> !media_url(base + "."@ + ext),
{
    reveal_strlit(".");
    reveal_strlit("?");
    let u = base + "."@ + ext;
    assert forall|i: int| 0 <= i < u.len() implies #[trigger] u[i] != '?' by {
        if i < base.len() {
            assert(base.contains(base[i]));
        } else if i > base.len() {
            assert(ext.contains(ext[i - base.len() - 1]));
        }
    }
    crate::text::law_front_ends_at(u, '?', query);
    assert(u + "?"@ + query =~= u + seq!['?'] + query);
    crate::text::law_end_begins_behind(base, '.', ext);
    assert(u =~= base + seq!['.'] + ext);
    lemma_no_media_ext();
}

#[verifier::rlimit(40)]
proof fn lemma_no_media_ext()
    ensures
        !media_ext("html"@) && !media_ext("jpg"@) && !media_ext("zip"@) && !media_ext("php"@),
{
    reveal_strlit("html");
    reveal_strlit("jpg");
    reveal_strlit("zip");
    reveal_strlit("php");
    reveal_strlit("mp4");
    reveal_strlit("m4a");
    reveal_strlit("mp3");
    reveal_strlit("webm");
    reveal_strlit("mkv");
    reveal_strlit("mov");
    reveal_strlit("wav");
    reveal_strlit("flac");
    reveal_strlit("opus");
    reveal_strlit("ogg");
    assert("html"@ != "mp4"@) by {
        if "html"@.len() == "mp4"@.len() {
            assert("html"@[0] != "mp4"@[0]);
        }
    }
    assert("html"@ != "m4a"@) by {
        if "html"@.len() == "m4a"@.len() {
            assert("html"@[0] != "m4a"@[0]);
        }
    }
    assert("html"@ != "mp3"@) by {
        if "html"@.len() == "mp3"@.len() {
            assert("html"@[0] != "mp3"@[0]);
        }
    }
    assert("html"@ != "webm"@) by {
        if "html"@.len() == "webm"@.len() {
            assert("html"@[0] != "webm"@[0]);
        }
    }
    assert("html"@ != "mkv"@) by {
        if "html"@.len() == "mkv"@.len() {
            assert("html"@[0] != "mkv"@[0]);
        }
    }
    assert("html"@ != "mov"@) by {
        if "html"@.len() == "mov"@.len() {
            assert("html"@[0] != "mov"@[0]);
        }
    }
    assert("html"@ != "wav"@) by {
        if "html"@.len() == "wav"@.len() {
            assert("html"@[0] != "wav"@[0]);
        }
    }
    assert("html"@ != "flac"@) by {
        if "html"@.len() == "flac"@.len() {
            assert("html"@[0] != "flac"@[0]);
        }
    }
    assert("html"@ != "opus"@) by {
        if "html"@.len() == "opus"@.len() {
            assert("html"@[0] != "opus"@[0]);
        }
    }
    assert("html"@ != "ogg"@) by {
        if "html"@.len() == "ogg"@.len() {
            assert("html"@[0] != "ogg"@[0]);
        }
    }
    assert("jpg"@[0] != "mp4"@[0]);
    assert("jpg"@[0] != "m4a"@[0]);
    assert("jpg"@[0] != "mp3"@[0]);
    assert("jpg"@[0] != "mkv"@[0]);
    assert("jpg"@[0] != "mov"@[0]);
    assert("jpg"@[0] != "wav"@[0]);
    assert("jpg"@[0] != "ogg"@[0]);
    assert("zip"@[0] != "mp4"@[0]);
    assert("zip"@[0] != "m4a"@[0]);
    assert("zip"@[0] != "mp3"@[0]);
    assert("zip"@[0] != "mkv"@[0]);
    assert("zip"@[0] != "mov"@[0]);
    assert("zip"@[0] != "wav"@[0]);
    assert("zip"@[0] != "ogg"@[0]);
    assert("php"@[0] != "mp4"@[0]);
    assert("php"@[0] != "m4a"@[0]);
    assert("php"@[0] != "mp3"@[0]);
    assert("php"@[0] != "mkv"@[0]);
    assert("php"@[0] != "mov"@[0]);
    assert("php"@[0] != "wav"@[0]);
    assert("php"@[0] != "ogg"@[0]);
}

/// The host of a URL stands between the scheme and the path, in lower case.
#[verifier::rlimit(40)]
pub proof fn law_host_stands_before_the_path(scheme: Seq<char>, h: Seq<char>, path: Seq<char>)
    requires
        !scheme.contains(':') && !h.contains('/') && !h.contains(':') && !path.contains(':'),
    ensures
        authority(scheme + "://"@ + h + "/"@ + path) == Some(h),
        host(scheme + "://"@ + h + "/"@ + path) == lower(h),
        host(scheme + "://"@ + h) == lower(h),
        host(scheme).len() == 0,
{
    reveal_strlit("://");
    reveal_strlit("/");
    let rest = h + "/"@ + path;
    let u = scheme + "://"@ + h + "/"@ + path;
    assert(u =~= scheme + "://"@ + rest);
    assert forall|i: int| 0 <= i < rest.len() implies #[trigger] rest[i] != ':' by {
        if i < h.len() {
            assert(h.contains(h[i]));
        } else if i > h.len() {
            assert(path.contains(path[i - h.len() - 1]));
        }
    }
    crate::text::law_found_where_it_stands(scheme, "://"@, rest);
    crate::text::law_found_where_it_stands(rest, "://"@, rest);
    crate::text::law_front_ends_at(h, '/', path);
    assert(rest =~= h + seq!['/'] + path);
    crate::text::law_found_where_it_stands(scheme, "://"@, h);
    crate::text::law_found_where_it_stands(h, "://"@, h);
}

/// A link whose path ends in the extension of a file that can be checked names that
/// file. One that ends in the extension of a page does not, nor does one that has
/// no path.
#[verifier::rlimit(40)]
pub proof fn law_file_urls_are_known(h: Seq<char>, name: Seq<char>, ext: Seq<char>)
    requires
        !h.contains('/') && !h.contains(':') && !h.contains('?'),
        !name.contains('/') && !name.contains(':') && !name.contains('?'),
        !ext.contains('/') && !ext.contains(':') && !ext.contains('?') && !ext.contains('.'),
    ensures
        lower(ext) == "jpg"@ ==> file_url("https://"@ + h + "/"@ + name + "."@ + ext),
        lower(ext) == "jpeg"@ ==> file_url("https://"@ + h + "/"@ + name + "."@ + ext),
        lower(ext) == "png"@ ==> file_url("https://"@ + h + "/"@ + name + "."@ + ext),
        lower(ext) == "gif"@ ==> file_url("https://"@ + h + "/"@ + name + "."@ + ext),
        lower(ext) == "webp"@ ==> file_url("https://"@ + h + "/"@ + name + "."@ + ext),
        lower(ext) == "pdf"@ ==> file_url("https://"@ + h + "/"@ + name + "."@ + ext),
        lower(ext) == "zip"@ ==> file_url("https://"@ + h + "/"@ + name + "."@ + ext),
        lower(ext) == "epub"@ ==> file_url("https://"@ + h + "/"@ + name + "."@ + ext),
        lower(ext) == "json"@ ==> file_url("https://"@ + h + "/"@ + name + "."@ + ext),
        lower(ext) == "csv"@ ==> file_url("https://"@ + h + "/"@ + name + "."@ + ext),
        lower(ext) == "txt"@ ==> file_url("https://"@ + h + "/"@ + name + "."@ + ext),
        lower(ext) == "srt"@ ==> file_url("https://"@ + h + "/"@ + name + "."@ + ext),
        lower(ext) == "avi"@ ==> file_url("https://"@ + h + "/"@ + name + "."@ + ext),
        lower(ext) == "ts"@ ==> file_url("https://"@ + h + "/"@ + name + "."@ + ext),
        lower(ext) == "mp4"@ ==> file_url("https://"@ + h + "/"@ + name + "."@ + ext),
        lower(ext) == "m4a"@ ==> file_url("https://"@ + h + "/"@ + name + "."@ + ext),
        lower(ext) == "mp3"@ ==> file_url("https://"@ + h + "/"@ + name + "."@ + ext),
        lower(ext) == "webm"@ ==> file_url("https://"@ + h + "/"@ + name + "."@ + ext),
        lower(ext) == "mkv"@ ==> file_url("https://"@ + h + "/"@ + name + "."@ + ext),
        lower(ext) == "mov"@ ==> file_url("https://"@ + h + "/"@ + name + "."@ + ext),
        lower(ext) == "wav"@ ==> file_url("https://"@ + h + "/"@ + name + "."@ + ext),
        lower(ext) == "flac"@ ==> file_url("https://"@ + h + "/"@ + name + "."@ + ext),
        lower(ext) == "opus"@ ==> file_url("https://"@ + h + "/"@ + name + "."@ + ext),
        lower(ext) == "ogg"@ ==> file_url("https://"@ + h + "/"@ + name + "."@ + ext),
        lower(ext) == "html"@ || lower(ext) == "htm"@ ==> !file_url(
            "https://"@ + h + "/"@ + name + "."@ + ext,
        ),
        lower(ext) == "zip"@ ==> !file_url("https://"@ + name + "."@ + ext),
{
    lemma_file_parts(h, name, ext);
    lemma_no_media_ext();
    crate::verify::law_extensions_tell_the_level(lower(ext));
    assert(lower(lower(ext)) =~= lower(ext));
    reveal_strlit("jpg");
    reveal_strlit("jpeg");
    reveal_strlit("png");
    reveal_strlit("gif");
    reveal_strlit("webp");
    reveal_strlit("pdf");
    reveal_strlit("zip");
    reveal_strlit("epub");
    reveal_strlit("json");
    reveal_strlit("csv");
    reveal_strlit("txt");
    reveal_strlit("srt");
    reveal_strlit("avi");
    reveal_strlit("ts");
    reveal_strlit("mp4");
    reveal_strlit("m4a");
    reveal_strlit("mp3");
    reveal_strlit("webm");
    reveal_strlit("mkv");
    reveal_strlit("mov");
    reveal_strlit("wav");
    reveal_strlit("flac");
    reveal_strlit("opus");
    reveal_strlit("ogg");
    reveal_strlit("html");
    reveal_strlit("htm");
    lemma_pages_differ();
}

proof fn lemma_pages_differ()
    ensures
        !page_ext("jpg"@),
        !page_ext("jpeg"@),
        !page_ext("png"@),
        !page_ext("gif"@),
        !page_ext("webp"@),
        !page_ext("pdf"@),
        !page_ext("zip"@),
        !page_ext("epub"@),
        !page_ext("json"@),
        !page_ext("csv"@),
        !page_ext("txt"@),
        !page_ext("srt"@),
        !page_ext("avi"@),
        !page_ext("ts"@),
        !media_ext("htm"@),
{
    reveal_strlit("html");
    reveal_strlit("htm");
    reveal_strlit("jpg");
    reveal_strlit("jpeg");
    reveal_strlit("png");
    reveal_strlit("gif");
    reveal_strlit("webp");
    reveal_strlit("pdf");
    reveal_strlit("zip");
    reveal_strlit("epub");
    reveal_strlit("json");
    reveal_strlit("csv");
    reveal_strlit("txt");
    reveal_strlit("srt");
    reveal_strlit("avi");
    reveal_strlit("ts");
    reveal_strlit("mp4");
    reveal_strlit("m4a");
    reveal_strlit("mp3");
    reveal_strlit("webm");
    reveal_strlit("mkv");
    reveal_strlit("mov");
    reveal_strlit("wav");
    reveal_strlit("flac");
    reveal_strlit("opus");
    reveal_strlit("ogg");
    assert("jpg"@.len() != "html"@.len());
    assert("jpg"@[0] != "htm"@[0]);
    assert("jpeg"@[0] != "html"@[0]);
    assert("jpeg"@.len() != "htm"@.len());
    assert("png"@.len() != "html"@.len());
    assert("png"@[0] != "htm"@[0]);
    assert("gif"@.len() != "html"@.len());
    assert("gif"@[0] != "htm"@[0]);
    assert("webp"@[0] != "html"@[0]);
    assert("webp"@.len() != "htm"@.len());
    assert("pdf"@.len() != "html"@.len());
    assert("pdf"@[0] != "htm"@[0]);
    assert("zip"@.len() != "html"@.len());
    assert("zip"@[0] != "htm"@[0]);
    assert("epub"@[0] != "html"@[0]);
    assert("epub"@.len() != "htm"@.len());
    assert("json"@[0] != "html"@[0]);
    assert("json"@.len() != "htm"@.len());
    assert("csv"@.len() != "html"@.len());
    assert("csv"@[0] != "htm"@[0]);
    assert("txt"@.len() != "html"@.len());
    assert("txt"@[0] != "htm"@[0]);
    assert("srt"@.len() != "html"@.len());
    assert("srt"@[0] != "htm"@[0]);
    assert("avi"@.len() != "html"@.len());
    assert("avi"@[0] != "htm"@[0]);
    assert("ts"@.len() != "html"@.len());
    assert("ts"@.len() != "htm"@.len());
    assert("htm"@[0] != "mp4"@[0]);
    assert("htm"@[0] != "m4a"@[0]);
    assert("htm"@[0] != "mp3"@[0]);
    assert("htm"@.len() != "webm"@.len());
    assert("htm"@[0] != "mkv"@[0]);
    assert("htm"@[0] != "mov"@[0]);
    assert("htm"@[0] != "wav"@[0]);
    assert("htm"@.len() != "flac"@.len());
    assert("htm"@.len() != "opus"@.len());
    assert("htm"@[0] != "ogg"@[0]);
}

proof fn lemma_file_parts(h: Seq<char>, name: Seq<char>, ext: Seq<char>)
    requires
        !h.contains('/') && !h.contains(':') && !h.contains('?'),
        !name.contains('/') && !name.contains(':') && !name.contains('?'),
        !ext.contains('/') && !ext.contains(':') && !ext.contains('?') && !ext.contains('.'),
    ensures
        ({
            let u = "https://"@ + h + "/"@ + name + "."@ + ext;
            &&& has_path(u)
            &&& media_url(u) == media_ext(lower(ext))
            &&& url_ext(u) == (if plausible(lower(ext)) {
                lower(ext)
            } else {
                "bin"@
            })
        }),
        ({
            let v = "https://"@ + name + "."@ + ext;
            &&& !has_path(v)
            &&& media_url(v) == media_ext(lower(ext))
        }),
{
    lemma_file_with_path(h, name, ext);
    lemma_file_without_path(name, ext);
}

#[verifier::rlimit(40)]
proof fn lemma_file_with_path(h: Seq<char>, name: Seq<char>, ext: Seq<char>)
    requires
        !h.contains('/') && !h.contains(':') && !h.contains('?'),
        !name.contains('/') && !name.contains(':') && !name.contains('?'),
        !ext.contains('/') && !ext.contains(':') && !ext.contains('?') && !ext.contains('.'),
    ensures
        ({
            let u = "https://"@ + h + "/"@ + name + "."@ + ext;
            &&& has_path(u)
            &&& media_url(u) == media_ext(lower(ext))
            &&& url_ext(u) == (if plausible(lower(ext)) {
                lower(ext)
            } else {
                "bin"@
            })
        }),
{
    let u = "https://"@ + h + "/"@ + name + "."@ + ext;
    let path = name + "."@ + ext;
    let rest = h + "/"@ + path;
    let front = "https://"@ + h;
    let base = "https://"@ + h + "/"@ + name;
    assert(u =~= "https"@ + "://"@ + rest && u =~= front + seq!['/'] + path && path =~= name + seq![
        '.',
    ] + ext && u =~= base + seq!['.'] + ext && rest =~= h + seq!['/'] + path && !"https://"@.contains(
        '?',
    ) && !"https"@.contains(':') && !seq!['/'].contains('?') && !seq!['/'].contains(':') && !seq![
        '.',
    ].contains('?') && !seq!['.'].contains(':') && !seq!['.'].contains('/')) by {
        reveal_strlit("https://");
        reveal_strlit("https");
        reveal_strlit("://");
        reveal_strlit("/");
        reveal_strlit(".");
    }
    lemma_cat_without(name, seq!['.'], '?');
    lemma_cat_without(name + seq!['.'], ext, '?');
    lemma_cat_without(name, seq!['.'], ':');
    lemma_cat_without(name + seq!['.'], ext, ':');
    lemma_cat_without(name, seq!['.'], '/');
    lemma_cat_without(name + seq!['.'], ext, '/');
    lemma_cat_without("https://"@, h, '?');
    lemma_cat_without(front, seq!['/'], '?');
    lemma_cat_without(front + seq!['/'], path, '?');
    lemma_cat_without(h, seq!['/'], ':');
    lemma_cat_without(h + seq!['/'], path, ':');
    crate::text::law_front_ends_at(u, '?', u);
    crate::text::law_end_begins_behind(front, '/', path);
    crate::text::law_end_begins_behind(name, '.', ext);
    crate::text::law_end_begins_behind(base, '.', ext);
    assert(rest.contains('/')) by {
        assert(rest[h.len() as int] == '/');
    }
    assert(second(u, "://"@) == Some(rest)) by {
        reveal_strlit("://");
        crate::text::law_found_where_it_stands("https"@, "://"@, rest);
        crate::text::law_found_where_it_stands(rest, "://"@, rest);
    }
}

#[verifier::rlimit(40)]
proof fn lemma_file_without_path(name: Seq<char>, ext: Seq<char>)
    requires
        !name.contains('/') && !name.contains(':') && !name.contains('?'),
        !ext.contains('/') && !ext.contains(':') && !ext.contains('?') && !ext.contains('.'),
    ensures
        !has_path("https://"@ + name + "."@ + ext),
        media_url("https://"@ + name + "."@ + ext) == media_ext(lower(ext)),
{
    let v = "https://"@ + name + "."@ + ext;
    let path = name + "."@ + ext;
    let base = "https://"@ + name;
    assert(v =~= "https"@ + "://"@ + path && v =~= base + seq!['.'] + ext && path =~= name + seq!['.']
        + ext && !"https://"@.contains('?') && !"https"@.contains(':') && !seq!['.'].contains('?')
        && !seq!['.'].contains(':') && !seq!['.'].contains('/')) by {
        reveal_strlit("https://");
        reveal_strlit("https");
        reveal_strlit("://");
        reveal_strlit(".");
    }
    lemma_cat_without(name, seq!['.'], ':');
    lemma_cat_without(name + seq!['.'], ext, ':');
    lemma_cat_without(name, seq!['.'], '/');
    lemma_cat_without(name + seq!['.'], ext, '/');
    lemma_cat_without("https://"@, name, '?');
    lemma_cat_without(base, seq!['.'], '?');
    lemma_cat_without(base + seq!['.'], ext, '?');
    crate::text::law_front_ends_at(v, '?', v);
    crate::text::law_end_begins_behind(base, '.', ext);
    assert(second(v, "://"@) == Some(path)) by {
        reveal_strlit("://");
        crate::text::law_found_where_it_stands("https"@, "://"@, path);
        crate::text::law_found_where_it_stands(path, "://"@, path);
    }
}

/// A host gets at most one request in three tenths of a second: its next turn comes
/// that long after the last, or at once where that is past.
pub proof fn law_turns_are_apart(t: Instant, now: Instant)
    requires
        t.nanos + 300_000_000 <= u128::MAX,
    ensures
        next_turn(None, now) == now,
        t.nanos + 300_000_000 >= now.nanos ==> next_turn(Some(t), now).nanos == t.nanos + 300_000_000,
        t.nanos + 300_000_000 < now.nanos ==> next_turn(Some(t), now) == now,
{
}

/// The wait before the next attempt is half a second at first, twice that after each
/// attempt, sixteen seconds at most; a server that names its seconds gets those.
pub proof fn law_waits_double(attempt: u32, n: u64)
    ensures
        delay(None, 0).nanos == 500_000_000,
        attempt < 5 ==> delay(None, (attempt + 1) as u32).nanos == 2 * delay(None, attempt).nanos,
        attempt >= 5 ==> delay(None, attempt).nanos == 16_000_000_000,
        delay(Some(decimal(n as nat)), attempt).nanos == n * 1_000_000_000,
{
    crate::number::law_decimal_reads_back(n as nat, u64::MAX as nat);
    crate::number::lemma_decimal(n as nat);
    crate::text::lemma_trimmed_same(decimal(n as nat));
}

/// A song is fetched as a film where there is one, else as sound alone, under the
/// title that its page shows, else under its identifier.
pub proof fn law_songs_are_found(id: Seq<char>, mp3: bool, t: Seq<char>)
    requires
        !t.contains('&'),
        trimmed(t).len() > 0,
    ensures
        song(id, true, mp3, None) == Ok::<FoundView, Seq<char>>(
            FoundView {
                media: "https://cdn1.suno.ai/"@ + id + ".mp4"@,
                title: id,
                content_type: None,
            },
        ),
        song(id, false, true, Some(t)) == Ok::<FoundView, Seq<char>>(
            FoundView {
                media: "https://cdn1.suno.ai/"@ + id + ".mp3"@,
                title: t,
                content_type: None,
            },
        ),
        song(id, false, false, Some(t)) is Err,
{
    reveal_strlit(".");
    reveal_strlit("mp4");
    reveal_strlit("mp3");
    reveal_strlit(".mp4");
    reveal_strlit(".mp3");
    law_plain_text_is_kept(t);
    assert(song_media(id, "mp4"@) =~= "https://cdn1.suno.ai/"@ + id + ".mp4"@);
    assert(song_media(id, "mp3"@) =~= "https://cdn1.suno.ai/"@ + id + ".mp3"@);
}

/// A link to a media file is that file, titled by its name without the extension. A
/// page of the song host is a song; of any other link the server is asked.
#[verifier::rlimit(40)]
pub proof fn law_links_are_looked_at(base: Seq<char>, name: Seq<char>, ext: Seq<char>, url: Seq<char>)
    requires
        !base.contains('?') && !name.contains('?') && !ext.contains('?'),
        !name.contains('/') && !ext.contains('/') && !ext.contains('.'),
        name.len() > 0,
    ensures
        lower(ext) == "mp4"@ ==> look(base + "/"@ + name + "."@ + ext) == LookView::Media(
            FoundView {
                media: base + "/"@ + name + "."@ + ext,
                title: name,
                content_type: None,
            },
        ),
        lower(ext) == "mp3"@ ==> look(base + "/"@ + name + "."@ + ext) == LookView::Media(
            FoundView {
                media: base + "/"@ + name + "."@ + ext,
                title: name,
                content_type: None,
            },
        ),
        lower(ext) == "m4a"@ ==> look(base + "/"@ + name + "."@ + ext) == LookView::Media(
            FoundView {
                media: base + "/"@ + name + "."@ + ext,
                title: name,
                content_type: None,
            },
        ),
        lower(ext) == "webm"@ ==> look(base + "/"@ + name + "."@ + ext) == LookView::Media(
            FoundView {
                media: base + "/"@ + name + "."@ + ext,
                title: name,
                content_type: None,
            },
        ),
        !media_url(url) && (ends_with(host(url), "suno.com"@) || ends_with(host(url), "suno.ai"@))
            ==> look(url) == LookView::Suno,
        !media_url(url) && !ends_with(host(url), "suno.com"@) && !ends_with(host(url), "suno.ai"@)
            ==> look(url) == LookView::Ask,
{
    reveal_strlit("/");
    reveal_strlit(".");
    let front = base + "/"@ + name;
    assert forall|i: int| 0 <= i < front.len() implies #[trigger] front[i] != '?' by {
        if i < base.len() {
            assert(base.contains(base[i]));
        } else if i > base.len() {
            assert(name.contains(name[i - base.len() - 1]));
        }
    }
    law_media_urls_are_known(front, ext, seq![]);
    let u = base + "/"@ + name + "."@ + ext;
    assert forall|i: int| 0 <= i < u.len() implies #[trigger] u[i] != '?' by {
        if i < front.len() {
            assert(front.contains(front[i]));
        } else if i > front.len() {
            assert(ext.contains(ext[i - front.len() - 1]));
        }
    }
    crate::text::law_front_ends_at(u, '?', u);
    let file = name + "."@ + ext;
    assert forall|i: int| 0 <= i < file.len() implies #[trigger] file[i] != '/' by {
        if i < name.len() {
            assert(name.contains(name[i]));
        } else if i > name.len() {
            assert(ext.contains(ext[i - name.len() - 1]));
        }
    }
    assert(u =~= base + seq!['/'] + file);
    crate::text::law_end_begins_behind(base, '/', file);
    assert(file =~= name + seq!['.'] + ext);
    crate::text::law_end_begins_behind(name, '.', ext);
    assert(file.take(name.len() as int) =~= name);
}

/// A response is taken with a status from 200 to 299. With 429 or 503 it is asked for
/// again, up to the fourth time. Everything else fails, with the status in the words.
pub proof fn law_statuses_are_judged(status: u16, words: Seq<char>, attempt: u32)
    ensures
        200 <= status <= 299 ==> judged(status, words, attempt) == Ok::<Next, Seq<char>>(Next::Take),
        (status == 429 || status == 503) && attempt < 4 ==> judged(status, words, attempt) == Ok::<
            Next,
            Seq<char>,
        >(Next::Again),
        (status == 429 || status == 503) && attempt >= 4 ==> judged(status, words, attempt) is Err,
        (status < 200 || status > 299) && status != 429 && status != 503 ==> judged(
            status,
            words,
            attempt,
        ) is Err,
        judged(status, words, attempt) matches Err(e) ==> starts_with(e, "HTTP "@ + words),
        status == 404 ==> judged(status, words, attempt) == Err::<Next, Seq<char>>(
            "HTTP "@ + words + "（找不到這個檔案）"@,
        ),
        status == 401 || status == 403 ==> judged(status, words, attempt) == Err::<Next, Seq<char>>(
            "HTTP "@ + words + "（可能是私人的或連結已失效）"@,
        ),
{
    let front = "HTTP "@ + words;
    match judged(status, words, attempt) {
        Err(e) => {
            assert(e.take(front.len() as int) =~= front);
        },
        Ok(_) => {},
    }
}

/// A page is a page whatever the case of its type and whatever stands behind a
/// semicolon; nothing else is one.
pub proof fn law_pages_are_known(t: Seq<char>, rest: Seq<char>)
    requires
        !t.contains(';'),
        forall|i: int| 0 <= i < t.len() ==> !white(#[trigger] t[i]),
    ensures
        lower(t) == "text/html"@ ==> page_type(Some(t)) && page_type(Some(t + ";"@ + rest)),
        lower(t) != "text/html"@ ==> !page_type(Some(t)) && !page_type(Some(t + ";"@ + rest)),
        !page_type(None),
{
    reveal_strlit(";");
    crate::text::law_front_ends_at(t, ';', rest);
    assert(t + ";"@ + rest =~= t + seq![';'] + rest);
    crate::text::lemma_trimmed_same(t);
}

/// A file that a server offers lies at the address that was asked for, under the
/// server's type. Only a status from 200 to 299 offers one.
pub proof fn law_offers_keep_the_address(url: Seq<char>, a: Answer, allow_html: bool)
    ensures
        offered(url, a, allow_html) matches Ok(f) ==> f.media == url && f.content_type == text_of(
            a.content_type,
        ) && 200 <= a.status <= 299,
        a.status < 200 || a.status > 299 ==> offered(url, a, allow_html) == Err::<FoundView, Seq<char>>(
            "HTTP "@ + a.status_text@,
        ),
        200 <= a.status <= 299 && allow_html ==> offered(url, a, allow_html) is Ok,
        200 <= a.status <= 299 && a.content_type is None ==> offered(url, a, allow_html) is Ok,
{
}

/// The name in quotes that a server gives is the file's.
#[verifier::rlimit(40)]
pub proof fn law_given_names_are_taken(front: Seq<char>, name: Seq<char>, url: Seq<char>)
    requires
        name.len() > 0,
        !lower(front).contains('f'),
        !name.contains('"') && !name.contains(';') && !name.contains('*'),
        !front.contains('*'),
    ensures
        disposed_name(front + "filename=\""@ + name + "\""@) == Some(name),
        offered_title(url, Some(front + "filename=\""@ + name + "\""@)) == name,
{
    reveal_strlit("filename=\"");
    reveal_strlit("filename=");
    reveal_strlit("filename*=");
    reveal_strlit("\"");
    let v = front + "filename=\""@ + name + "\""@;
    let quoted = "\""@ + name + "\""@;
    let key = "filename="@;
    assert(v =~= front + key + quoted);
    assert(lower(key) =~= key);
    assert(lower(v) =~= lower(front) + key + lower(quoted));
    crate::text::law_found_where_it_stands(lower(front), key, lower(quoted));
    assert(v.skip((front.len() + key.len()) as int) =~= quoted);
    assert forall|i: int| 0 <= i < quoted.len() implies #[trigger] quoted[i] != ';' by {
        if 0 < i < name.len() + 1 {
            assert(name.contains(name[i - 1]));
        }
    }
    crate::text::law_front_ends_at(quoted, ';', quoted);
    assert(quoted[0] == '"' && quoted.last() == '"');
    crate::text::law_ends_are_trimmed(seq![], quoted, seq![]);
    assert(seq![] + quoted + seq![] =~= quoted);
    lemma_quotes_are_cut(name);
    // The encoded form is not there.
    crate::text::lemma_index_of(lower(v), "filename*="@);
    if index_of(lower(v), "filename*="@) is Some {
        let i = index_of(lower(v), "filename*="@)->0;
        let w = lower(v).skip(i).take(10);
        assert(w[8] == lower(v)[i + 8]);
        assert(v[i + 8] == '*');
        let j = i + 8;
        if j < front.len() {
            assert(front.contains(front[j]));
        } else if j < front.len() + 10 {
            assert(v[j] == "filename=\""@[j - front.len()]);
        } else if j < front.len() + 10 + name.len() {
            assert(v[j] == name[j - front.len() - 10]);
            assert(name.contains(name[j - front.len() - 10]));
        }
    }
}

proof fn lemma_quotes_are_cut(name: Seq<char>)
    requires
        name.len() > 0,
        !name.contains('"'),
    ensures
        cut_ends("\""@ + name + "\""@, Class::Is('"')) == name,
{
    reveal_strlit("\"");
    let q = "\""@ + name + "\""@;
    let k = Class::Is('"');
    assert(name.contains(name[0]) && name.contains(name.last()));
    assert(q[1] == name[0]);
    assert(q[name.len() as int] == name.last());
    crate::text::lemma_first_is(q, k, false, 1);
    let t = name + "\""@;
    assert(q.skip(1) =~= t);
    crate::text::lemma_after_last_is(t, k, false, name.len() as int);
    assert(t.take(name.len() as int) =~= name);
    crate::text::lemma_after_last_is(q, k, false, name.len() as int + 1);
    let u = "\""@ + name;
    assert(q.take(name.len() as int + 1) =~= u);
    crate::text::lemma_first_is(u, k, false, 1);
    assert(u.skip(1) =~= name);
}

/// A file without a given name goes by the last part of its address, where that has
/// a dot, else by the host.
#[verifier::rlimit(40)]
pub proof fn law_titles_come_from_the_address(h: Seq<char>, name: Seq<char>)
    requires
        !h.contains('/') && !h.contains(':') && !h.contains('?'),
        !name.contains('/') && !name.contains(':') && !name.contains('?'),
        name.len() > 0,
    ensures
        name.contains('.') ==> offered_title("https://"@ + h + "/"@ + name, None) == name,
        !name.contains('.') ==> offered_title("https://"@ + h + "/"@ + name, None) == h,
{
    let u = "https://"@ + h + "/"@ + name;
    let front = "https://"@ + h;
    assert(u =~= "https"@ + "://"@ + h + "/"@ + name && u =~= front + seq!['/'] + name
        && !"https"@.contains(':') && !"https://"@.contains('?') && !seq!['/'].contains('?')) by {
        reveal_strlit("https://");
        reveal_strlit("https");
        reveal_strlit("://");
        reveal_strlit("/");
    }
    law_host_stands_before_the_path("https"@, h, name);
    lemma_cat_without("https://"@, h, '?');
    lemma_cat_without(front, seq!['/'], '?');
    lemma_cat_without(front + seq!['/'], name, '?');
    crate::text::law_front_ends_at(u, '?', u);
    assert(u.last() == name.last());
    assert(name.contains(name.last()));
    crate::text::lemma_after_last_is(u, Class::Is('/'), false, u.len() as int);
    assert(u.take(u.len() as int) =~= u);
    crate::text::law_end_begins_behind(front, '/', name);
}

/// The digit that stands for a value below sixteen, in upper case.
pub open spec fn hex_digit(n: u8) -> u8 {
    if n < 10 {
        (48 + n) as u8
    } else {
        (55 + n) as u8
    }
}

/// The same in lower case.
pub open spec fn low_digit(n: u8) -> u8 {
    if n < 10 {
        (48 + n) as u8
    } else {
        (87 + n) as u8
    }
}

/// Every byte is read back from its escape, in digits of either case, and what is no
/// escape stays.
pub proof fn law_escapes_are_resolved(v: u8, rest: Seq<u8>)
    ensures
        unescaped(seq![37u8, hex_digit(v / 16), hex_digit(v % 16)] + rest) == seq![v] + unescaped(rest),
        unescaped(seq![37u8, low_digit(v / 16), low_digit(v % 16)] + rest) == seq![v] + unescaped(rest),
        v != 37 ==> unescaped(seq![v] + rest) == seq![v] + unescaped(rest),
        unescaped(seq![37u8]) == seq![37u8],
{
    let a = seq![37u8, hex_digit(v / 16), hex_digit(v % 16)] + rest;
    let b = seq![37u8, low_digit(v / 16), low_digit(v % 16)] + rest;
    assert(a.skip(3) =~= rest);
    assert(b.skip(3) =~= rest);
    assert((seq![v] + rest).skip(1) =~= rest);
    assert(seq![37u8].skip(1) =~= seq![]);
    assert(unescaped(seq![37u8].skip(1)) =~= seq![]);
    assert(v as int == 16 * (v as int / 16) + v as int % 16);
    assert(unescaped(seq![37u8]) =~= seq![37u8]);
}

/// A download passes exactly where it is as long as announced, or nothing was
/// announced, and it has ten kilobytes at least; it passes with its own length.
pub proof fn law_whole_downloads_pass(got: u64, total: u64)
    ensures
        whole(got, total) is Ok <==> got >= 10_240 && (total == 0 || got == total),
        whole(got, total) matches Ok(n) ==> n == got,
{
}

/// The sound is taken from the given file into the given one, as it is and without
/// the picture.
pub proof fn law_sound_is_copied(src: Seq<char>, dest: Seq<char>)
    ensures
        followed(audio_line(src, dest), "-i"@, src),
        followed(audio_line(src, dest), "-c:a"@, "copy"@),
        audio_line(src, dest).contains("-vn"@),
        audio_line(src, dest).contains("-y"@),
        audio_line(src, dest).last() == dest,
{
    let l = audio_line(src, dest);
    assert(l[3] == "-y"@);
    assert(l[4] == "-i"@ && l[5] == src);
    assert(l[6] == "-vn"@);
    assert(l[7] == "-c:a"@ && l[8] == "copy"@);
}

/// Where the title of a page for sharing is looked for, and how a character is given by
/// its number.
pub proof fn law_patterns_of_titles()
    ensures
        OG_TITLE_PATTERN@ == r#"(?is)<meta[^>]+(?:property|name)=["']og:title["'][^>]*content=["']([^"']*)["']"#@,
        OG_TITLE_BACK_PATTERN@ == r#"(?is)<meta[^>]+content=["']([^"']*)["'][^>]*(?:property|name)=["']og:title["']"#@,
        NUMERIC_PATTERN@ == r"&#(\d{1,7});"@,
{
}

/// The words for what is not fetched: a link without a song, a song that is nowhere, a
/// page, a host that keeps putting off, and a download that is not whole.
pub proof fn law_refusals_are_told(url: Seq<char>, a: Answer, words: Seq<char>, got: u64, total: u64)
    ensures
        first_id(url) is None ==> song_id(url) == Err::<Seq<char>, Seq<char>>(
            "這個 Suno 連結裡沒有歌曲 id"@,
        ),
        song(url, false, false, None) == Err::<FoundView, Seq<char>>(
            "Suno 的 CDN 上找不到這首（可能是私人的，或路徑規則又改了）"@,
        ),
        200 <= a.status <= 299 && page_type(text_of(a.content_type)) ==> offered(url, a, false) == Err::<
            FoundView,
            Seq<char>,
        >("這是一個網頁不是檔案。要存下網頁本身請加 --any"@),
        judged(429, words, 4) == Err::<Next, Seq<char>>(
            "HTTP "@ + words + "（退讓重試 "@ + decimal(4) + " 次後仍被限流）"@,
        ),
        total > 0 && got != total ==> whole(got, total) == Err::<u64, Seq<char>>(
            "下載不完整（"@ + decimal(got as nat) + "/"@ + decimal(total as nat) + " bytes）"@,
        ),
        total == 0 && got < 10_240 ==> whole(got, total) == Err::<u64, Seq<char>>(
            "檔案只有 "@ + decimal(got as nat) + " bytes，不像完整媒體檔"@,
        ),
{
}

/// The identifier of a song is the first in its link, in lower case.
pub proof fn law_song_is_named_in_its_link(front: Seq<char>, id: Seq<char>, rest: Seq<char>)
    requires
        crate::pattern::is_id(id),
        forall|i: int|
            0 <= i < front.len() ==> !crate::pattern::hexadecimal(#[trigger] front[i]),
    ensures
        song_id(front + id + rest) == Ok::<Seq<char>, Seq<char>>(lower(id)),
{
    let s = front + id + rest;
    let n = front.len() as int;
    assert(s.subrange(n, n + 36) =~= id);
    assert forall|j: int| 0 <= j < n implies !crate::pattern::id_at(s, j) by {
        if crate::pattern::id_at(s, j) {
            let w = s.subrange(j, j + 36);
            assert(w[0] == front[j]);
            assert(crate::pattern::id_char(0, w[0]));
        }
    }
    crate::pattern::lemma_first_id_is(s, n);
}

/// The encoded name that a server gives counts before the plain one, and a link without
/// name or host is called a download.
#[verifier::rlimit(40)]
pub proof fn law_encoded_names_count_first(front: Seq<char>, e: Seq<char>, url: Seq<char>)
    requires
        !lower(front).contains('f'),
        !e.contains(';') && !e.contains('\''),
        forall|i: int| 0 <= i < e.len() ==> !white(#[trigger] e[i]),
    ensures
        disposed_name(front + "filename*=UTF-8''"@ + e) == Some(percent_decoded(e)),
        named_part(url) is None && authority(url) is None ==> offered_title(url, None) == "download"@,
{
    reveal_strlit("filename*=UTF-8''");
    reveal_strlit("filename*=");
    reveal_strlit("''");
    let v = front + "filename*=UTF-8''"@ + e;
    let key = "filename*="@;
    let head = seq!['U', 'T', 'F', '-', '8'];
    let val = head + "''"@ + e;
    assert(v =~= front + key + val);
    assert(lower(key) =~= key);
    assert(lower(v) =~= lower(front) + key + lower(val));
    crate::text::law_found_where_it_stands(lower(front), key, lower(val));
    assert(v.skip((front.len() + key.len()) as int) =~= val);
    assert forall|i: int| 0 <= i < val.len() implies #[trigger] val[i] != ';' && !white(val[i]) by {
        if i >= 7 {
            assert(val[i] == e[i - 7]);
            assert(e.contains(e[i - 7]));
        }
    }
    crate::text::law_front_ends_at(val, ';', val);
    crate::text::lemma_trimmed_same(val);
    assert(!head.contains('\''));
    crate::text::law_found_where_it_stands(head, "''"@, e);
    crate::text::law_found_where_it_stands(e, "''"@, e);
}

/// Sound is taken out quietly and without asking.
pub proof fn law_sound_is_taken_quietly(src: Seq<char>, dest: Seq<char>)
    ensures
        followed(audio_line(src, dest), "-v"@, "error"@),
        audio_line(src, dest).contains("-nostdin"@),
        audio_line(src, dest).len() == 10,
{
    let l = audio_line(src, dest);
    assert(l[0] == "-v"@ && l[1] == "error"@ && l[2] == "-nostdin"@);
}

/// What a found is taken to say is what it holds.
pub proof fn law_said_of_found(x: Found)
    ensures
        x@.media == x.media@,
        x@.title == x.title@,
        x@.content_type == text_of(x.content_type),
{
}

/// What came of a search is what was found, or the words why not.
pub proof fn law_said_of_a_search(f: Found, e: String)
    ensures
        found(Ok(f)) == Ok::<FoundView, Seq<char>>(f@),
        found(Err(e)) == Err::<FoundView, Seq<char>>(e@),
{
}

/// The title of a page for sharing is the first group of the match, with the name in
/// front of the content or behind it.
pub proof fn law_shared_title_is_the_first_group(html: Seq<char>, title: Seq<char>)
    ensures
        regex_first(OG_TITLE_PATTERN@, html) matches Some(m) ==> (m.groups.len() > 1 && m.groups[1]
            == title ==> shared_title(html) == Some(title)),
        regex_first(OG_TITLE_PATTERN@, html) is None && regex_first(OG_TITLE_BACK_PATTERN@, html) is None
            ==> shared_title(html) is None,
        regex_first(OG_TITLE_PATTERN@, html) is None ==> (regex_first(OG_TITLE_BACK_PATTERN@, html)
            matches Some(m) ==> (m.groups.len() > 1 && m.groups[1] == title ==> shared_title(html)
            == Some(title))),
{
}

/// What a look is taken to say is what it holds.
pub proof fn law_said_of_look(x: Look)
    ensures
        match x {
            Look::Media(f) => x@ == (LookView::Media(f@)),
            Look::Suno => x@ == (LookView::Suno),
            Look::Ask => x@ == (LookView::Ask),
        },
{
}

/// No URL but one that ends in the extension of a media file names one, and the files
/// that are no media have a path and can be checked.
pub proof fn law_nothing_else_is_media(url: Seq<char>)
    ensures
        media_url(url) ==> {
            let e = lower(behind(no_query(url), Class::Is('.')));
            ||| e == "mp4"@
            ||| e == "m4a"@
            ||| e == "mp3"@
            ||| e == "webm"@
            ||| e == "mkv"@
            ||| e == "mov"@
            ||| e == "wav"@
            ||| e == "flac"@
            ||| e == "opus"@
            ||| e == "ogg"@
        },
        file_url(url) && !media_url(url) ==> has_path(url) && url_ext(url) != "html"@ && url_ext(url)
            != "htm"@ && ext_level(url_ext(url)) != Level::Integrity,
{
}

/// The turn of a host is the last that it was given.
pub proof fn law_turn_is_the_last_given(turns: Map<Seq<char>, Instant>, h: Seq<char>, other: Seq<char>, t: Instant)
    ensures
        turn_of(turns.insert(h, t), h) == Some(t),
        other != h ==> turn_of(turns.insert(h, t), other) == turn_of(turns, other),
        turn_of(Map::empty(), h) is None,
{
}

/// Whether the body of a response is taken.
pub open spec fn takes_body(content_type: Option<Seq<char>>, allow_html: bool) -> bool {
    allow_html || !page_type(content_type)
}

/// A page is no body for a file unless pages are wanted; everything else is.
pub proof fn law_pages_are_no_bodies(content_type: Option<Seq<char>>)
    ensures
        page_type(content_type) ==> !takes_body(content_type, false),
        !page_type(content_type) ==> takes_body(content_type, false),
        takes_body(content_type, true),
{
}

} // verus!
