//! The pictures of an ordinary page: which addresses in its HTML are pictures,
//! which of those are content, and which are worth fetching.
//!
//! A few patterns do for this; what is taken by mistake fails the check that
//! follows a download.

use vstd::prelude::*;
use crate::browser::sniff::{bare_mime, mime_of};
use crate::direct::{group, group_text, success};
use crate::number::{decimal, to_decimal};
use crate::pattern::{all_matches, first_match, groups_of, regex_all, regex_first};
use crate::text::{
    cat, contains, cut_end, has_prefix, has_suffix, has_text, lower, push_text, replace, replaced,
    same, split, split_text, starts_with, stem, stem_text, text_of, texts, to_lower, trim,
    trim_class_end, trimmed, white, words, words_of, Class,
};
use crate::web::{join, url_joined, url_read, Address, AddressView};

verus! {

/// How many pictures one page may become.
pub const MAX_ITEMS: usize = 200;

/// What is smaller is an icon, a badge or a tracking pixel.
pub const MIN_BYTES: u64 = 8192;

/// How many pictures are asked for their size at a time.
pub const HEAD_CONCURRENCY: usize = 8;

/// A picture to fetch.
#[derive(Debug, Clone, PartialEq, Eq)]
pub struct Image {
    pub url: String,
    /// Without the extension.
    pub title: String,
    pub content_type: Option<String>,
}

/// What a picture says.
#[verifier::ext_equal]
pub struct ImageView {
    pub url: Seq<char>,
    pub title: Seq<char>,
    pub content_type: Option<Seq<char>>,
}

impl View for Image {
    type V = ImageView;

    open spec fn view(&self) -> ImageView {
        ImageView {
            url: self.url@,
            title: self.title@,
            content_type: text_of(self.content_type),
        }
    }
}

pub open spec fn image_views(v: Seq<Image>) -> Seq<ImageView> {
    v.map_values(|i: Image| i@)
}

/// A page and its pictures.
#[derive(Debug)]
pub struct Page {
    pub title: String,
    pub images: Vec<Image>,
}

/// What a page says.
#[verifier::ext_equal]
pub struct PageView {
    pub title: Seq<char>,
    pub images: Seq<ImageView>,
}

impl View for Page {
    type V = PageView;

    open spec fn view(&self) -> PageView {
        PageView { title: self.title@, images: image_views(self.images@) }
    }
}

pub const IMG_PATTERN: &'static str = r#"(?is)<img\b[^>]*>"#;

pub const ATTR_PATTERN: &'static str = r#"(?is)\b(src|data-src|srcset|data-srcset)\s*=\s*["']([^"']+)["']"#;

pub const OG_PATTERN: &'static str = r#"(?is)<meta\b[^>]*property\s*=\s*["']og:image["'][^>]*content\s*=\s*["']([^"']+)["']"#;

pub const LINK_PATTERN: &'static str = r#"(?is)<a\b[^>]*href\s*=\s*["']([^"']+\.(?:png|jpe?g|gif|webp|avif)(?:\?[^"']*)?)["']"#;

pub const TITLE_PATTERN: &'static str = r#"(?is)<title[^>]*>(.*?)</title>"#;

/// A text with the characters that HTML gives by name put in.
pub open spec fn plain(s: Seq<char>) -> Seq<char> {
    let a = replaced(s, "&amp;"@, "&"@);
    let b = replaced(a, "&quot;"@, "\""@);
    let c = replaced(b, "&#39;"@, "'"@);
    let d = replaced(c, "&lt;"@, "<"@);
    replaced(d, "&gt;"@, ">"@)
}

fn unescape(s: &str) -> (r: String)
    ensures
        r@ == plain(s@),
{
    proof {
        reveal_strlit("&amp;");
        reveal_strlit("&quot;");
        reveal_strlit("&#39;");
        reveal_strlit("&lt;");
        reveal_strlit("&gt;");
    }
    let a = replace(s, "&amp;", "&");
    let b = replace(a.as_str(), "&quot;", "\"");
    let c = replace(b.as_str(), "&#39;", "'");
    let d = replace(c.as_str(), "&lt;", "<");
    replace(d.as_str(), "&gt;", ">")
}

/// What a number in a `srcset` weighs: the place of the double that it reads as
/// in the total order of doubles. Texts that are no numbers have no rank.
pub struct Rank {
    pub text: String,
    pub key: i64,
}

/// The place of 1.0 in the total order of doubles.
pub const RANK_OF_ONE: i64 = 4607182418800017408;

/// The rank of a text in a table, that of one where it has none.
pub open spec fn rank_of(ranks: Seq<Rank>, d: Seq<char>) -> i64
    decreases ranks.len(),
{
    if ranks.len() == 0 {
        RANK_OF_ONE
    } else if ranks[0].text@ == d {
        ranks[0].key
    } else {
        rank_of(ranks.skip(1), d)
    }
}

fn find_rank(ranks: &Vec<Rank>, d: &str) -> (r: i64)
    ensures
        r == rank_of(ranks@, d@),
{
    let mut i: usize = 0;
    proof {
        assert(ranks@.skip(0) =~= ranks@);
    }
    while i < ranks.len()
        invariant
            i <= ranks@.len(),
            rank_of(ranks@.skip(i as int), d@) == rank_of(ranks@, d@),
        decreases ranks@.len() - i,
    {
        proof {
            assert(ranks@.skip(i as int)[0] == ranks@[i as int]);
            assert(ranks@.skip(i as int).skip(1) =~= ranks@.skip(i + 1));
        }
        if same(ranks[i].text.as_str(), d) {
            return ranks[i].key;
        }
        i += 1;
    }
    RANK_OF_ONE
}

/// The number in the descriptor of a candidate in a `srcset`, where it has one.
pub open spec fn descriptor(part: Seq<char>) -> Option<Seq<char>> {
    let w = words(part);
    if w.len() > 1 {
        Some(cut_end(w[1], Class::Either('x', 'w')))
    } else {
        None
    }
}

/// What a candidate in a `srcset` weighs.
pub open spec fn part_rank(part: Seq<char>, ranks: Seq<Rank>) -> i64 {
    match descriptor(part) {
        Some(d) => rank_of(ranks, d),
        None => RANK_OF_ONE,
    }
}

/// The heaviest candidate among the parts, the last of equals, and its weight.
pub open spec fn heaviest(parts: Seq<Seq<char>>, ranks: Seq<Rank>) -> Option<(i64, Seq<char>)>
    decreases parts.len(),
{
    if parts.len() == 0 {
        None
    } else {
        let p = parts.last();
        let front = heaviest(parts.drop_last(), ranks);
        if words(p).len() == 0 {
            front
        } else {
            match front {
                Some(b) => if part_rank(p, ranks) >= b.0 {
                    Some((part_rank(p, ranks), words(p)[0]))
                } else {
                    front
                },
                None => Some((part_rank(p, ranks), words(p)[0])),
            }
        }
    }
}

/// The address in a `srcset` with the largest descriptor.
pub open spec fn largest(srcset: Seq<char>, ranks: Seq<Rank>) -> Option<Seq<char>> {
    match heaviest(split(srcset, Class::Is(',')), ranks) {
        Some(b) => Some(b.1),
        None => None,
    }
}

/// Picks the address in a `srcset` with the largest descriptor.
pub fn largest_in_srcset(srcset: &str, ranks: &Vec<Rank>) -> (r: Option<String>)
    ensures
        text_of(r) == largest(srcset@, ranks@),
{
    let parts = split_text(srcset, Class::Is(','));
    let mut best: Option<(i64, String)> = None;
    let mut i: usize = 0;
    while i < parts.len()
        invariant
            texts(parts@) == split(srcset@, Class::Is(',')),
            i <= parts@.len(),
            match best {
                Some(b) => heaviest(texts(parts@).take(i as int), ranks@) == Some((b.0, b.1@)),
                None => heaviest(texts(parts@).take(i as int), ranks@) is None,
            },
        decreases parts@.len() - i,
    {
        let p = parts[i].as_str();
        proof {
            let t = texts(parts@).take(i + 1);
            assert(t.drop_last() =~= texts(parts@).take(i as int));
            assert(t.last() == p@);
        }
        let w = words_of(p);
        proof {
            assert(texts(w@).len() == w@.len());
            assert forall|j: int| 0 <= j < w@.len() implies (#[trigger] texts(w@)[j]) == w@[j]@ by {}
        }
        if w.len() > 0 {
            let key: i64 = if w.len() > 1 {
                find_rank(ranks, trim_class_end(w[1].as_str(), Class::Either('x', 'w')))
            } else {
                RANK_OF_ONE
            };
            let better = match &best {
                Some(b) => key >= b.0,
                None => true,
            };
            proof {
                assert(texts(w@)[0] == w@[0]@);
                if w@.len() > 1 {
                    assert(texts(w@)[1] == w@[1]@);
                }
                assert(key == part_rank(p@, ranks@));
            }
            if better {
                best = Some((key, w[0].as_str().to_owned()));
            }
        }
        i += 1;
    }
    proof {
        assert(texts(parts@).take(i as int) =~= texts(parts@));
    }
    match best {
        Some(b) => Some(b.1),
        None => None,
    }
}

/// Whether an address is hardly ever that of content.
pub open spec fn junk(url: Seq<char>) -> bool {
    let l = lower(url);
    ||| starts_with(l, "data:"@)
    ||| crate::text::ends_with(l, ".svg"@)
    ||| contains(l, ".svg?"@)
    ||| contains(l, "avatar"@)
    ||| contains(l, "emoji"@)
    ||| contains(l, "badge"@)
    ||| contains(l, "favicon"@)
    ||| contains(l, "icon"@)
    ||| contains(l, "logo"@)
    ||| contains(l, "spinner"@)
    ||| contains(l, "pixel"@)
    ||| contains(l, "shields.io"@)
    ||| contains(l, "gravatar"@)
    ||| contains(l, "/s/"@)
    ||| contains(l, "sprite"@)
    ||| contains(l, "tracking"@)
}

pub fn is_junk(url: &str) -> (r: bool)
    ensures
        r == junk(url@),
{
    let lowered = to_lower(url);
    let l = lowered.as_str();
    has_prefix(l, "data:") || has_suffix(l, ".svg") || has_text(l, ".svg?") || has_text(l, "avatar")
        || has_text(l, "emoji") || has_text(l, "badge") || has_text(l, "favicon") || has_text(
        l,
        "icon",
    ) || has_text(l, "logo") || has_text(l, "spinner") || has_text(l, "pixel") || has_text(
        l,
        "shields.io",
    ) || has_text(l, "gravatar") || has_text(l, "/s/") || has_text(l, "sprite") || has_text(
        l,
        "tracking",
    )
}

/// The last of the parts that is not empty.
pub open spec fn last_part(segments: Seq<Seq<char>>) -> Option<Seq<char>>
    decreases segments.len(),
{
    if segments.len() == 0 {
        None
    } else if segments.last().len() > 0 {
        Some(segments.last())
    } else {
        last_part(segments.drop_last())
    }
}

/// The name of a picture by its address, without the extension.
pub open spec fn named(a: AddressView) -> Option<Seq<char>> {
    match a.segments {
        Some(s) => match last_part(s) {
            Some(last) => {
                let name = trimmed(
                    match stem(last) {
                        Some(t) => t,
                        None => last,
                    },
                );
                if name.len() > 0 {
                    Some(name)
                } else {
                    None
                }
            },
            None => None,
        },
        None => None,
    }
}

pub fn stem_of(url: &Address) -> (r: Option<String>)
    ensures
        text_of(r) == named(url@),
{
    let parts = match &url.segments {
        Some(v) => v,
        None => {
            return None;
        },
    };
    let mut i: usize = parts.len();
    proof {
        assert(texts(parts@).take(i as int) =~= texts(parts@));
    }
    while i > 0
        invariant
            url@.segments == Some(texts(parts@)),
            i <= parts@.len(),
            last_part(texts(parts@).take(i as int)) == last_part(texts(parts@)),
        decreases i,
    {
        let last = parts[i - 1].as_str();
        proof {
            let t = texts(parts@).take(i as int);
            assert(t.last() == last@);
            assert(t.drop_last() =~= texts(parts@).take(i - 1));
        }
        if last.unicode_len() > 0 {
            let name = trim(
                match stem_text(last) {
                    Some(s) => s,
                    None => last,
                },
            );
            return if name.unicode_len() > 0 {
                Some(name.to_owned())
            } else {
                None
            };
        }
        i -= 1;
    }
    None
}

/// What is known of an `<img>`: its plain source and the largest of its set.
#[verifier::ext_equal]
pub struct Sources {
    pub src: Option<Seq<char>>,
    pub best: Option<Seq<char>>,
}

/// The sources of an `<img>` by its attributes, the later of equals.
pub open spec fn sources(attrs: Seq<Seq<Seq<char>>>, ranks: Seq<Rank>) -> Sources
    decreases attrs.len(),
{
    if attrs.len() == 0 {
        Sources { src: None, best: None }
    } else {
        let s = sources(attrs.drop_last(), ranks);
        let name = lower(group(attrs.last(), 1));
        let v = plain(group(attrs.last(), 2));
        if name == "srcset"@ || name == "data-srcset"@ {
            Sources { best: largest(v, ranks), ..s }
        } else {
            Sources { src: Some(v), ..s }
        }
    }
}

/// The source to take: the largest of the set, else the plain one.
pub open spec fn source(s: Sources) -> Option<Seq<char>> {
    match s.best {
        Some(u) => Some(u),
        None => s.src,
    }
}

/// The attributes of the `<img>` tags.
pub open spec fn tag_attrs(tags: Seq<Seq<Seq<char>>>) -> Seq<Seq<Seq<Seq<char>>>> {
    tags.map_values(|t: Seq<Seq<char>>| regex_all(ATTR_PATTERN@, group(t, 0)))
}

pub open spec fn attrs_of(v: Seq<Vec<Vec<String>>>) -> Seq<Seq<Seq<Seq<char>>>> {
    v.map_values(|a: Vec<Vec<String>>| groups_of(a@))
}

/// The sources of tags with the given attributes, in their order.
pub open spec fn tag_sources(tags: Seq<Seq<Seq<Seq<char>>>>, ranks: Seq<Rank>) -> Seq<Seq<char>>
    decreases tags.len(),
{
    if tags.len() == 0 {
        seq![]
    } else {
        let front = tag_sources(tags.drop_last(), ranks);
        match source(sources(tags.last(), ranks)) {
            Some(u) => front.push(u),
            None => front,
        }
    }
}

/// The first groups of matches, with the names of characters put in.
pub open spec fn first_groups(matches: Seq<Seq<Seq<char>>>) -> Seq<Seq<char>> {
    matches.map_values(|g: Seq<Seq<char>>| plain(group(g, 1)))
}

pub open spec fn all_junk(urls: Seq<Seq<char>>) -> bool {
    forall|i: int| 0 <= i < urls.len() ==> junk(#[trigger] urls[i])
}

/// The addresses on a page that may be pictures: the images, then the links to
/// pictures and, where all of that is junk, the picture for sharing.
pub open spec fn addresses(
    imgs: Seq<Seq<Seq<Seq<char>>>>,
    links: Seq<Seq<Seq<char>>>,
    shared: Seq<Seq<Seq<char>>>,
    ranks: Seq<Rank>,
) -> Seq<Seq<char>> {
    let own = tag_sources(imgs, ranks) + first_groups(links);
    if all_junk(own) {
        own + first_groups(shared)
    } else {
        own
    }
}

/// The picture at an address, as the `n`th one.
pub open spec fn picture(a: AddressView, n: nat) -> ImageView {
    ImageView {
        url: a.text,
        title: match named(a) {
            Some(t) => t,
            None => "image-"@ + decimal(n),
        },
        content_type: None,
    }
}

pub open spec fn lists(images: Seq<ImageView>, url: Seq<char>) -> bool {
    exists|i: int| 0 <= i < images.len() && (#[trigger] images[i]).url == url
}

/// The pictures at the given addresses, given where each leads from the page: no
/// junk, only what lies on the web, each once, and not more than the limit.
pub open spec fn pictures(raw: Seq<Seq<char>>, leads: Seq<Option<AddressView>>) -> Seq<ImageView>
    decreases raw.len(),
{
    if raw.len() == 0 || raw.len() != leads.len() {
        seq![]
    } else {
        let front = pictures(raw.drop_last(), leads.drop_last());
        if front.len() >= MAX_ITEMS || junk(raw.last()) {
            front
        } else {
            match leads.last() {
                Some(a) => if (a.scheme == "http"@ || a.scheme == "https"@) && !lists(front, a.text) {
                    front.push(picture(a, front.len() + 1))
                } else {
                    front
                },
                None => front,
            }
        }
    }
}

/// Where each address leads from the page.
pub open spec fn leads_from(base: Seq<char>, raw: Seq<Seq<char>>) -> Seq<Option<AddressView>> {
    raw.map_values(|u: Seq<char>| url_joined(base, trimmed(u)))
}

pub open spec fn lead_view(a: Option<Address>) -> Option<AddressView> {
    match a {
        Some(x) => Some(x@),
        None => None,
    }
}

pub open spec fn lead_views(v: Seq<Option<Address>>) -> Seq<Option<AddressView>> {
    v.map_values(|a: Option<Address>| lead_view(a))
}

/// The title of a page, the host where it has none.
pub open spec fn page_title(html: Seq<char>, base: AddressView) -> Seq<char> {
    let given = match regex_first(TITLE_PATTERN@, html) {
        Some(m) => plain(trimmed(group(m.groups, 1))),
        None => seq![],
    };
    if given.len() > 0 {
        given
    } else {
        match base.host {
            Some(h) => h,
            None => "page"@,
        }
    }
}

/// The addresses in the HTML of a page that may be pictures.
pub open spec fn html_addresses(html: Seq<char>, ranks: Seq<Rank>) -> Seq<Seq<char>> {
    addresses(
        tag_attrs(regex_all(IMG_PATTERN@, html)),
        regex_all(LINK_PATTERN@, html),
        regex_all(OG_PATTERN@, html),
        ranks,
    )
}

/// A page and the pictures in its HTML.
pub open spec fn extracted(html: Seq<char>, base: AddressView, ranks: Seq<Rank>) -> PageView {
    PageView {
        title: page_title(html, base),
        images: pictures(
            html_addresses(html, ranks),
            leads_from(base.text, html_addresses(html, ranks)),
        ),
    }
}

fn find_title(html: &str, base: &Address) -> (r: String)
    ensures
        r@ == page_title(html@, base@),
{
    if let Some(m) = first_match(TITLE_PATTERN, html) {
        let t = unescape(trim(group_text(&m.groups, 1).as_str()));
        if t.as_str().unicode_len() > 0 {
            return t;
        }
    }
    match &base.host {
        Some(h) => h.as_str().to_owned(),
        None => "page".to_owned(),
    }
}

fn tag_source(attrs: &Vec<Vec<String>>, ranks: &Vec<Rank>) -> (r: Option<String>)
    ensures
        text_of(r) == source(sources(groups_of(attrs@), ranks@)),
{
    let mut src: Option<String> = None;
    let mut best: Option<String> = None;
    let mut i: usize = 0;
    while i < attrs.len()
        invariant
            i <= attrs@.len(),
            text_of(src) == sources(groups_of(attrs@).take(i as int), ranks@).src,
            text_of(best) == sources(groups_of(attrs@).take(i as int), ranks@).best,
        decreases attrs@.len() - i,
    {
        proof {
            let t = groups_of(attrs@).take(i + 1);
            assert(t.drop_last() =~= groups_of(attrs@).take(i as int));
            assert(t.last() == texts(attrs@[i as int]@));
        }
        let name = to_lower(group_text(&attrs[i], 1).as_str());
        let v = unescape(group_text(&attrs[i], 2).as_str());
        if same(name.as_str(), "srcset") || same(name.as_str(), "data-srcset") {
            best = largest_in_srcset(v.as_str(), ranks);
        } else {
            src = Some(v);
        }
        i += 1;
    }
    proof {
        assert(groups_of(attrs@).take(i as int) =~= groups_of(attrs@));
    }
    match best {
        Some(u) => Some(u),
        None => src,
    }
}

fn push_groups(raw: &mut Vec<String>, matches: &Vec<Vec<String>>)
    ensures
        texts(final(raw)@) == texts(old(raw)@) + first_groups(groups_of(matches@)),
{
    let ghost all = first_groups(groups_of(matches@));
    let mut i: usize = 0;
    while i < matches.len()
        invariant
            i <= matches@.len(),
            all == first_groups(groups_of(matches@)),
            texts(raw@) == texts(old(raw)@) + all.take(i as int),
        decreases matches@.len() - i,
    {
        let u = unescape(group_text(&matches[i], 1).as_str());
        proof {
            assert(groups_of(matches@)[i as int] == texts(matches@[i as int]@));
            assert(all[i as int] == u@);
            assert(all.take(i + 1) =~= all.take(i as int).push(u@));
        }
        let ghost done = texts(raw@);
        push_text(raw, u.as_str());
        proof {
            assert(texts(raw@) =~= texts(old(raw)@) + all.take(i + 1));
        }
        i += 1;
    }
    proof {
        assert(all.take(i as int) =~= all);
    }
}

fn only_junk(urls: &Vec<String>) -> (r: bool)
    ensures
        r == all_junk(texts(urls@)),
{
    let mut i: usize = 0;
    while i < urls.len()
        invariant
            i <= urls@.len(),
            forall|j: int| 0 <= j < i ==> junk(#[trigger] texts(urls@)[j]),
        decreases urls@.len() - i,
    {
        if !is_junk(urls[i].as_str()) {
            proof {
                assert(!junk(texts(urls@)[i as int]));
            }
            return false;
        }
        i += 1;
    }
    true
}

fn is_listed(images: &Vec<Image>, url: &str) -> (r: bool)
    ensures
        r == lists(image_views(images@), url@),
{
    let mut i: usize = 0;
    while i < images.len()
        invariant
            i <= images@.len(),
            forall|j: int| 0 <= j < i ==> (#[trigger] image_views(images@)[j]).url != url@,
        decreases images@.len() - i,
    {
        if same(images[i].url.as_str(), url) {
            proof {
                assert(image_views(images@)[i as int].url == url@);
            }
            return true;
        }
        i += 1;
    }
    false
}

/// The addresses that may be pictures, given the attributes of the images, the
/// links to pictures and the pictures for sharing, each by its groups.
pub fn collect(
    imgs: &Vec<Vec<Vec<String>>>,
    links: &Vec<Vec<String>>,
    shared: &Vec<Vec<String>>,
    ranks: &Vec<Rank>,
) -> (r: Vec<String>)
    ensures
        texts(r@) == addresses(attrs_of(imgs@), groups_of(links@), groups_of(shared@), ranks@),
{
    let ghost t = attrs_of(imgs@);
    let mut raw: Vec<String> = Vec::new();
    let mut i: usize = 0;
    proof {
        assert(texts(raw@) =~= tag_sources(t.take(0), ranks@));
    }
    while i < imgs.len()
        invariant
            t == attrs_of(imgs@),
            i <= imgs@.len(),
            texts(raw@) == tag_sources(t.take(i as int), ranks@),
        decreases imgs@.len() - i,
    {
        proof {
            assert(t.take(i + 1).drop_last() =~= t.take(i as int));
            assert(t.take(i + 1).last() == groups_of(imgs@[i as int]@));
        }
        if let Some(u) = tag_source(&imgs[i], ranks) {
            push_text(&mut raw, u.as_str());
        }
        i += 1;
    }
    proof {
        assert(t.take(i as int) =~= t);
    }
    push_groups(&mut raw, links);
    if only_junk(&raw) {
        push_groups(&mut raw, shared);
    }
    raw
}

/// Makes pictures of the given addresses, given where each leads from the page.
pub fn gather(raw: &Vec<String>, leads: Vec<Option<Address>>) -> (r: Vec<Image>)
    requires
        leads@.len() == raw@.len(),
    ensures
        image_views(r@) == pictures(texts(raw@), lead_views(leads@)),
{
    let ghost all = lead_views(leads@);
    let mut rest = leads;
    let mut images: Vec<Image> = Vec::new();
    let mut i: usize = 0;
    proof {
        assert(image_views(images@) =~= pictures(texts(raw@).take(0), all.take(0)));
        assert(lead_views(rest@) =~= all.skip(0));
    }
    while i < raw.len()
        invariant
            all.len() == raw@.len(),
            i <= raw@.len(),
            rest@.len() == raw@.len() - i,
            lead_views(rest@) == all.skip(i as int),
            image_views(images@) == pictures(texts(raw@).take(i as int), all.take(i as int)),
        decreases raw@.len() - i,
    {
        let u = raw[i].as_str();
        let ghost done = image_views(images@);
        let ghost before = rest@;
        let lead = rest.remove(0);
        proof {
            let t = texts(raw@).take(i + 1);
            assert(t.drop_last() =~= texts(raw@).take(i as int));
            assert(t.last() == u@);
            assert(all.take(i + 1).drop_last() =~= all.take(i as int));
            assert(lead_views(before)[0] == all.skip(i as int)[0]);
            assert(all.take(i + 1).last() == all[i as int]);
            assert(lead_views(rest@) =~= all.skip(i + 1)) by {
                assert forall|j: int| 0 <= j < rest@.len() implies (#[trigger] lead_views(rest@)[j])
                    == all.skip(i + 1)[j] by {
                    assert(rest@[j] == before[j + 1]);
                    assert(lead_views(before)[j + 1] == all.skip(i as int)[j + 1]);
                }
            }
            assert(done.len() == images@.len());
        }
        if images.len() < MAX_ITEMS && !is_junk(u) {
            if let Some(a) = lead {
                if (same(a.scheme.as_str(), "http") || same(a.scheme.as_str(), "https"))
                    && !is_listed(&images, a.text.as_str()) {
                    let title = match stem_of(&a) {
                        Some(t) => t,
                        None => cat("image-", to_decimal((images.len() + 1) as u64).as_str()),
                    };
                    let ghost av = a@;
                    let image = Image { url: a.text, title, content_type: None };
                    proof {
                        assert(image@ =~= picture(av, done.len() + 1));
                    }
                    images.push(image);
                    proof {
                        assert(image_views(images@) =~= done.push(image@));
                    }
                }
            }
        }
        i += 1;
    }
    proof {
        assert(texts(raw@).take(i as int) =~= texts(raw@));
        assert(all.take(i as int) =~= all);
    }
    images
}

fn resolve_all(base: &str, raw: &Vec<String>) -> (r: Vec<Option<Address>>)
    ensures
        lead_views(r@) == leads_from(base@, texts(raw@)),
        r@.len() == raw@.len(),
{
    let ghost all = leads_from(base@, texts(raw@));
    let mut out: Vec<Option<Address>> = Vec::new();
    let mut i: usize = 0;
    while i < raw.len()
        invariant
            all == leads_from(base@, texts(raw@)),
            i <= raw@.len(),
            out@.len() == i,
            lead_views(out@) == all.take(i as int),
        decreases raw@.len() - i,
    {
        let ghost done = lead_views(out@);
        let a = join(base, trim(raw[i].as_str()));
        let ghost av = lead_view(a);
        proof {
            assert(texts(raw@)[i as int] == raw@[i as int]@);
            assert(all[i as int] == av);
            assert(all.take(i + 1) =~= all.take(i as int).push(av));
        }
        out.push(a);
        proof {
            assert(lead_views(out@) =~= done.push(av));
        }
        i += 1;
    }
    proof {
        assert(all.take(i as int) =~= all);
    }
    out
}

fn find_attrs(html: &str) -> (r: Vec<Vec<Vec<String>>>)
    ensures
        attrs_of(r@) == tag_attrs(regex_all(IMG_PATTERN@, html@)),
{
    let tags = all_matches(IMG_PATTERN, html);
    let ghost all = tag_attrs(groups_of(tags@));
    let mut out: Vec<Vec<Vec<String>>> = Vec::new();
    let mut i: usize = 0;
    while i < tags.len()
        invariant
            all == tag_attrs(groups_of(tags@)),
            i <= tags@.len(),
            attrs_of(out@) == all.take(i as int),
        decreases tags@.len() - i,
    {
        let ghost done = attrs_of(out@);
        let tag = group_text(&tags[i], 0);
        let attrs = all_matches(ATTR_PATTERN, tag.as_str());
        let ghost av = groups_of(attrs@);
        proof {
            assert(groups_of(tags@)[i as int] == texts(tags@[i as int]@));
            assert(all[i as int] == av);
            assert(all.take(i + 1) =~= all.take(i as int).push(av));
        }
        out.push(attrs);
        proof {
            assert(attrs_of(out@) =~= done.push(av));
        }
        i += 1;
    }
    proof {
        assert(all.take(i as int) =~= all);
    }
    out
}

/// Finds the pictures in the HTML of a page. `ranks` weighs the numbers that
/// `descriptors` lists.
pub fn extract(html: &str, base: &Address, ranks: &Vec<Rank>) -> (r: Page)
    ensures
        r@ == extracted(html@, base@, ranks@),
{
    let title = find_title(html, base);
    let imgs = find_attrs(html);
    let links = all_matches(LINK_PATTERN, html);
    let shared = all_matches(OG_PATTERN, html);
    let raw = collect(&imgs, &links, &shared, ranks);
    let leads = resolve_all(base.text.as_str(), &raw);
    let images = gather(&raw, leads);
    Page { title, images }
}

/// The descriptors in the candidates of a `srcset`.
pub open spec fn part_descriptors(parts: Seq<Seq<char>>) -> Seq<Seq<char>>
    decreases parts.len(),
{
    if parts.len() == 0 {
        seq![]
    } else {
        match descriptor(parts.last()) {
            Some(d) => part_descriptors(parts.drop_last()).push(d),
            None => part_descriptors(parts.drop_last()),
        }
    }
}

/// The descriptors in the values of the attributes of one tag.
pub open spec fn attr_descriptors(attrs: Seq<Seq<Seq<char>>>) -> Seq<Seq<char>>
    decreases attrs.len(),
{
    if attrs.len() == 0 {
        seq![]
    } else {
        attr_descriptors(attrs.drop_last()) + part_descriptors(
            split(plain(group(attrs.last(), 2)), Class::Is(',')),
        )
    }
}

/// The descriptors in tags with the given attributes.
pub open spec fn tag_descriptors(tags: Seq<Seq<Seq<Seq<char>>>>) -> Seq<Seq<char>>
    decreases tags.len(),
{
    if tags.len() == 0 {
        seq![]
    } else {
        tag_descriptors(tags.drop_last()) + attr_descriptors(tags.last())
    }
}

fn push_part_descriptors(out: &mut Vec<String>, parts: &Vec<String>)
    ensures
        texts(final(out)@) == texts(old(out)@) + part_descriptors(texts(parts@)),
{
    let ghost p = texts(parts@);
    let mut i: usize = 0;
    proof {
        assert(texts(out@) =~= texts(old(out)@) + part_descriptors(p.take(0)));
    }
    while i < parts.len()
        invariant
            p == texts(parts@),
            i <= parts@.len(),
            texts(out@) == texts(old(out)@) + part_descriptors(p.take(i as int)),
        decreases parts@.len() - i,
    {
        let w = words_of(parts[i].as_str());
        proof {
            assert(p.take(i + 1).drop_last() =~= p.take(i as int));
            assert(p.take(i + 1).last() == parts@[i as int]@);
            assert(texts(w@).len() == w@.len());
        }
        if w.len() > 1 {
            proof {
                assert(texts(w@)[1] == w@[1]@);
            }
            push_text(out, trim_class_end(w[1].as_str(), Class::Either('x', 'w')));
        }
        proof {
            assert(texts(out@) =~= texts(old(out)@) + part_descriptors(p.take(i + 1)));
        }
        i += 1;
    }
    proof {
        assert(p.take(i as int) =~= p);
    }
}

fn push_attr_descriptors(out: &mut Vec<String>, attrs: &Vec<Vec<String>>)
    ensures
        texts(final(out)@) == texts(old(out)@) + attr_descriptors(groups_of(attrs@)),
{
    let ghost a = groups_of(attrs@);
    let mut i: usize = 0;
    proof {
        assert(texts(out@) =~= texts(old(out)@) + attr_descriptors(a.take(0)));
    }
    while i < attrs.len()
        invariant
            a == groups_of(attrs@),
            i <= attrs@.len(),
            texts(out@) == texts(old(out)@) + attr_descriptors(a.take(i as int)),
        decreases attrs@.len() - i,
    {
        let v = unescape(group_text(&attrs[i], 2).as_str());
        let parts = split_text(v.as_str(), Class::Is(','));
        proof {
            assert(a.take(i + 1).drop_last() =~= a.take(i as int));
            assert(a.take(i + 1).last() == texts(attrs@[i as int]@));
        }
        push_part_descriptors(out, &parts);
        proof {
            assert(texts(out@) =~= texts(old(out)@) + attr_descriptors(a.take(i + 1)));
        }
        i += 1;
    }
    proof {
        assert(a.take(i as int) =~= a);
    }
}

/// The numbers that `extract` needs ranks for.
pub fn descriptors(html: &str) -> (r: Vec<String>)
    ensures
        texts(r@) == tag_descriptors(tag_attrs(regex_all(IMG_PATTERN@, html@))),
{
    let imgs = find_attrs(html);
    let ghost t = attrs_of(imgs@);
    let mut out: Vec<String> = Vec::new();
    let mut i: usize = 0;
    proof {
        assert(texts(out@) =~= tag_descriptors(t.take(0)));
    }
    while i < imgs.len()
        invariant
            t == attrs_of(imgs@),
            i <= imgs@.len(),
            texts(out@) == tag_descriptors(t.take(i as int)),
        decreases imgs@.len() - i,
    {
        proof {
            assert(t.take(i + 1).drop_last() =~= t.take(i as int));
            assert(t.take(i + 1).last() == groups_of(imgs@[i as int]@));
        }
        push_attr_descriptors(&mut out, &imgs[i]);
        i += 1;
    }
    proof {
        assert(t.take(i as int) =~= t);
    }
    out
}

/// What a server said of a picture before it was fetched.
pub struct Reply {
    pub status: u16,
    pub content_type: Option<String>,
    pub length: Option<u64>,
}

/// Whether a content type can be that of a picture.
pub open spec fn picture_type(ct: Option<Seq<char>>) -> bool {
    match ct {
        Some(t) => starts_with(t, "image/"@) || t == "application/octet-stream"@,
        None => true,
    }
}

/// The bare content type of a reply.
pub open spec fn reply_type(r: Reply) -> Option<Seq<char>> {
    match r.content_type {
        Some(t) => Some(bare_mime(t@)),
        None => None,
    }
}

/// What stays of a picture. One that the server did not speak of stays, and so
/// does one whose size it does not give; a failure, another type and a small
/// size drop it.
pub open spec fn sifted(img: ImageView, reply: Option<Reply>) -> Option<ImageView> {
    match reply {
        None => Some(img),
        Some(r) => if !success(r.status) || !picture_type(reply_type(r)) || (r.length matches Some(
            n,
        ) && n < MIN_BYTES) {
            None
        } else {
            Some(ImageView { content_type: reply_type(r), ..img })
        },
    }
}

/// What stays of the pictures, in their order.
pub open spec fn all_sifted(images: Seq<ImageView>, replies: Seq<Option<Reply>>) -> Seq<ImageView>
    decreases images.len(),
{
    if images.len() == 0 || images.len() != replies.len() {
        seq![]
    } else {
        let front = all_sifted(images.drop_last(), replies.drop_last());
        match sifted(images.last(), replies.last()) {
            Some(i) => front.push(i),
            None => front,
        }
    }
}

fn sift(img: Image, reply: &Option<Reply>) -> (r: Option<Image>)
    ensures
        match r {
            Some(i) => sifted(img@, *reply) == Some(i@),
            None => sifted(img@, *reply) is None,
        },
{
    let ghost before = img@;
    match reply {
        None => Some(img),
        Some(a) => {
            if !(200 <= a.status && a.status < 300) {
                return None;
            }
            let ct = match &a.content_type {
                Some(t) => Some(mime_of(t.as_str())),
                None => None,
            };
            if let Some(t) = &ct {
                if !has_prefix(t.as_str(), "image/") && !same(
                    t.as_str(),
                    "application/octet-stream",
                ) {
                    return None;
                }
            }
            if let Some(n) = a.length {
                if n < MIN_BYTES {
                    return None;
                }
            }
            let kept = Image { url: img.url, title: img.title, content_type: ct };
            proof {
                assert(kept@ =~= (ImageView { content_type: reply_type(*a), ..before }));
            }
            Some(kept)
        },
    }
}

/// The address of a page to look through.
pub fn page_address(url: &str) -> (r: Result<Address, String>)
    ensures
        match (r, url_read(url@)) {
            (Ok(a), Ok(v)) => a@ == v,
            (Err(e), Err(why)) => e@ == "不是合法網址："@ + why,
            _ => false,
        },
{
    match Address::parse(url) {
        Ok(a) => Ok(a),
        Err(e) => Err(cat("不是合法網址：", e.as_str())),
    }
}

/// Refuses a page that did not come.
pub fn page_came(status: u16) -> (r: Result<(), String>)
    ensures
        match r {
            Ok(_) => success(status),
            Err(e) => !success(status) && e@ == "HTTP "@ + decimal(status as nat),
        },
{
    if 200 <= status && status < 300 {
        Ok(())
    } else {
        Err(cat("HTTP ", to_decimal(status as u64).as_str()))
    }
}

/// Refuses a page without a picture.
pub fn some_images(page: Page) -> (r: Result<Page, String>)
    ensures
        match r {
            Ok(p) => p == page && page.images@.len() > 0,
            Err(e) => page.images@.len() == 0 && e@ == "這一頁上找不到圖片"@,
        },
{
    if page.images.len() == 0 {
        Err("這一頁上找不到圖片".to_owned())
    } else {
        Ok(page)
    }
}

/// The page with the pictures that are worth fetching, given what the servers
/// said of each.
pub fn scrape(page: Page, replies: &Vec<Option<Reply>>) -> (r: Result<Page, String>)
    requires
        replies@.len() == page.images@.len(),
    ensures
        match r {
            Ok(p) => {
                &&& p@.title == page@.title
                &&& p@.images == all_sifted(page@.images, replies@)
                &&& p@.images.len() > 0
            },
            Err(e) => all_sifted(page@.images, replies@).len() == 0 && e@
                == "這一頁上的圖片都太小或不是圖片（圖示、徽章之類）"@,
        },
{
    let ghost all = page@.images;
    let mut rest = page.images;
    let title = page.title;
    let n: usize = rest.len();
    let mut out: Vec<Image> = Vec::new();
    let mut i: usize = 0;
    proof {
        assert(image_views(out@) =~= all_sifted(all.take(0), replies@.take(0)));
        assert(image_views(rest@) =~= all.skip(0));
    }
    while i < n
        invariant
            n == all.len(),
            n == replies@.len(),
            i <= n,
            rest@.len() == n - i,
            image_views(rest@) == all.skip(i as int),
            image_views(out@) == all_sifted(all.take(i as int), replies@.take(i as int)),
        decreases n - i,
    {
        let ghost done = image_views(out@);
        let ghost before = rest@;
        let img = rest.remove(0);
        proof {
            assert(img@ == all[i as int]) by {
                assert(image_views(before)[0] == img@);
                assert(all.skip(i as int)[0] == all[i as int]);
            }
            assert(image_views(rest@) =~= all.skip(i + 1)) by {
                assert forall|j: int| 0 <= j < rest@.len() implies (#[trigger] image_views(rest@)[j])
                    == all.skip(i + 1)[j] by {
                    assert(rest@[j] == before[j + 1]);
                    assert(image_views(before)[j + 1] == all.skip(i as int)[j + 1]);
                }
            }
            assert(all.take(i + 1).drop_last() =~= all.take(i as int));
            assert(replies@.take(i + 1).drop_last() =~= replies@.take(i as int));
            assert(all.take(i + 1).last() == img@);
            assert(replies@.take(i + 1).last() == replies@[i as int]);
        }
        if let Some(kept) = sift(img, &replies[i]) {
            out.push(kept);
            proof {
                assert(image_views(out@) =~= done.push(kept@));
            }
        }
        i += 1;
    }
    proof {
        assert(all.take(i as int) =~= all);
        assert(replies@.take(i as int) =~= replies@);
        assert(image_views(out@).len() == out@.len());
    }
    if out.len() == 0 {
        return Err("這一頁上的圖片都太小或不是圖片（圖示、徽章之類）".to_owned());
    }
    Ok(Page { title, images: out })
}

/// The pictures of a page: at most as many as the limit, no address twice.
pub proof fn law_pictures_are_few_and_distinct(raw: Seq<Seq<char>>, leads: Seq<Option<AddressView>>)
    ensures
        pictures(raw, leads).len() <= MAX_ITEMS,
        forall|i: int, j: int|
            0 <= i < j < pictures(raw, leads).len() ==> (#[trigger] pictures(raw, leads)[i]).url != (
            #[trigger] pictures(raw, leads)[j]).url,
    decreases raw.len(),
{
    if raw.len() > 0 && raw.len() == leads.len() {
        let front = pictures(raw.drop_last(), leads.drop_last());
        law_pictures_are_few_and_distinct(raw.drop_last(), leads.drop_last());
        let all = pictures(raw, leads);
        if all.len() > front.len() {
            assert forall|i: int, j: int| 0 <= i < j < all.len() implies (#[trigger] all[i]).url != (
            #[trigger] all[j]).url by {
                assert(all[i] == front[i]);
                if j < front.len() {
                    assert(all[j] == front[j]);
                }
            }
        }
    }
}

/// The picture for sharing is only a way out: where anything on the page is no
/// junk, it plays no part.
pub proof fn law_shared_picture_is_a_fallback(
    imgs: Seq<Seq<Seq<Seq<char>>>>,
    links: Seq<Seq<Seq<char>>>,
    shared: Seq<Seq<Seq<char>>>,
    ranks: Seq<Rank>,
)
    requires
        !all_junk(tag_sources(imgs, ranks) + first_groups(links)),
    ensures
        addresses(imgs, links, shared, ranks) == addresses(imgs, links, seq![], ranks),
{
}

/// The address that is taken from a `srcset` is the one of a candidate, and no
/// candidate weighs more.
pub proof fn law_largest_weighs_most(parts: Seq<Seq<char>>, ranks: Seq<Rank>)
    ensures
        heaviest(parts, ranks) matches Some(b) ==> {
            &&& exists|i: int|
                0 <= i < parts.len() && words(#[trigger] parts[i]).len() > 0 && words(parts[i])[0] == b.1
                    && part_rank(parts[i], ranks) == b.0
            &&& forall|i: int|
                0 <= i < parts.len() && words(#[trigger] parts[i]).len() > 0 ==> part_rank(parts[i], ranks)
                    <= b.0
        },
        heaviest(parts, ranks) is None ==> forall|i: int|
            0 <= i < parts.len() ==> words(#[trigger] parts[i]).len() == 0,
    decreases parts.len(),
{
    if parts.len() > 0 {
        let front = parts.drop_last();
        law_largest_weighs_most(front, ranks);
        let n = parts.len() - 1;
        assert forall|i: int| 0 <= i < n implies #[trigger] parts[i] == front[i] by {}
        match heaviest(parts, ranks) {
            Some(b) => {
                if heaviest(front, ranks) is Some && heaviest(front, ranks) == heaviest(parts, ranks) {
                    let i = choose|i: int|
                        0 <= i < front.len() && words(#[trigger] front[i]).len() > 0 && words(front[i])[0]
                            == b.1 && part_rank(front[i], ranks) == b.0;
                    assert(parts[i] == front[i]);
                } else {
                    assert(words(parts[n]).len() > 0 && words(parts[n])[0] == b.1 && part_rank(
                        parts[n],
                        ranks,
                    ) == b.0);
                }
                assert forall|i: int|
                    0 <= i < parts.len() && words(#[trigger] parts[i]).len() > 0 implies part_rank(
                    parts[i],
                    ranks,
                ) <= b.0 by {
                    if i < n {
                        assert(parts[i] == front[i]);
                    }
                }
            },
            None => {
                assert forall|i: int| 0 <= i < parts.len() implies words(#[trigger] parts[i]).len()
                    == 0 by {
                    if i < n {
                        assert(parts[i] == front[i]);
                    }
                }
            },
        }
    }
}

/// Whether two tables of ranks say the same of the listed numbers.
pub open spec fn agree(a: Seq<Rank>, b: Seq<Rank>, numbers: Seq<Seq<char>>) -> bool {
    forall|i: int| 0 <= i < numbers.len() ==> rank_of(a, #[trigger] numbers[i]) == rank_of(b, numbers[i])
}

proof fn lemma_parts_agree(parts: Seq<Seq<char>>, a: Seq<Rank>, b: Seq<Rank>)
    requires
        agree(a, b, part_descriptors(parts)),
    ensures
        heaviest(parts, a) == heaviest(parts, b),
    decreases parts.len(),
{
    if parts.len() > 0 {
        let front = parts.drop_last();
        let all = part_descriptors(parts);
        let f = part_descriptors(front);
        assert forall|i: int| 0 <= i < f.len() implies rank_of(a, #[trigger] f[i]) == rank_of(b, f[i]) by {
            assert(all[i] == f[i]);
        }
        lemma_parts_agree(front, a, b);
        if descriptor(parts.last()) is Some {
            assert(all[all.len() - 1] == descriptor(parts.last())->0);
        }
    }
}

proof fn lemma_attrs_agree(attrs: Seq<Seq<Seq<char>>>, a: Seq<Rank>, b: Seq<Rank>)
    requires
        agree(a, b, attr_descriptors(attrs)),
    ensures
        sources(attrs, a) == sources(attrs, b),
    decreases attrs.len(),
{
    if attrs.len() > 0 {
        let front = attrs.drop_last();
        let all = attr_descriptors(attrs);
        let f = attr_descriptors(front);
        let parts = split(plain(group(attrs.last(), 2)), Class::Is(','));
        let p = part_descriptors(parts);
        assert forall|i: int| 0 <= i < f.len() implies rank_of(a, #[trigger] f[i]) == rank_of(b, f[i]) by {
            assert(all[i] == f[i]);
        }
        assert forall|i: int| 0 <= i < p.len() implies rank_of(a, #[trigger] p[i]) == rank_of(b, p[i]) by {
            assert(all[f.len() + i] == p[i]);
        }
        lemma_attrs_agree(front, a, b);
        lemma_parts_agree(parts, a, b);
    }
}

/// The ranks of the numbers that `descriptors` lists are all that `extract`
/// looks at: tables that say the same of them give the same addresses.
pub proof fn law_listed_ranks_suffice(
    imgs: Seq<Seq<Seq<Seq<char>>>>,
    links: Seq<Seq<Seq<char>>>,
    shared: Seq<Seq<Seq<char>>>,
    a: Seq<Rank>,
    b: Seq<Rank>,
)
    requires
        agree(a, b, tag_descriptors(imgs)),
    ensures
        addresses(imgs, links, shared, a) == addresses(imgs, links, shared, b),
{
    lemma_tags_agree(imgs, a, b);
}

proof fn lemma_tags_agree(imgs: Seq<Seq<Seq<Seq<char>>>>, a: Seq<Rank>, b: Seq<Rank>)
    requires
        agree(a, b, tag_descriptors(imgs)),
    ensures
        tag_sources(imgs, a) == tag_sources(imgs, b),
    decreases imgs.len(),
{
    if imgs.len() > 0 {
        let front = imgs.drop_last();
        let all = tag_descriptors(imgs);
        let f = tag_descriptors(front);
        let p = attr_descriptors(imgs.last());
        assert forall|i: int| 0 <= i < f.len() implies rank_of(a, #[trigger] f[i]) == rank_of(b, f[i]) by {
            assert(all[i] == f[i]);
        }
        assert forall|i: int| 0 <= i < p.len() implies rank_of(a, #[trigger] p[i]) == rank_of(b, p[i]) by {
            assert(all[f.len() + i] == p[i]);
        }
        lemma_tags_agree(front, a, b);
        lemma_attrs_agree(imgs.last(), a, b);
    }
}

/// The names that HTML gives to characters are read as those characters.
#[verifier::rlimit(40)]
pub proof fn law_names_of_characters(a: Seq<char>, b: Seq<char>)
    requires
        !a.contains('&'),
        !b.contains('&'),
    ensures
        plain(a + "&quot;"@ + b) == a + "\""@ + b,
        plain(a + "&#39;"@ + b) == a + "'"@ + b,
        plain(a + "&lt;"@ + b) == a + "<"@ + b,
        plain(a + "&gt;"@ + b) == a + ">"@ + b,
        plain(a) == a,
        b.len() == 0 || b[0] == ' ' ==> plain(a + "&amp;"@ + b) == a + "&"@ + b,
{
    reveal_strlit("&amp;");
    reveal_strlit("&quot;");
    reveal_strlit("&#39;");
    reveal_strlit("&lt;");
    reveal_strlit("&gt;");
    reveal_strlit("&");
    reveal_strlit("\"");
    reveal_strlit("'");
    reveal_strlit("<");
    reveal_strlit(">");
    crate::text::law_found_where_it_stands(a, "&amp;"@, "&"@);
    crate::text::law_found_where_it_stands(a, "&quot;"@, "\""@);
    crate::text::law_found_where_it_stands(a, "&#39;"@, "'"@);
    crate::text::law_found_where_it_stands(a, "&lt;"@, "<"@);
    crate::text::law_found_where_it_stands(a, "&gt;"@, ">"@);
    assert(plain(a + "&quot;"@ + b) == a + "\""@ + b) by {
        let s = a + "&quot;"@ + b;
        let t = a + "\""@ + b;
        crate::text::law_replaced_in_place(a, "&quot;"@, b, "\""@);
        crate::text::law_found_where_it_stands(b, "&quot;"@, "\""@);
        assert(!"\""@.contains('&'));
        crate::text::lemma_cat_without(a, "\""@, '&');
        crate::text::lemma_cat_without(a + "\""@, b, '&');
        crate::direct::lemma_other_name(a, "&quot;"@, b, "&amp;"@, "&"@, 1);
        crate::text::law_found_where_it_stands(t, "&#39;"@, "'"@);
        crate::text::law_found_where_it_stands(t, "&lt;"@, "<"@);
        crate::text::law_found_where_it_stands(t, "&gt;"@, ">"@);
    }
    assert(plain(a + "&#39;"@ + b) == a + "'"@ + b) by {
        let s = a + "&#39;"@ + b;
        let t = a + "'"@ + b;
        crate::text::law_replaced_in_place(a, "&#39;"@, b, "'"@);
        crate::text::law_found_where_it_stands(b, "&#39;"@, "'"@);
        assert(!"'"@.contains('&'));
        crate::text::lemma_cat_without(a, "'"@, '&');
        crate::text::lemma_cat_without(a + "'"@, b, '&');
        crate::direct::lemma_other_name(a, "&#39;"@, b, "&amp;"@, "&"@, 1);
        crate::direct::lemma_other_name(a, "&#39;"@, b, "&quot;"@, "\""@, 1);
        crate::text::law_found_where_it_stands(t, "&lt;"@, "<"@);
        crate::text::law_found_where_it_stands(t, "&gt;"@, ">"@);
    }
    assert(plain(a + "&lt;"@ + b) == a + "<"@ + b) by {
        let s = a + "&lt;"@ + b;
        let t = a + "<"@ + b;
        crate::text::law_replaced_in_place(a, "&lt;"@, b, "<"@);
        crate::text::law_found_where_it_stands(b, "&lt;"@, "<"@);
        assert(!"<"@.contains('&'));
        crate::text::lemma_cat_without(a, "<"@, '&');
        crate::text::lemma_cat_without(a + "<"@, b, '&');
        crate::direct::lemma_other_name(a, "&lt;"@, b, "&amp;"@, "&"@, 1);
        crate::direct::lemma_other_name(a, "&lt;"@, b, "&quot;"@, "\""@, 1);
        crate::direct::lemma_other_name(a, "&lt;"@, b, "&#39;"@, "'"@, 1);
        crate::text::law_found_where_it_stands(t, "&gt;"@, ">"@);
    }
    assert(plain(a + "&gt;"@ + b) == a + ">"@ + b) by {
        let s = a + "&gt;"@ + b;
        let t = a + ">"@ + b;
        crate::text::law_replaced_in_place(a, "&gt;"@, b, ">"@);
        crate::text::law_found_where_it_stands(b, "&gt;"@, ">"@);
        assert(!">"@.contains('&'));
        crate::text::lemma_cat_without(a, ">"@, '&');
        crate::text::lemma_cat_without(a + ">"@, b, '&');
        crate::direct::lemma_other_name(a, "&gt;"@, b, "&amp;"@, "&"@, 1);
        crate::direct::lemma_other_name(a, "&gt;"@, b, "&quot;"@, "\""@, 1);
        crate::direct::lemma_other_name(a, "&gt;"@, b, "&#39;"@, "'"@, 1);
        crate::direct::lemma_other_name(a, "&gt;"@, b, "&lt;"@, "<"@, 1);
    }
    if b.len() == 0 || b[0] == ' ' {
        let s = a + "&amp;"@ + b;
        let t = a + "&"@ + b;
        crate::text::law_replaced_in_place(a, "&amp;"@, b, "&"@);
        crate::text::law_found_where_it_stands(b, "&amp;"@, "&"@);
        if b.len() > 0 {
            crate::direct::lemma_other_name(a, "&"@, b, "&quot;"@, "\""@, 1);
            crate::direct::lemma_other_name(a, "&"@, b, "&#39;"@, "'"@, 1);
            crate::direct::lemma_other_name(a, "&"@, b, "&lt;"@, "<"@, 1);
            crate::direct::lemma_other_name(a, "&"@, b, "&gt;"@, ">"@, 1);
        } else {
            assert(t =~= a + "&"@);
            crate::direct::lemma_short(a, "&quot;"@, "\""@);
            crate::direct::lemma_short(a, "&#39;"@, "'"@);
            crate::direct::lemma_short(a, "&lt;"@, "<"@);
            crate::direct::lemma_short(a, "&gt;"@, ">"@);
        }
    }
}

/// A candidate of a set weighs as much as the number behind it says, with `x` or `w`
/// behind that; one without a number weighs as much as one with a one.
#[verifier::rlimit(40)]
pub proof fn law_candidates_weigh_their_number(url: Seq<char>, d: Seq<char>, ranks: Seq<Rank>)
    requires
        url.len() > 0 && d.len() > 0,
        forall|i: int| 0 <= i < url.len() ==> !white(#[trigger] url[i]),
        forall|i: int| 0 <= i < d.len() ==> '0' <= #[trigger] d[i] <= '9' || d[i] == '.',
    ensures
        descriptor(url + " "@ + d + "x"@) == Some(d),
        descriptor(url + " "@ + d + "w"@) == Some(d),
        descriptor(url) is None,
        part_rank(url, ranks) == 4607182418800017408,
{
    crate::text::law_words_end_at_blanks(url, seq![]);
    lemma_described(url, d, 'x');
    lemma_described(url, d, 'w');
    reveal_strlit("x");
    reveal_strlit("w");
    reveal_strlit(" ");
    assert(url + " "@ + d + "x"@ =~= url + seq![' '] + (d + seq!['x']));
    assert(url + " "@ + d + "w"@ =~= url + seq![' '] + (d + seq!['w']));
}

#[verifier::rlimit(40)]
proof fn lemma_described(url: Seq<char>, d: Seq<char>, c: char)
    requires
        url.len() > 0 && d.len() > 0,
        forall|i: int| 0 <= i < url.len() ==> !white(#[trigger] url[i]),
        forall|i: int| 0 <= i < d.len() ==> '0' <= #[trigger] d[i] <= '9' || d[i] == '.',
        c == 'x' || c == 'w',
    ensures
        words(url + seq![' '] + (d + seq![c])) == seq![url, d + seq![c]],
        descriptor(url + seq![' '] + (d + seq![c])) == Some(d),
{
    let e = d + seq![c];
    crate::text::law_words_end_at_blanks(url, e);
    assert forall|i: int| 0 <= i < e.len() implies !white(#[trigger] e[i]) by {
        if i < d.len() {
            assert(e[i] == d[i]);
        }
    }
    crate::text::law_words_end_at_blanks(e, seq![]);
    let s = seq![' '] + e;
    assert(s[1] == e[0] && !white(e[0]));
    crate::text::lemma_first_is(s, Class::Space, false, 1);
    assert(s.skip(1) =~= e);
    crate::text::lemma_first_is(e, Class::Space, true, e.len() as int);
    assert(e.take(e.len() as int) =~= e);
    assert(e.skip(e.len() as int) =~= seq![]);
    assert(words(seq![]) =~= seq![]);
    assert(words(s) =~= seq![e]);
    assert(words(url + seq![' '] + e) =~= seq![url, e]);
    let k = Class::Either('x', 'w');
    assert(e.last() == c);
    assert(e[d.len() - 1] == d[d.len() - 1]);
    crate::text::lemma_after_last_is(e, k, false, d.len() as int);
    assert(e.take(d.len() as int) =~= d);
}

/// The rank of a number is the first that the table gives it.
pub proof fn law_ranks_come_from_the_table(ranks: Seq<Rank>, r: Rank, d: Seq<char>)
    ensures
        r.text@ == d ==> rank_of(seq![r] + ranks, d) == r.key,
        r.text@ != d ==> rank_of(seq![r] + ranks, d) == rank_of(ranks, d),
        rank_of(seq![], d) == 4607182418800017408,
{
    assert((seq![r] + ranks).skip(1) =~= ranks);
}

/// Addresses that are hardly ever content, in whatever case.
pub proof fn law_junk_is_known(url: Seq<char>)
    ensures
        starts_with(lower(url), "data:"@) ==> junk(url),
        crate::text::ends_with(lower(url), ".svg"@) ==> junk(url),
        contains(lower(url), "avatar"@) ==> junk(url),
        contains(lower(url), "emoji"@) ==> junk(url),
        contains(lower(url), "badge"@) ==> junk(url),
        contains(lower(url), "favicon"@) ==> junk(url),
        contains(lower(url), "icon"@) ==> junk(url),
        contains(lower(url), "logo"@) ==> junk(url),
        contains(lower(url), "spinner"@) ==> junk(url),
        contains(lower(url), "pixel"@) ==> junk(url),
        contains(lower(url), "shields.io"@) ==> junk(url),
        contains(lower(url), "gravatar"@) ==> junk(url),
        contains(lower(url), "/s/"@) ==> junk(url),
        contains(lower(url), "sprite"@) ==> junk(url),
        contains(lower(url), "tracking"@) ==> junk(url),
        contains(lower(url), ".svg?"@) ==> junk(url),
        junk(url) ==> starts_with(lower(url), "data:"@) || crate::text::ends_with(lower(url), ".svg"@)
            || contains(lower(url), "avatar"@)
            || contains(lower(url), "emoji"@)
            || contains(lower(url), "badge"@)
            || contains(lower(url), "favicon"@)
            || contains(lower(url), "icon"@)
            || contains(lower(url), "logo"@)
            || contains(lower(url), "spinner"@)
            || contains(lower(url), "pixel"@)
            || contains(lower(url), "shields.io"@)
            || contains(lower(url), "gravatar"@)
            || contains(lower(url), "/s/"@)
            || contains(lower(url), "sprite"@)
            || contains(lower(url), "tracking"@)
            || contains(lower(url), ".svg?"@),
{
}

/// The later of two plain sources counts, and a set of sources counts before them.
pub proof fn law_sets_come_before_plain_sources(attrs: Seq<Seq<Seq<char>>>, a: Seq<Seq<char>>, ranks: Seq<Rank>)
    requires
        a.len() > 2,
    ensures
        lower(a[1]) == "src"@ || lower(a[1]) == "data-src"@ ==> sources(attrs.push(a), ranks) == (Sources {
            src: Some(plain(a[2])),
            best: sources(attrs, ranks).best,
        }),
        lower(a[1]) == "srcset"@ || lower(a[1]) == "data-srcset"@ ==> sources(attrs.push(a), ranks)
            == (Sources { src: sources(attrs, ranks).src, best: largest(plain(a[2]), ranks) }),
        sources(attrs, ranks).best is Some ==> source(sources(attrs, ranks)) == sources(attrs, ranks).best,
        sources(attrs, ranks).best is None ==> source(sources(attrs, ranks)) == sources(attrs, ranks).src,
{
    assert(attrs.push(a).drop_last() =~= attrs);
    reveal_strlit("src");
    reveal_strlit("data-src");
    reveal_strlit("srcset");
    reveal_strlit("data-srcset");
    assert("src"@.len() != "srcset"@.len() && "src"@.len() != "data-srcset"@.len());
    assert("data-src"@.len() != "srcset"@.len() && "data-src"@.len() != "data-srcset"@.len());
}

/// The address of an image comes before those of links, and each tag gives one at most.
pub proof fn law_images_come_before_links(
    imgs: Seq<Seq<Seq<Seq<char>>>>,
    tag: Seq<Seq<Seq<char>>>,
    links: Seq<Seq<Seq<char>>>,
    shared: Seq<Seq<Seq<char>>>,
    ranks: Seq<Rank>,
)
    ensures
        source(sources(tag, ranks)) matches Some(u) ==> tag_sources(imgs.push(tag), ranks) == tag_sources(
            imgs,
            ranks,
        ).push(u),
        source(sources(tag, ranks)) is None ==> tag_sources(imgs.push(tag), ranks) == tag_sources(
            imgs,
            ranks,
        ),
        starts_all(addresses(imgs, links, shared, ranks), tag_sources(imgs, ranks)),
        first_groups(links).len() == links.len(),
        forall|i: int|
            0 <= i < links.len() && links[i].len() > 1 ==> #[trigger] first_groups(links)[i] == plain(
                links[i][1],
            ),
        addresses(seq![], seq![], shared, ranks) == first_groups(shared),
{
    assert(imgs.push(tag).drop_last() =~= imgs);
    let t = tag_sources(imgs, ranks);
    assert(addresses(imgs, links, shared, ranks).take(t.len() as int) =~= t);
    let none = tag_sources(seq![], ranks) + first_groups(seq![]);
    assert(none =~= seq![]);
    assert(addresses(seq![], seq![], shared, ranks) =~= first_groups(shared));
}

/// Whether a list begins with another.
pub open spec fn starts_all(l: Seq<Seq<char>>, front: Seq<Seq<char>>) -> bool {
    front.len() <= l.len() && l.take(front.len() as int) == front
}

/// An address on the web that is no junk and not listed yet is a picture, up to two
/// hundred of them; every other address is passed over.
pub proof fn law_pictures_are_listed(
    raw: Seq<Seq<char>>,
    leads: Seq<Option<AddressView>>,
    u: Seq<char>,
    a: AddressView,
)
    requires
        raw.len() == leads.len(),
    ensures
        (a.scheme == "http"@ || a.scheme == "https"@) && !junk(u) && pictures(raw, leads).len() < 200
            && !lists(pictures(raw, leads), a.text) ==> pictures(raw.push(u), leads.push(Some(a))).len()
            == pictures(raw, leads).len() + 1 && pictures(raw.push(u), leads.push(Some(a))).last().url
            == a.text && pictures(raw.push(u), leads.push(Some(a))).drop_last() == pictures(raw, leads),
        junk(u) || pictures(raw, leads).len() >= 200 || lists(pictures(raw, leads), a.text) || (a.scheme
            != "http"@ && a.scheme != "https"@) ==> pictures(raw.push(u), leads.push(Some(a)))
            == pictures(raw, leads),
        pictures(raw.push(u), leads.push(None)) == pictures(raw, leads),
{
    assert(raw.push(u).drop_last() =~= raw);
    assert(leads.push(Some(a)).drop_last() =~= leads);
    assert(leads.push(None).drop_last() =~= leads);
    let f = pictures(raw, leads);
    assert(f.push(picture(a, f.len() + 1)).drop_last() =~= f);
}

/// A picture is titled by the last part of its address without the extension, else by
/// its number.
pub proof fn law_pictures_are_titled(a: AddressView, front: Seq<Seq<char>>, name: Seq<char>, ext: Seq<char>, n: nat)
    requires
        name.len() > 0,
        forall|i: int| 0 <= i < name.len() ==> !white(#[trigger] name[i]),
        !ext.contains('.'),
    ensures
        a.segments == Some(front.push(name + "."@ + ext)) ==> picture(a, n).title == name,
        a.segments == Some(front.push(name + "."@ + ext).push(seq![])) ==> picture(a, n).title == name,
        a.segments is None ==> picture(a, n).title == "image-"@ + decimal(n),
        picture(a, n).url == a.text,
        picture(a, n).content_type is None,
{
    reveal_strlit(".");
    let last = name + "."@ + ext;
    assert(last =~= name + seq!['.'] + ext);
    crate::text::law_end_begins_behind(name, '.', ext);
    assert(last.take(name.len() as int) =~= name);
    crate::text::lemma_trimmed_same(name);
    let s = front.push(last);
    let t = s.push(seq![]);
    assert(t.drop_last() =~= s);
    assert(last_part(s) == Some(last));
    assert(last_part(t) == Some(last));
}

/// What is worth fetching: what the server did not speak of, and what it says is a
/// picture of eight kilobytes at least or of no stated size.
pub proof fn law_small_pictures_are_dropped(img: ImageView, r: Reply)
    ensures
        sifted(img, None) == Some(img),
        r.status < 200 || r.status > 299 ==> sifted(img, Some(r)) is None,
        r.length matches Some(n) ==> n < 8192 ==> sifted(img, Some(r)) is None,
        200 <= r.status <= 299 && picture_type(reply_type(r)) && (r.length is None || r.length->0 >= 8192)
            ==> sifted(img, Some(r)) == Some(ImageView { content_type: reply_type(r), ..img }),
        200 <= r.status <= 299 && !picture_type(reply_type(r)) ==> sifted(img, Some(r)) is None,
{
}

/// What can be a picture by its type: an image, bytes of no type, or what has none.
pub proof fn law_types_of_pictures(t: Seq<char>)
    ensures
        picture_type(None),
        starts_with(t, "image/"@) ==> picture_type(Some(t)),
        picture_type(Some("application/octet-stream"@)),
        t == "text/html"@ || t == "video/mp4"@ ==> !picture_type(Some(t)),
{
    reveal_strlit("image/");
    reveal_strlit("text/html");
    reveal_strlit("video/mp4");
    reveal_strlit("application/octet-stream");
    assert("image/"@[0] == 'i' && "text/html"@[0] == 't' && "video/mp4"@[0] == 'v');
    if t.len() >= 6 {
        assert(t.take(6)[0] == t[0]);
    }
    assert("application/octet-stream"@[0] == 'a');
}

/// What stays of the pictures stays in its order.
pub proof fn law_sifting_keeps_the_order(
    images: Seq<ImageView>,
    replies: Seq<Option<Reply>>,
    img: ImageView,
    r: Option<Reply>,
)
    requires
        images.len() == replies.len(),
    ensures
        sifted(img, r) matches Some(i) ==> all_sifted(images.push(img), replies.push(r)) == all_sifted(
            images,
            replies,
        ).push(i),
        sifted(img, r) is None ==> all_sifted(images.push(img), replies.push(r)) == all_sifted(
            images,
            replies,
        ),
{
    assert(images.push(img).drop_last() =~= images);
    assert(replies.push(r).drop_last() =~= replies);
}

/// What is looked for in a page, and the limits.
pub proof fn law_patterns_of_pages()
    ensures
        IMG_PATTERN@ == r#"(?is)<img\b[^>]*>"#@,
        ATTR_PATTERN@ == r#"(?is)\b(src|data-src|srcset|data-srcset)\s*=\s*["']([^"']+)["']"#@,
        OG_PATTERN@ == r#"(?is)<meta\b[^>]*property\s*=\s*["']og:image["'][^>]*content\s*=\s*["']([^"']+)["']"#@,
        LINK_PATTERN@ == r#"(?is)<a\b[^>]*href\s*=\s*["']([^"']+\.(?:png|jpe?g|gif|webp|avif)(?:\?[^"']*)?)["']"#@,
        TITLE_PATTERN@ == r#"(?is)<title[^>]*>(.*?)</title>"#@,
        MAX_ITEMS == 200,
        MIN_BYTES == 8192,
        HEAD_CONCURRENCY == 8,
{
}

/// A page without a title of its own goes by its host.
pub proof fn law_page_goes_by_its_host(html: Seq<char>, base: AddressView)
    ensures
        regex_first(TITLE_PATTERN@, html) is None && base.host is Some ==> page_title(html, base)
            == base.host->0,
        regex_first(TITLE_PATTERN@, html) is None && base.host is None ==> page_title(html, base)
            == "page"@,
        regex_first(TITLE_PATTERN@, html) matches Some(m) ==> (m.groups.len() > 1 && plain(
            trimmed(m.groups[1]),
        ).len() > 0 ==> page_title(html, base) == plain(trimmed(m.groups[1]))),
{
}

/// What an image is taken to say is what it holds.
pub proof fn law_said_of_image(x: Image)
    ensures
        x@.url == x.url@,
        x@.title == x.title@,
        x@.content_type == text_of(x.content_type),
{
}

/// What a page is taken to say is what it holds.
pub proof fn law_said_of_page(x: Page)
    ensures
        x@.title == x.title@,
        x@.images == image_views(x.images@),
{
}

/// The pictures of a page are those of the addresses in its images and links, each read
/// from where the page lies.
pub proof fn law_pictures_come_from_the_page(html: Seq<char>, base: AddressView, ranks: Seq<Rank>, i: int)
    ensures
        extracted(html, base, ranks).title == page_title(html, base),
        extracted(html, base, ranks).images == pictures(
            html_addresses(html, ranks),
            leads_from(base.text, html_addresses(html, ranks)),
        ),
        leads_from(base.text, html_addresses(html, ranks)).len() == html_addresses(html, ranks).len(),
        0 <= i < html_addresses(html, ranks).len() ==> leads_from(base.text, html_addresses(html, ranks))[i]
            == url_joined(base.text, trimmed(html_addresses(html, ranks)[i])),
        html_addresses(html, ranks) == addresses(
            tag_attrs(regex_all(IMG_PATTERN@, html)),
            regex_all(LINK_PATTERN@, html),
            regex_all(OG_PATTERN@, html),
            ranks,
        ),
        0 <= i < regex_all(IMG_PATTERN@, html).len() && regex_all(IMG_PATTERN@, html)[i].len() > 0
            ==> tag_attrs(regex_all(IMG_PATTERN@, html))[i] == regex_all(
            ATTR_PATTERN@,
            regex_all(IMG_PATTERN@, html)[i][0],
        ),
{
}

/// What lists say is what their members say, one by one.
pub proof fn law_said_of_lists(
    v: Seq<Image>,
    a: Seq<Vec<Vec<String>>>,
    l: Seq<Option<Address>>,
    i: int,
)
    ensures
        image_views(v).len() == v.len(),
        0 <= i < v.len() ==> image_views(v)[i] == v[i]@,
        attrs_of(a).len() == a.len(),
        0 <= i < a.len() ==> attrs_of(a)[i] == groups_of(a[i]@),
        lead_views(l).len() == l.len(),
        0 <= i < l.len() && l[i] is Some ==> lead_views(l)[i] == Some((l[i]->0)@),
        0 <= i < l.len() && l[i] is None ==> lead_views(l)[i] is None,
{
}

/// Everything is junk exactly where each address is.
pub proof fn law_all_is_junk_or_not(urls: Seq<Seq<char>>, i: int)
    ensures
        0 <= i < urls.len() && !junk(urls[i]) ==> !all_junk(urls),
        urls.len() == 0 ==> all_junk(urls),
        all_junk(urls) && 0 <= i < urls.len() ==> junk(urls[i]),
{
}

/// Nothing comes of nothing.
pub proof fn law_nothing_comes_of_nothing(ranks: Seq<Rank>)
    ensures
        heaviest(seq![], ranks) is None,
        last_part(seq![]) is None,
        sources(seq![], ranks).src is None && sources(seq![], ranks).best is None,
        tag_sources(seq![], ranks).len() == 0,
        pictures(seq![], seq![]).len() == 0,
        part_descriptors(seq![]).len() == 0,
        attr_descriptors(seq![]).len() == 0,
        tag_descriptors(seq![]).len() == 0,
        all_sifted(seq![], seq![]).len() == 0,
{
}

/// The numbers to be ranked are those of all candidates, in their order.
pub proof fn law_numbers_are_listed(parts: Seq<Seq<char>>, p: Seq<char>, attrs: Seq<Seq<Seq<char>>>, a: Seq<Seq<char>>)
    requires
        a.len() > 2,
    ensures
        descriptor(p) matches Some(d) ==> part_descriptors(parts.push(p)) == part_descriptors(parts).push(d),
        descriptor(p) is None ==> part_descriptors(parts.push(p)) == part_descriptors(parts),
        attr_descriptors(attrs.push(a)) == attr_descriptors(attrs) + part_descriptors(
            split(plain(a[2]), Class::Is(',')),
        ),
{
    assert(parts.push(p).drop_last() =~= parts);
    assert(attrs.push(a).drop_last() =~= attrs);
}

} // verus!
