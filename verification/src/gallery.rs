//! What gallery-dl is asked, and what its answers mean. It is optional: it only
//! tells which pictures a page holds.

use vstd::prelude::*;
use vstd::utf8::encode_utf8;
use crate::browser::chrome::Place;
use crate::paths::Platform;
use crate::codec::{lossy, utf8_lossy};
use crate::json::{json_read_bytes, read_bytes, Json, JsonView};
use crate::number::{decimal, to_decimal};
use crate::text::{
    after, before, behind, cat, followed, has_prefix, last_line, last_words, lines, push_text,
    starts_with, stem, stem_text, str_of, text_of, texts, up_to, Class,
};

verus! {

/// The exit code for an address that is not supported.
pub const EXIT_UNSUPPORTED: i32 = 64;

/// How many pictures one address may become.
pub const MAX_ITEMS: usize = 500;

/// A picture to fetch.
#[derive(Debug, Clone)]
pub struct Entry {
    pub url: String,
    /// Without the extension.
    pub title: String,
    pub ext: String,
}

/// What a picture's entry says.
#[verifier::ext_equal]
pub struct EntryView {
    pub url: Seq<char>,
    pub title: Seq<char>,
    pub ext: Seq<char>,
}

impl View for Entry {
    type V = EntryView;

    open spec fn view(&self) -> EntryView {
        EntryView { url: self.url@, title: self.title@, ext: self.ext@ }
    }
}

pub open spec fn entry_views(v: Seq<Entry>) -> Seq<EntryView> {
    v.map_values(|e: Entry| e@)
}

/// The name of the program's file.
pub fn file_name(platform: Platform) -> (r: &'static str)
    ensures
        r@ == (if platform == Platform::Windows {
            "gallery-dl.exe"@
        } else {
            "gallery-dl"@
        }),
{
    if platform == Platform::Windows {
        "gallery-dl.exe"
    } else {
        "gallery-dl"
    }
}

/// The first of the places with a file in it.
pub open spec fn first_there(places: Seq<Place>) -> Option<Seq<char>>
    decreases places.len(),
{
    if places.len() == 0 {
        None
    } else if places[0].is_file {
        Some(places[0].path@)
    } else {
        first_there(places.skip(1))
    }
}

/// The program to use: the first of the places with a file in it. The program's
/// own directory comes first, then the search path.
pub fn find(places: &Vec<Place>) -> (r: Option<String>)
    ensures
        text_of(r) == first_there(places@),
{
    let mut i: usize = 0;
    proof {
        assert(places@.skip(0) =~= places@);
    }
    while i < places.len()
        invariant
            i <= places@.len(),
            first_there(places@.skip(i as int)) == first_there(places@),
        decreases places@.len() - i,
    {
        proof {
            assert(places@.skip(i as int)[0] == places@[i as int]);
            assert(places@.skip(i as int).skip(1) =~= places@.skip(i + 1));
        }
        if places[i].is_file {
            return Some(places[i].path.as_str().to_owned());
        }
        i += 1;
    }
    None
}

/// The command line that asks whether an address is supported, without
/// downloading anything.
pub fn supported_args(url: &str) -> (r: Vec<String>)
    ensures
        texts(r@) == seq!["--simulate"@, "--range"@, "1-1"@, url@],
        texts(r@) == ask_line(url@),
{
    let mut v: Vec<String> = Vec::new();
    push_text(&mut v, "--simulate");
    push_text(&mut v, "--range");
    push_text(&mut v, "1-1");
    push_text(&mut v, url);
    proof {
        assert(texts(v@) =~= seq!["--simulate"@, "--range"@, "1-1"@, url@]);
    }
    v
}

/// Whether an address is supported, given how the call ended: `None` for one
/// that could not be made, else its exit code, where it has one.
pub fn supported(ended: Option<Option<i32>>) -> (r: bool)
    ensures
        r == (ended is Some && ended->0 != Some(EXIT_UNSUPPORTED)),
        r == takes(ended),
{
    match ended {
        Some(Some(code)) => code != EXIT_UNSUPPORTED,
        Some(None) => true,
        None => false,
    }
}

/// How many pictures are asked for: at least one, at most the limit.
pub open spec fn clamped(limit: usize) -> usize {
    if limit < 1 {
        1
    } else if limit > MAX_ITEMS {
        MAX_ITEMS
    } else {
        limit
    }
}

/// The command line that lists the pictures of a page.
pub open spec fn list_line(url: Seq<char>, limit: usize, cookie_file: Option<Seq<char>>) -> Seq<
    Seq<char>,
> {
    seq!["--dump-json"@, "--range"@, "1-"@ + decimal(clamped(limit) as nat)] + (match cookie_file {
        Some(f) => seq!["--cookies"@, f],
        None => seq![],
    }) + seq![url]
}

pub fn list_args(url: &str, limit: usize, cookie_file: Option<&str>) -> (r: Vec<String>)
    ensures
        texts(r@) == list_line(url@, limit, str_of(cookie_file)),
{
    let n: usize = if limit < 1 {
        1
    } else if limit > MAX_ITEMS {
        MAX_ITEMS
    } else {
        limit
    };
    let mut v: Vec<String> = Vec::new();
    push_text(&mut v, "--dump-json");
    push_text(&mut v, "--range");
    push_text(&mut v, cat("1-", to_decimal(n as u64).as_str()).as_str());
    if let Some(f) = cookie_file {
        push_text(&mut v, "--cookies");
        push_text(&mut v, f);
    }
    push_text(&mut v, url);
    proof {
        assert(texts(v@) =~= list_line(url@, limit, str_of(cookie_file)));
    }
    v
}

/// The title of a picture by its URL, where nothing better is known.
pub open spec fn tail_title(url: Seq<char>) -> Seq<char> {
    match stem(behind(up_to(url, Class::Is('?')), Class::Is('/'))) {
        Some(s) => s,
        None => "image"@,
    }
}

/// The picture in a row of the list: an address on the web, with an extension
/// that can be one. A row without an extension leads to another page.
pub open spec fn row(r: JsonView) -> Option<EntryView> {
    match r {
        JsonView::List(cells) => if cells.len() < 3 {
            None
        } else {
            match (cells[1], cells[2]) {
                (JsonView::Text(url), JsonView::Object(_)) => if !starts_with(url, "http"@) {
                    None
                } else {
                    match cells[2].text_at("extension"@) {
                        Some(ext) => if ext.len() == 0 || encode_utf8(ext).len() > 5 {
                            None
                        } else {
                            Some(
                                EntryView {
                                    url,
                                    title: match cells[2].text_at("filename"@) {
                                        Some(f) => if f.len() == 0 {
                                            tail_title(url)
                                        } else {
                                            f
                                        },
                                        None => tail_title(url),
                                    },
                                    ext,
                                },
                            )
                        },
                        None => None,
                    }
                },
                _ => None,
            }
        },
        _ => None,
    }
}

/// The pictures in the rows, in their order.
pub open spec fn rows(l: Seq<JsonView>) -> Seq<EntryView>
    decreases l.len(),
{
    if l.len() == 0 {
        seq![]
    } else {
        match row(l.last()) {
            Some(e) => rows(l.drop_last()).push(e),
            None => rows(l.drop_last()),
        }
    }
}

/// The pictures in a list; none in anything else.
pub open spec fn dumped(v: JsonView) -> Seq<EntryView> {
    match v {
        JsonView::List(l) => rows(l),
        _ => seq![],
    }
}

fn read_row(r: &Json) -> (e: Option<Entry>)
    ensures
        match e {
            Some(x) => row(r@) == Some(x@),
            None => row(r@) is None,
        },
{
    let cells = match r {
        Json::List(v) => v,
        _ => {
            return None;
        },
    };
    if cells.len() < 3 {
        return None;
    }
    proof {
        assert(r@->List_0[1] == cells@[1]@);
        assert(r@->List_0[2] == cells@[2]@);
    }
    let url = match cells[1].as_str() {
        Some(u) => u,
        None => {
            return None;
        },
    };
    let meta = &cells[2];
    match meta {
        Json::Object(_) => {},
        _ => {
            return None;
        },
    }
    if !has_prefix(url, "http") {
        return None;
    }
    let ext = match meta.text_at("extension") {
        Some(x) => x,
        None => {
            return None;
        },
    };
    if ext.unicode_len() == 0 || ext.as_bytes().len() > 5 {
        return None;
    }
    let given = match meta.text_at("filename") {
        Some(f) => f,
        None => "",
    };
    proof {
        reveal_strlit("");
    }
    let title = if given.unicode_len() > 0 {
        given
    } else {
        match stem_text(after(before(url, Class::Is('?')), Class::Is('/'))) {
            Some(s) => s,
            None => "image",
        }
    };
    Some(Entry { url: url.to_owned(), title: title.to_owned(), ext: ext.to_owned() })
}

/// The pictures in the list that gallery-dl printed.
pub fn parse_dump(v: &Json) -> (r: Vec<Entry>)
    ensures
        entry_views(r@) == dumped(v@),
{
    let mut out: Vec<Entry> = Vec::new();
    let list = match v {
        Json::List(l) => l,
        _ => {
            proof {
                assert(entry_views(out@) =~= seq![]);
            }
            return out;
        },
    };
    let ghost all = v@->List_0;
    let mut i: usize = 0;
    while i < list.len()
        invariant
            all.len() == list@.len(),
            forall|j: int| 0 <= j < list@.len() ==> (#[trigger] all[j]) == list@[j]@,
            i <= list@.len(),
            entry_views(out@) == rows(all.take(i as int)),
        decreases list@.len() - i,
    {
        let ghost done = entry_views(out@);
        proof {
            let t = all.take(i + 1);
            assert(t.drop_last() =~= all.take(i as int));
            assert(t.last() == list@[i as int]@);
        }
        if let Some(e) = read_row(&list[i]) {
            out.push(e);
            proof {
                assert(entry_views(out@) =~= done.push(e@));
            }
        }
        i += 1;
    }
    proof {
        assert(all.take(i as int) =~= all);
    }
    out
}

/// What a finished call lists, or why it lists nothing.
pub open spec fn listed(code: Option<i32>, stdout: Seq<u8>, stderr: Seq<u8>) -> Result<
    Seq<EntryView>,
    Seq<char>,
> {
    if code == Some(EXIT_UNSUPPORTED) {
        Err("gallery-dl 不支援這個網址"@)
    } else if code != Some(0i32) {
        Err(
            match last_words(lines(utf8_lossy(stderr))) {
                Some(w) => w,
                None => "gallery-dl 沒有給出原因"@,
            },
        )
    } else {
        match json_read_bytes(stdout) {
            Ok(v) => if dumped(v).len() == 0 {
                Err("這個頁面上沒有找到可下載的圖片"@)
            } else {
                Ok(dumped(v))
            },
            Err(e) => Err("看不懂 gallery-dl 的輸出："@ + e),
        }
    }
}

/// What a finished call lists. `code` is its exit code, where it has one.
pub fn list(code: Option<i32>, stdout: &[u8], stderr: &[u8]) -> (r: Result<Vec<Entry>, String>)
    ensures
        match r {
            Ok(v) => listed(code, stdout@, stderr@) == Ok::<Seq<EntryView>, Seq<char>>(
                entry_views(v@),
            ),
            Err(e) => listed(code, stdout@, stderr@) == Err::<Seq<EntryView>, Seq<char>>(e@),
        },
{
    let ended: i32 = match code {
        Some(c) => c,
        None => -1,
    };
    if code.is_some() && ended == EXIT_UNSUPPORTED {
        return Err("gallery-dl 不支援這個網址".to_owned());
    }
    if code.is_none() || ended != 0 {
        let text = lossy(stderr);
        return Err(
            match last_line(text.as_str()) {
                Some(w) => w,
                None => "gallery-dl 沒有給出原因".to_owned(),
            },
        );
    }
    match read_bytes(stdout) {
        Ok(v) => {
            let entries = parse_dump(&v);
            proof {
                assert(entry_views(entries@).len() == entries@.len());
            }
            if entries.len() == 0 {
                Err("這個頁面上沒有找到可下載的圖片".to_owned())
            } else {
                Ok(entries)
            }
        },
        Err(e) => Err(cat("看不懂 gallery-dl 的輸出：", e.as_str())),
    }
}

/// Every picture in a list has an address on the web and an extension.
pub proof fn law_pictures_are_files(l: Seq<JsonView>, i: int)
    requires
        0 <= i < rows(l).len(),
    ensures
        starts_with(rows(l)[i].url, "http"@),
        0 < rows(l)[i].ext.len(),
        encode_utf8(rows(l)[i].ext).len() <= 5,
    decreases l.len(),
{
    let front = l.drop_last();
    if i < rows(front).len() {
        law_pictures_are_files(front, i);
    }
}

/// The first pictures are asked for, from one to five hundred of them, with the
/// session where there is one; the address comes last.
pub proof fn law_first_pictures_are_asked_for(url: Seq<char>, limit: usize, cookies: Seq<char>)
    ensures
        1 <= limit <= 500 ==> followed(
            list_line(url, limit, None),
            "--range"@,
            "1-"@ + decimal(limit as nat),
        ),
        limit > 500 ==> followed(list_line(url, limit, None), "--range"@, "1-"@ + decimal(500)),
        limit == 0 ==> followed(list_line(url, limit, None), "--range"@, "1-"@ + decimal(1)),
        list_line(url, limit, None)[0] == "--dump-json"@,
        list_line(url, limit, None).last() == url && list_line(url, limit, Some(cookies)).last() == url,
        followed(list_line(url, limit, Some(cookies)), "--cookies"@, cookies),
        EXIT_UNSUPPORTED == 64,
{
    let a = list_line(url, limit, None);
    let b = list_line(url, limit, Some(cookies));
    assert(a[1] == "--range"@ && a[2] == "1-"@ + decimal(clamped(limit) as nat));
    assert(b[3] == "--cookies"@ && b[4] == cookies);
    assert(a.last() == url && b.last() == url);
}

/// A row with an address on the web and an extension is a picture at that address,
/// under its name.
pub proof fn law_row_is_a_picture(kind: JsonView, url: Seq<char>, meta: JsonView, ext: Seq<char>, name: Seq<char>)
    requires
        meta is Object,
        meta.text_at("extension"@) == Some(ext),
        0 < ext.len() && encode_utf8(ext).len() <= 5,
    ensures
        starts_with(url, "http"@) && meta.text_at("filename"@) == Some(name) && name.len() > 0 ==> row(
            JsonView::List(seq![kind, JsonView::Text(url), meta]),
        ) == Some(EntryView { url, title: name, ext }),
        starts_with(url, "http"@) && meta.text_at("filename"@) is None ==> row(
            JsonView::List(seq![kind, JsonView::Text(url), meta]),
        ) == Some(EntryView { url, title: tail_title(url), ext }),
        !starts_with(url, "http"@) ==> row(JsonView::List(seq![kind, JsonView::Text(url), meta])) is None,
        row(JsonView::List(seq![kind, JsonView::Text(url)])) is None,
{
}

/// Without a name a picture goes by the last part of its address without the
/// extension.
pub proof fn law_picture_is_named_by_its_address(base: Seq<char>, name: Seq<char>, ext: Seq<char>)
    requires
        !base.contains('?') && !name.contains('?') && !name.contains('/'),
        !ext.contains('?') && !ext.contains('/') && !ext.contains('.'),
    ensures
        tail_title(base + "/"@ + name + "."@ + ext) == name,
{
    let u = base + "/"@ + name + "."@ + ext;
    let file = name + seq!['.'] + ext;
    assert(u =~= base + seq!['/'] + file) by {
        reveal_strlit("/");
        reveal_strlit(".");
    }
    assert(!seq!['.'].contains('/') && !seq!['.'].contains('?') && !seq!['/'].contains('?'));
    crate::text::lemma_cat_without(name, seq!['.'], '/');
    crate::text::lemma_cat_without(name + seq!['.'], ext, '/');
    crate::text::lemma_cat_without(name, seq!['.'], '?');
    crate::text::lemma_cat_without(name + seq!['.'], ext, '?');
    crate::text::lemma_cat_without(base, seq!['/'], '?');
    crate::text::lemma_cat_without(base + seq!['/'], file, '?');
    crate::text::law_front_ends_at(u, '?', u);
    crate::text::law_end_begins_behind(base, '/', file);
    crate::text::law_end_begins_behind(name, '.', ext);
    assert(file.take(name.len() as int) =~= name);
}

/// Pictures keep the order of their rows, and no row gives two.
pub proof fn law_rows_keep_their_order(l: Seq<JsonView>, r: JsonView)
    ensures
        row(r) matches Some(e) ==> rows(l.push(r)) == rows(l).push(e),
        row(r) is None ==> rows(l.push(r)) == rows(l),
        dumped(JsonView::List(l)) == rows(l),
{
    assert(l.push(r).drop_last() =~= l);
}

/// A call lists pictures only where it ended well and printed some. An address that is
/// not supported is told from another failure by the exit code 64.
pub proof fn law_lists_are_believed(code: Option<i32>, stdout: Seq<u8>, stderr: Seq<u8>)
    ensures
        code == Some(64i32) ==> listed(code, stdout, stderr) == Err::<Seq<EntryView>, Seq<char>>(
            "gallery-dl 不支援這個網址"@,
        ),
        code != Some(0i32) ==> listed(code, stdout, stderr) is Err,
        json_read_bytes(stdout) is Err ==> listed(code, stdout, stderr) is Err,
        code == Some(0i32) && json_read_bytes(stdout) is Ok && dumped(json_read_bytes(stdout)->Ok_0).len()
            > 0 ==> listed(code, stdout, stderr) == Ok::<Seq<EntryView>, Seq<char>>(
            dumped(json_read_bytes(stdout)->Ok_0),
        ),
        code == Some(0i32) && json_read_bytes(stdout) is Ok && dumped(json_read_bytes(stdout)->Ok_0).len()
            == 0 ==> listed(code, stdout, stderr) is Err,
{
}

/// The program is taken from the first place that has it.
pub proof fn law_first_place_is_taken(places: Seq<Place>, p: Place)
    ensures
        p.is_file ==> first_there(seq![p] + places) == Some(p.path@),
        !p.is_file ==> first_there(seq![p] + places) == first_there(places),
        first_there(seq![]) is None,
{
    assert((seq![p] + places).skip(1) =~= places);
}

/// The words for a call that failed, and for a list that cannot be used.
pub proof fn law_useless_lists_are_told(code: Option<i32>, stdout: Seq<u8>, stderr: Seq<u8>)
    ensures
        code != Some(0i32) && code != Some(64i32) && last_words(lines(utf8_lossy(stderr))) is None
            ==> listed(code, stdout, stderr) == Err::<Seq<EntryView>, Seq<char>>(
            "gallery-dl 沒有給出原因"@,
        ),
        code != Some(0i32) && code != Some(64i32) && last_words(lines(utf8_lossy(stderr))) is Some
            ==> listed(code, stdout, stderr) == Err::<Seq<EntryView>, Seq<char>>(
            last_words(lines(utf8_lossy(stderr)))->0,
        ),
        code == Some(0i32) && json_read_bytes(stdout) is Ok && dumped(json_read_bytes(stdout)->Ok_0).len()
            == 0 ==> listed(code, stdout, stderr) == Err::<Seq<EntryView>, Seq<char>>(
            "這個頁面上沒有找到可下載的圖片"@,
        ),
        code == Some(0i32) && json_read_bytes(stdout) is Err ==> listed(code, stdout, stderr) == Err::<
            Seq<EntryView>,
            Seq<char>,
        >("看不懂 gallery-dl 的輸出："@ + json_read_bytes(stdout)->Err_0),
{
}

/// What an entry is taken to say is what it holds.
pub proof fn law_said_of_entry(x: Entry)
    ensures
        x@.url == x.url@,
        x@.title == x.title@,
        x@.ext == x.ext@,
{
}

/// What a list of pictures says is what its entries say.
pub proof fn law_said_of_entries(v: Seq<Entry>, i: int)
    ensures
        entry_views(v).len() == v.len(),
        0 <= i < v.len() ==> entry_views(v)[i] == v[i]@,
{
}

/// The arguments that ask whether an address is supported.
pub open spec fn ask_line(url: Seq<char>) -> Seq<Seq<char>> {
    seq!["--simulate"@, "--range"@, "1-1"@, url]
}

/// Whether the end of that call says that the address is supported.
pub open spec fn takes(ended: Option<Option<i32>>) -> bool {
    ended is Some && ended->0 != Some(64i32)
}

/// Asking downloads nothing and looks at one picture; only the exit code 64 and a call
/// that could not be made say no.
pub proof fn law_asking_downloads_nothing(url: Seq<char>, code: i32)
    ensures
        ask_line(url).contains("--simulate"@),
        followed(ask_line(url), "--range"@, "1-1"@),
        ask_line(url).last() == url,
        !takes(None),
        takes(Some(None)),
        takes(Some(Some(code))) <==> code != 64,
{
    let l = ask_line(url);
    assert(l[0] == "--simulate"@ && l[1] == "--range"@ && l[2] == "1-1"@);
}

/// Nothing comes of nothing, and of anything but a list neither.
pub proof fn law_no_rows_give_no_pictures(t: Seq<char>)
    ensures
        rows(seq![]).len() == 0,
        dumped(JsonView::Null).len() == 0,
        dumped(JsonView::Text(t)).len() == 0,
{
}

} // verus!
