//! Songs by their identifiers: finding identifiers in what the user gives, and
//! what is known of a song from its page.

use vstd::prelude::*;
use crate::direct::{
    decode_entities, decoded, group, group_text, og_title, shared_title, success,
};
use crate::number::{decimal, to_decimal};
use crate::pattern::{
    all_matches, first_id, first_match, groups_of, hexadecimal, id_at, id_char, is_id, lemma_first_id,
    lemma_first_id_is, regex_all, regex_first, Match, UUID_PATTERN,
};
use crate::text::{
    after_last, cat, cat3, cut_end, find_last_text, find_text, has_prefix, head, index_of, joined,
    last_index_of, lemma_after_last, lemma_after_last_is, lemma_index_of, lemma_index_of_is,
    lemma_split_joined, lemma_split_parts, lemma_trimmed_same, limit, listed, lower, push_text,
    same, split, split_text, starts_with, tail, text_of, texts, to_lower, trim, trim_class_end,
    trimmed, white, Class,
};

verus! {

/// The most identifiers that are taken from one page.
pub const MAX_IDS: usize = 300;

/// A song is never smaller than this.
pub const MIN_SONG_BYTES: u64 = 100_000;

/// A download smaller than this is no complete file.
pub const MIN_BYTES: u64 = 10_240;

/// What no input ends in.
pub open spec fn cut_off() -> Class {
    Class::OneOf("/)].,")
}

/// What parts one input from the next.
pub open spec fn between() -> Class {
    Class::SpaceOr(",;")
}

/// Whether a piece of text can be an input: a link, or something with an
/// identifier in it.
pub open spec fn input_like(s: Seq<char>) -> bool {
    s.len() > 0 && (starts_with(s, "http"@) || first_id(s) is Some)
}

/// The inputs among pieces of text, without the punctuation behind them.
pub open spec fn inputs(pieces: Seq<Seq<char>>) -> Seq<Seq<char>>
    decreases pieces.len(),
{
    if pieces.len() == 0 {
        seq![]
    } else {
        let front = inputs(pieces.drop_last());
        let s = trimmed(pieces.last());
        if input_like(s) {
            front.push(cut_end(s, cut_off()))
        } else {
            front
        }
    }
}

/// The input in a piece of text, given whether it holds an identifier.
pub fn accept_piece(piece: &str, has_id: bool) -> (r: Option<String>)
    ensures
        text_of(r) == (if piece@.len() > 0 && (starts_with(piece@, "http"@) || has_id) {
            Some(cut_end(piece@, cut_off()))
        } else {
            None
        }),
{
    if piece.unicode_len() > 0 && (has_prefix(piece, "http") || has_id) {
        Some(trim_class_end(piece, Class::OneOf("/)].,")).to_owned())
    } else {
        None
    }
}

/// Picks the inputs out of a text: what stands between white space, commas and
/// semicolons and is a link or holds an identifier.
pub fn split_inputs(text: &str) -> (r: Vec<String>)
    ensures
        texts(r@) == inputs(split(text@, between())),
{
    let pieces = split_text(text, Class::SpaceOr(",;"));
    let mut out: Vec<String> = Vec::new();
    let mut i: usize = 0;
    while i < pieces.len()
        invariant
            texts(pieces@) == split(text@, Class::SpaceOr(",;")),
            i <= pieces@.len(),
            texts(out@) == inputs(texts(pieces@).take(i as int)),
        decreases pieces@.len() - i,
    {
        proof {
            let t = texts(pieces@).take(i + 1);
            assert(t.drop_last() =~= texts(pieces@).take(i as int));
            assert(t.last() == pieces@[i as int]@);
        }
        let s = trim(pieces[i].as_str());
        if let Some(input) = accept_piece(s, first_match(UUID_PATTERN, s).is_some()) {
            push_text(&mut out, input.as_str());
        }
        i += 1;
    }
    proof {
        assert(texts(pieces@).take(i as int) =~= texts(pieces@));
    }
    out
}

/// The identifier that the rest of a link holds, where it has a `/song/` part.
pub open spec fn linked_id(input: Seq<char>) -> Option<Seq<char>> {
    let l = lower(input);
    match index_of(l, "/song/"@) {
        Some(i) => match first_id(l.skip(i)) {
            Some(j) => Some(l.skip(i).subrange(j, j + 36)),
            None => None,
        },
        None => None,
    }
}

/// The identifier of the song that an input names: the one in its link, or the
/// input itself where it is nothing but an identifier.
pub open spec fn named_song(input: Seq<char>) -> Option<Seq<char>> {
    match linked_id(input) {
        Some(id) => Some(id),
        None => if is_id(trimmed(input)) {
            Some(lower(trimmed(input)))
        } else {
            None
        },
    }
}

/// The song that an input names, given the identifier in its link, if any, and
/// the first identifier in the trimmed input.
pub fn pick_song(input: &str, linked: Option<String>, whole: Option<Match>) -> (r: Option<String>)
    ensures
        text_of(r) == (match text_of(linked) {
            Some(id) => Some(id),
            None => match whole {
                Some(m) => if m@.before.len() == 0 && m@.after.len() == 0 {
                    Some(lower(trimmed(input@)))
                } else {
                    None
                },
                None => None,
            },
        }),
{
    if let Some(id) = linked {
        return Some(id);
    }
    if let Some(m) = whole {
        if m.before.as_str().unicode_len() == 0 && m.after.as_str().unicode_len() == 0 {
            return Some(to_lower(trim(input)));
        }
    }
    None
}

pub fn song_id_from_input(input: &str) -> (r: Option<String>)
    ensures
        text_of(r) == named_song(input@),
{
    let low = to_lower(input);
    let linked = match find_text(low.as_str(), "/song/") {
        Some(i) => match first_match(UUID_PATTERN, tail(low.as_str(), i)) {
            Some(m) => Some(group_text(&m.groups, 0)),
            None => None,
        },
        None => None,
    };
    let t = trim(input);
    proof {
        lemma_first_id(t@);
        assert(is_id(t@) ==> first_id(t@) == Some(0int)) by {
            if is_id(t@) {
                assert(t@.subrange(0, 36) =~= t@);
                lemma_first_id_is(t@, 0);
            }
        }
        if first_id(t@) == Some(0int) && t@.len() == 36 {
            assert(t@.subrange(0, 36) =~= t@);
        }
    }
    pick_song(input, linked, first_match(UUID_PATTERN, t))
}

pub fn audio_url(id: &str) -> (r: String)
    ensures
        r@ == "https://cdn1.suno.ai/"@ + id@ + ".mp3"@,
{
    cat3("https://cdn1.suno.ai/", id, ".mp3")
}

/// The address of a song's page.
pub open spec fn page_of(id: Seq<char>) -> Seq<char> {
    "https://suno.com/song/"@ + id
}

pub fn page_url(id: &str) -> (r: String)
    ensures
        r@ == page_of(id@),
{
    cat("https://suno.com/song/", id)
}

/// Whether an identifier is that of a song, by what its server says of the file.
pub fn looks_like_song(status: u16, length: Option<u64>) -> (r: bool)
    ensures
        r == (success(status) && (length matches Some(n) ==> n > MIN_SONG_BYTES)),
        r == song_like(status, length),
{
    if !(200 <= status && status < 300) {
        return false;
    }
    match length {
        Some(n) => n > MIN_SONG_BYTES,
        None => true,
    }
}

/// What an input asks for.
#[derive(Debug)]
pub enum Wanted {
    /// The song of that identifier.
    Song(String),
    /// The songs on the page at that address.
    Page,
}

/// What an input asks for; an input that is neither a song nor a link is
/// refused.
pub fn wanted(input: &str) -> (r: Result<Wanted, String>)
    ensures
        match named_song(input@) {
            Some(id) => r matches Ok(Wanted::Song(s)) && s@ == id,
            None => if starts_with(input@, "http"@) {
                r matches Ok(Wanted::Page)
            } else {
                r matches Err(e) && e@ == "看不懂這個輸入"@
            },
        },
{
    if let Some(id) = song_id_from_input(input) {
        return Ok(Wanted::Song(id));
    }
    if !has_prefix(input, "http") {
        return Err("看不懂這個輸入".to_owned());
    }
    Ok(Wanted::Page)
}

/// The identifiers among matches in lower case, each once, at most as many as
/// are taken from one page.
pub open spec fn distinct_ids(matches: Seq<Seq<Seq<char>>>) -> Seq<Seq<char>>
    decreases matches.len(),
{
    if matches.len() == 0 {
        seq![]
    } else {
        let front = distinct_ids(matches.drop_last());
        let id = lower(group(matches.last(), 0));
        if front.len() < MAX_IDS && !front.contains(id) {
            front.push(id)
        } else {
            front
        }
    }
}

/// The identifiers among the groups of matches that may be those of songs.
pub fn collect_ids(found: &Vec<Vec<String>>) -> (r: Result<Vec<String>, String>)
    ensures
        match r {
            Ok(v) => texts(v@) == distinct_ids(groups_of(found@)) && v@.len() > 0,
            Err(e) => distinct_ids(groups_of(found@)).len() == 0 && e@
                == "這個頁面裡找不到歌曲（清單頁可能是純前端渲染，請改貼單曲網址）"@,
        },
{
    let ghost all = groups_of(found@);
    let mut out: Vec<String> = Vec::new();
    let mut i: usize = 0;
    proof {
        assert(texts(out@) =~= distinct_ids(all.take(0)));
    }
    while i < found.len()
        invariant
            all == groups_of(found@),
            i <= found@.len(),
            texts(out@) == distinct_ids(all.take(i as int)),
        decreases found@.len() - i,
    {
        proof {
            assert(all.take(i + 1).drop_last() =~= all.take(i as int));
            assert(all.take(i + 1).last() == texts(found@[i as int]@));
            assert(texts(out@).len() == out@.len());
        }
        let id = to_lower(group_text(&found[i], 0).as_str());
        if out.len() < MAX_IDS && !listed(out.as_slice(), id.as_str()) {
            push_text(&mut out, id.as_str());
        }
        i += 1;
    }
    proof {
        assert(all.take(i as int) =~= all);
        assert(texts(out@).len() == out@.len());
    }
    if out.len() == 0 {
        return Err(
            "這個頁面裡找不到歌曲（清單頁可能是純前端渲染，請改貼單曲網址）".to_owned(),
        );
    }
    Ok(out)
}

/// The identifiers on a page that may be those of songs.
pub fn page_ids(html: &str) -> (r: Result<Vec<String>, String>)
    ensures
        match r {
            Ok(v) => texts(v@) == distinct_ids(regex_all(UUID_PATTERN@, html@)) && v@.len() > 0,
            Err(e) => distinct_ids(regex_all(UUID_PATTERN@, html@)).len() == 0 && e@
                == "這個頁面裡找不到歌曲（清單頁可能是純前端渲染，請改貼單曲網址）"@,
        },
{
    let found = all_matches(UUID_PATTERN, html);
    collect_ids(&found)
}

/// The songs of a page: those of its identifiers that turned out to be songs.
pub fn expand(songs: Vec<String>) -> (r: Result<Vec<String>, String>)
    ensures
        match r {
            Ok(v) => v == songs && songs@.len() > 0,
            Err(e) => songs@.len() == 0 && e@ == "頁面上的 id 都不是可下載的歌曲"@,
        },
{
    if songs.len() == 0 {
        return Err("頁面上的 id 都不是可下載的歌曲".to_owned());
    }
    Ok(songs)
}

/// The title of a page.
pub const TITLE_PATTERN: &'static str = r"(?is)<title[^>]*>([^<]*)</title>";

/// The title that a page gives for sharing, else its own.
pub open spec fn raw_title(html: Seq<char>) -> Option<Seq<char>> {
    match shared_title(html) {
        Some(t) => Some(t),
        None => match regex_first(TITLE_PATTERN@, html) {
            Some(m) => Some(group(m.groups, 1)),
            None => None,
        },
    }
}

/// A title without the name of the site behind it.
pub open spec fn without_site(t: Seq<char>) -> Seq<char> {
    match last_index_of(t, " | "@) {
        Some(i) => if lower(trimmed(t.skip(i + " | "@.len()))) == "suno"@ {
            t.take(i)
        } else {
            t
        },
        None => t,
    }
}

/// The title of a song, by the title of its page.
pub open spec fn song_title(raw: Option<Seq<char>>) -> Option<Seq<char>> {
    match raw {
        Some(t) => {
            let name = trimmed(without_site(decoded(t)));
            if name.len() > 0 {
                Some(name)
            } else {
                None
            }
        },
        None => None,
    }
}

/// The title of a song, by the title of its page.
pub fn clean_title(raw: Option<String>) -> (r: Option<String>)
    ensures
        text_of(r) == song_title(text_of(raw)),
{
    let d = match raw {
        Some(t) => decode_entities(t.as_str()),
        None => {
            return None;
        },
    };
    let t = d.as_str();
    let n: usize = t.unicode_len();
    let m: usize = " | ".unicode_len();
    let bare = match find_last_text(t, " | ") {
        Some(i) => {
            proof {
                assert(i + m <= n);
            }
            if same(to_lower(trim(tail(t, i + m))).as_str(), "suno") {
                head(t, i)
            } else {
                t
            }
        },
        None => t,
    };
    let name = trim(bare);
    if name.unicode_len() > 0 {
        Some(name.to_owned())
    } else {
        None
    }
}

/// The title of a song in the text of its page.
pub fn fetch_title(html: &str) -> (r: Option<String>)
    ensures
        text_of(r) == song_title(raw_title(html@)),
{
    let raw = match og_title(html) {
        Some(t) => Some(t),
        None => match first_match(TITLE_PATTERN, html) {
            Some(m) => Some(group_text(&m.groups, 1)),
            None => None,
        },
    };
    clean_title(raw)
}

/// The hint behind a status that is a failure.
pub open spec fn hint(status: u16) -> Seq<char> {
    if status == 401 || status == 403 {
        "（連結可能是私人的或已失效）"@
    } else if status == 404 {
        "（找不到這首歌）"@
    } else {
        ""@
    }
}

/// Refuses a song that did not come. `status_text` is the status as it is shown.
pub fn song_came(status: u16, status_text: &str) -> (r: Result<(), String>)
    ensures
        match r {
            Ok(_) => success(status),
            Err(e) => !success(status) && e@ == "HTTP "@ + status_text@ + hint(status),
        },
{
    if 200 <= status && status < 300 {
        return Ok(());
    }
    let words = if status == 401 || status == 403 {
        "（連結可能是私人的或已失效）"
    } else if status == 404 {
        "（找不到這首歌）"
    } else {
        ""
    };
    Err(cat3("HTTP ", status_text, words))
}

/// Whether a song is whole: as long as the server announced, where it did, and
/// no shorter than any song.
pub fn download(got: u64, total: u64) -> (r: Result<u64, String>)
    ensures
        match r {
            Ok(n) => n == got && (total == 0 || got == total) && got >= MIN_BYTES,
            Err(e) => if total > 0 && got != total {
                e@ == "下載不完整（"@ + decimal(got as nat) + "/"@ + decimal(total as nat) + " bytes）"@
            } else {
                got < MIN_BYTES && e@ == "檔案只有 "@ + decimal(got as nat)
                    + " bytes，不像完整音檔"@
            },
        },
        r is Ok == whole_song(got, total),
{
    if total > 0 && got != total {
        let front = cat3("下載不完整（", to_decimal(got).as_str(), "/");
        return Err(cat3(front.as_str(), to_decimal(total).as_str(), " bytes）"));
    }
    if got < MIN_BYTES {
        return Err(
            cat3("檔案只有 ", to_decimal(got).as_str(), " bytes，不像完整音檔"),
        );
    }
    Ok(got)
}

/// The identifiers that are taken from a page: no more than the limit, none
/// twice.
pub proof fn law_page_ids_are_distinct(matches: Seq<Seq<Seq<char>>>)
    ensures
        distinct_ids(matches).len() <= MAX_IDS,
        distinct_ids(matches).no_duplicates(),
    decreases matches.len(),
{
    if matches.len() > 0 {
        law_page_ids_are_distinct(matches.drop_last());
        let front = distinct_ids(matches.drop_last());
        let all = distinct_ids(matches);
        if all.len() > front.len() {
            assert forall|i: int, k: int| 0 <= i < all.len() && 0 <= k < all.len() && i != k implies all[i]
                != all[k] by {
                if i == front.len() {
                    assert(front.contains(front[k]));
                } else if k == front.len() {
                    assert(front.contains(front[i]));
                }
            }
        }
    }
}

/// An input as it is taken from a text: a link, or something with an identifier
/// in it, in one piece and without punctuation behind it.
pub open spec fn clean_input(s: Seq<char>) -> bool {
    &&& input_like(s)
    &&& forall|i: int| 0 <= i < s.len() ==> !between().has(#[trigger] s[i])
    &&& !cut_off().has(s.last())
}

proof fn lemma_clean(piece: Seq<char>)
    requires
        forall|i: int| 0 <= i < piece.len() ==> !between().has(#[trigger] piece[i]),
        input_like(piece),
    ensures
        trimmed(piece) == piece,
        clean_input(cut_end(piece, cut_off())),
        cut_end(cut_end(piece, cut_off()), cut_off()) == cut_end(piece, cut_off()),
{
    reveal_strlit("/)].,");
    reveal_strlit("http");
    lemma_trimmed_same(piece);
    let n = after_last(piece, cut_off(), false);
    let s = cut_end(piece, cut_off());
    lemma_after_last(piece, cut_off(), false);
    if starts_with(piece, "http"@) {
        assert(piece.take(4)[3] == 'p');
        assert(piece[3] == 'p');
        assert(!cut_off().has('p'));
        assert(n >= 4);
        assert(s.take(4) =~= piece.take(4));
    } else {
        lemma_first_id(piece);
        let i = first_id(piece)->0;
        let id = piece.subrange(i, i + 36);
        assert(hexadecimal(id[35]));
        assert(piece[i + 35] == id[35]);
        assert(!cut_off().has(piece[i + 35]));
        assert(n >= i + 36);
        assert(s.subrange(i, i + 36) =~= id);
        assert(id_at(s, i));
        lemma_first_id(s);
    }
    assert(s.last() == piece[n - 1]);
    assert forall|j: int| 0 <= j < s.len() implies !between().has(#[trigger] s[j]) by {
        assert(s[j] == piece[j]);
    }
    lemma_after_last_is(s, cut_off(), false, s.len() as int);
    assert(s.take(s.len() as int) =~= s);
}

/// Inputs are taken from the left to the right.
pub proof fn law_inputs_keep_their_order(a: Seq<Seq<char>>, b: Seq<Seq<char>>)
    ensures
        inputs(a + b) == inputs(a) + inputs(b),
    decreases b.len(),
{
    if b.len() == 0 {
        assert(a + b =~= a);
        assert(inputs(a) + inputs(b) =~= inputs(a));
    } else {
        assert((a + b).drop_last() =~= a + b.drop_last());
        law_inputs_keep_their_order(a, b.drop_last());
        assert(inputs(a + b) =~= inputs(a) + inputs(b));
    }
}

proof fn lemma_inputs_are_clean(pieces: Seq<Seq<char>>)
    requires
        forall|i: int, j: int|
            0 <= i < pieces.len() && 0 <= j < pieces[i].len() ==> !between().has(
                #[trigger] pieces[i][j],
            ),
    ensures
        forall|i: int| 0 <= i < inputs(pieces).len() ==> clean_input(#[trigger] inputs(pieces)[i]),
    decreases pieces.len(),
{
    if pieces.len() > 0 {
        let front = pieces.drop_last();
        let last = pieces.last();
        assert forall|i: int, j: int| 0 <= i < front.len() && 0 <= j < front[i].len() implies !between().has(
            #[trigger] front[i][j],
        ) by {
            assert(front[i][j] == pieces[i][j]);
        }
        lemma_inputs_are_clean(front);
        assert forall|j: int| 0 <= j < last.len() implies !between().has(#[trigger] last[j]) by {
            assert(last[j] == pieces[pieces.len() - 1][j]);
        }
        lemma_trimmed_same(last);
        if input_like(last) {
            lemma_clean(last);
        }
        assert forall|i: int| 0 <= i < inputs(pieces).len() implies clean_input(
            #[trigger] inputs(pieces)[i],
        ) by {
            if i < inputs(front).len() {
                assert(inputs(pieces)[i] == inputs(front)[i]);
            }
        }
    }
}

/// Whatever the text, its inputs are whole: none is empty, none holds white
/// space, a comma or a semicolon or ends in punctuation, and each is a link or
/// holds an identifier.
pub proof fn law_inputs_are_clean(text: Seq<char>, i: int)
    requires
        0 <= i < inputs(split(text, between())).len(),
    ensures
        clean_input(inputs(split(text, between()))[i]),
        inputs(split(text, between()))[i].len() > 0,
{
    let pieces = split(text, between());
    assert forall|n: int, j: int| 0 <= n < pieces.len() && 0 <= j < pieces[n].len() implies !between().has(
        #[trigger] pieces[n][j],
    ) by {
        lemma_split_parts(text, between(), n);
    }
    lemma_inputs_are_clean(pieces);
}

proof fn lemma_clean_inputs_stay(v: Seq<Seq<char>>)
    requires
        forall|i: int| 0 <= i < v.len() ==> clean_input(#[trigger] v[i]),
    ensures
        inputs(v) == v,
    decreases v.len(),
{
    if v.len() > 0 {
        let front = v.drop_last();
        let s = v.last();
        assert forall|i: int| 0 <= i < front.len() implies clean_input(#[trigger] front[i]) by {
            assert(front[i] == v[i]);
        }
        lemma_clean_inputs_stay(front);
        lemma_trimmed_same(s);
        lemma_after_last_is(s, cut_off(), false, s.len() as int);
        assert(s.take(s.len() as int) =~= s);
        assert(inputs(v) =~= v);
    } else {
        assert(inputs(v) =~= v);
    }
}

/// The inputs of a text, written one after the other, are its inputs again.
pub proof fn law_inputs_read_back(text: Seq<char>)
    ensures
        ({
            let v = inputs(split(text, between()));
            inputs(split(joined(v, seq![' ']), between())) == v
        }),
{
    let v = inputs(split(text, between()));
    assert forall|i: int| 0 <= i < v.len() implies clean_input(#[trigger] v[i]) by {
        law_inputs_are_clean(text, i);
    }
    if v.len() == 0 {
        let none = joined(v, seq![' ']);
        assert(split(none, between()) =~= seq![none]);
        lemma_trimmed_same(none);
        assert(inputs(seq![none]) =~= inputs(seq![none].drop_last()));
        assert(seq![none].drop_last() =~= seq![]);
    } else {
        assert forall|i: int, j: int| 0 <= i < v.len() && 0 <= j < v[i].len() implies !between().has(
            #[trigger] v[i][j],
        ) by {
            assert(clean_input(v[i]));
        }
        lemma_split_joined(v, ' ', between());
        lemma_clean_inputs_stay(v);
    }
}

proof fn lemma_lower_id(id: Seq<char>)
    requires
        is_id(id),
    ensures
        is_id(lower(id)),
        lower(lower(id)) == lower(id),
{
    let l = lower(id);
    assert forall|i: int| 0 <= i < 36 implies id_char(i, #[trigger] l[i]) by {
        assert(id_char(i, id[i]));
    }
    assert(lower(l) =~= l);
}

/// An identifier, in whatever case, names its song.
pub proof fn law_identifier_names_its_song(id: Seq<char>)
    requires
        is_id(id),
    ensures
        named_song(id) == Some(lower(id)),
{
    let l = lower(id);
    reveal_strlit("/song/");
    lemma_lower_id(id);
    lemma_index_of(l, "/song/"@);
    if index_of(l, "/song/"@) is Some {
        let i = index_of(l, "/song/"@)->0;
        assert(l.skip(i).take(6)[0] == '/');
        assert(id_char(i, l[i]));
    }
    assert forall|i: int| 0 <= i < id.len() implies !white(#[trigger] id[i]) by {
        assert(id_char(i, id[i]));
    }
    lemma_trimmed_same(id);
}

/// The address of a song's page names the song.
pub proof fn law_page_names_its_song(id: Seq<char>)
    requires
        is_id(id),
    ensures
        named_song(page_of(id)) == Some(lower(id)),
{
    reveal_strlit("/song/");
    reveal_strlit("https://suno.com/song/");
    let page = page_of(id);
    let l = lower(page);
    let p = "/song/"@;
    lemma_lower_id(id);
    assert(l[6] == '/' && l[7] == '/' && l[8] == 's' && l[9] == 'u');
    assert forall|j: int| 0 <= j < 16 implies !starts_with(#[trigger] l.skip(j), p) by {
        let t = l.skip(j).take(6);
        assert(t[0] == l[j] && t[1] == l[j + 1] && t[2] == l[j + 2]);
        assert(p[0] == '/' && p[1] == 's' && p[2] == 'o');
    }
    let rest = l.skip(16);
    assert(rest.take(6) =~= p);
    lemma_index_of_is(l, p, 16);
    assert(rest.subrange(6, 42) =~= lower(id));
    assert forall|j: int| 0 <= j < 6 implies !id_at(rest, j) by {
        let w = rest.subrange(j, j + 36);
        assert(w[0] == p[j]);
        if is_id(w) {
            assert(id_char(0, w[0]));
        }
    }
    assert(id_at(rest, 6));
    lemma_first_id_is(rest, 6);
}

/// A link is an input, whatever punctuation follows it; a word that is neither a link
/// nor holds an identifier is none.
#[verifier::rlimit(40)]
pub proof fn law_links_are_inputs(pieces: Seq<Seq<char>>, s: Seq<char>, mark: char)
    requires
        s.len() > 0,
        forall|i: int| 0 <= i < s.len() ==> !white(#[trigger] s[i]),
        s.last() != '/' && s.last() != ')' && s.last() != ']' && s.last() != '.' && s.last() != ',',
        mark == '/' || mark == ')' || mark == ']' || mark == '.' || mark == ',',
    ensures
        starts_with(s, "http"@) ==> inputs(pieces.push(s)) == inputs(pieces).push(s),
        starts_with(s, "http"@) ==> inputs(pieces.push(s.push(mark))) == inputs(pieces).push(s),
        is_id(s) ==> inputs(pieces.push(s)) == inputs(pieces).push(s),
        !starts_with(s, "http"@) && first_id(s) is None ==> inputs(pieces.push(s)) == inputs(pieces),
{
    reveal_strlit("/)].,");
    reveal_strlit("http");
    let k = cut_off();
    let t = s.push(mark);
    assert(pieces.push(s).drop_last() =~= pieces);
    assert(pieces.push(t).drop_last() =~= pieces);
    lemma_trimmed_same(s);
    assert("/)].,"@.contains(mark)) by {
        assert("/)].,"@[0] == '/' && "/)].,"@[1] == ')' && "/)].,"@[2] == ']' && "/)].,"@[3] == '.'
            && "/)].,"@[4] == ',');
    }
    lemma_after_last_is(s, k, false, s.len() as int);
    assert(s.take(s.len() as int) =~= s);
    assert forall|i: int| 0 <= i < t.len() implies !white(#[trigger] t[i]) by {
        if i < s.len() {
            assert(t[i] == s[i]);
        }
    }
    lemma_trimmed_same(t);
    lemma_after_last_is(t, k, false, s.len() as int);
    assert(t.take(s.len() as int) =~= s);
    if starts_with(s, "http"@) {
        assert(t.take(4) =~= s.take(4));
    }
    if is_id(s) {
        assert(s.subrange(0, 36) =~= s);
        lemma_first_id_is(s, 0);
    }
}

/// An identifier that is new on a page is added in lower case; one that was there before
/// is not, and after three hundred none is.
pub proof fn law_new_identifiers_are_added(matches: Seq<Seq<Seq<char>>>, m: Seq<Seq<char>>)
    requires
        m.len() > 0,
    ensures
        distinct_ids(matches).len() < 300 && !distinct_ids(matches).contains(lower(m[0]))
            ==> distinct_ids(matches.push(m)) == distinct_ids(matches).push(lower(m[0])),
        distinct_ids(matches).contains(lower(m[0])) || distinct_ids(matches).len() >= 300
            ==> distinct_ids(matches.push(m)) == distinct_ids(matches),
{
    assert(matches.push(m).drop_last() =~= matches);
}

/// The name of the site behind the title of a page is no part of the song's title.
#[verifier::rlimit(40)]
pub proof fn law_site_is_no_part_of_the_title(name: Seq<char>)
    requires
        name.len() > 0,
        !name.contains('&') && !name.contains('|'),
        !white(name[0]) && !white(name.last()),
    ensures
        song_title(Some(name + " | Suno"@)) == Some(name),
        song_title(Some(name)) == Some(name),
        song_title(None) is None,
        song_title(Some(seq![])) is None,
{
    reveal_strlit(" | Suno");
    reveal_strlit(" | ");
    reveal_strlit("suno");
    let t = name + " | Suno"@;
    assert(!" | Suno"@.contains('&'));
    crate::text::lemma_cat_without(name, " | Suno"@, '&');
    crate::direct::law_plain_text_is_kept(t);
    crate::direct::law_plain_text_is_kept(name);
    crate::direct::law_plain_text_is_kept(seq![]);
    crate::text::law_ends_are_trimmed(seq![], name, seq![]);
    assert(seq![] + name + seq![] =~= name);
    let n = name.len() as int;
    lemma_last_bar(name);
    assert(t.take(n) =~= name);
    let rest = t.skip(n + 3);
    assert(rest =~= seq!['S', 'u', 'n', 'o']);
    assert forall|i: int| 0 <= i < rest.len() implies !white(#[trigger] rest[i]) by {}
    lemma_trimmed_same(rest);
    assert(lower(rest) =~= "suno"@);
    let e = Seq::<char>::empty();
    assert(without_site(e).len() == 0) by {
        crate::text::lemma_last_index_of(e, " | "@);
    }
    assert(trimmed(e) =~= e);
}

proof fn lemma_last_bar(name: Seq<char>)
    requires
        !name.contains('|'),
    ensures
        last_index_of(name + " | Suno"@, " | "@) == Some(name.len() as int),
        last_index_of(name, " | "@) is None,
{
    reveal_strlit(" | Suno");
    reveal_strlit(" | ");
    let p = " | "@;
    let t = name + " | Suno"@;
    crate::text::lemma_last_index_of(t, p);
    crate::text::lemma_last_index_of(name, p);
    let n = name.len() as int;
    assert(t.subrange(n, n + 3) =~= p);
    if last_index_of(name, p) is Some {
        let i = last_index_of(name, p)->0;
        assert(name.subrange(i, i + 3)[1] == name[i + 1]);
        assert(name.contains(name[i + 1]));
    }
    match last_index_of(t, p) {
        Some(i) => {
            if i != n {
                assert(t.subrange(i, i + 3)[1] == t[i + 1]);
                if i + 1 < n {
                    assert(name.contains(name[i + 1]));
                }
            }
        },
        None => {},
    }
}

/// The bounds of songs: the smallest file, the smallest song, and how many one page
/// may give.
pub proof fn law_song_limits()
    ensures
        MIN_BYTES == 10_240,
        MIN_SONG_BYTES == 100_000,
        MAX_IDS == 300,
        hint(401) == "（連結可能是私人的或已失效）"@,
        hint(403) == "（連結可能是私人的或已失效）"@,
        hint(404) == "（找不到這首歌）"@,
        hint(500) == ""@,
        TITLE_PATTERN@ == r"(?is)<title[^>]*>([^<]*)</title>"@,
{
}

/// What an input may end with and what parts inputs.
pub proof fn law_punctuation_of_inputs(c: char)
    ensures
        cut_off().has(c) <==> c == '/' || c == ')' || c == ']' || c == '.' || c == ',',
        between().has(c) <==> white(c) || c == ',' || c == ';',
{
    reveal_strlit("/)].,");
    reveal_strlit(",;");
    let p = "/)].,"@;
    let q = ",;"@;
    assert(p[0] == '/' && p[1] == ')' && p[2] == ']' && p[3] == '.' && p[4] == ',' && p.len() == 5);
    assert(q[0] == ',' && q[1] == ';' && q.len() == 2);
    if p.contains(c) {
        let i = p.index_of(c);
        assert(p[i] == c);
    }
    if q.contains(c) {
        let i = q.index_of(c);
        assert(q[i] == c);
    }
}

/// The page of a song lies under its identifier.
pub proof fn law_song_pages(id: Seq<char>)
    ensures
        page_of(id) == "https://suno.com/song/"@ + id,
{
}

/// The title for sharing counts before the page's own.
pub proof fn law_shared_title_counts_first(html: Seq<char>, title: Seq<char>)
    ensures
        shared_title(html) is Some ==> raw_title(html) == shared_title(html),
        shared_title(html) is None && regex_first(TITLE_PATTERN@, html) is None ==> raw_title(html) is None,
        shared_title(html) is None ==> (regex_first(TITLE_PATTERN@, html) matches Some(m) ==> (
        m.groups.len() > 1 && m.groups[1] == title ==> raw_title(html) == Some(title))),
{
}

/// White space around a title is no part of it.
pub proof fn law_titles_are_trimmed(name: Seq<char>)
    requires
        name.len() > 0,
        !name.contains('&') && !name.contains('|'),
        !white(name[0]) && !white(name.last()),
    ensures
        song_title(Some(seq![' '] + name + seq![' '])) == Some(name),
{
    reveal_strlit(" | ");
    let t = seq![' '] + name + seq![' '];
    assert(!seq![' '].contains('&') && !seq![' '].contains('|'));
    crate::text::lemma_cat_without(seq![' '], name, '&');
    crate::text::lemma_cat_without(seq![' '] + name, seq![' '], '&');
    crate::text::lemma_cat_without(seq![' '], name, '|');
    crate::text::lemma_cat_without(seq![' '] + name, seq![' '], '|');
    crate::direct::law_plain_text_is_kept(t);
    lemma_last_bar(t);
    crate::text::law_ends_are_trimmed(seq![' '], name, seq![' ']);
}

/// Whether a server speaks of a song.
pub open spec fn song_like(status: u16, length: Option<u64>) -> bool {
    200 <= status < 300 && (length matches Some(n) ==> n > 100_000)
}

/// Whether a song came whole.
pub open spec fn whole_song(got: u64, total: u64) -> bool {
    (total == 0 || got == total) && got >= 10_240
}

/// A song answers well and is larger than a hundred thousand bytes, where its size is
/// told; one that came is as long as announced and ten kilobytes at least.
pub proof fn law_songs_have_their_size(status: u16, n: u64, got: u64, total: u64)
    ensures
        status < 200 || status > 299 ==> !song_like(status, None) && !song_like(status, Some(n)),
        200 <= status <= 299 ==> song_like(status, None) && (song_like(status, Some(n)) <==> n > 100_000),
        total > 0 && got != total ==> !whole_song(got, total),
        got < 10_240 ==> !whole_song(got, total),
        got >= 10_240 ==> whole_song(got, 0) && whole_song(got, got),
{
}

/// Nothing comes of nothing.
pub proof fn law_nothing_comes_of_nothing()
    ensures
        inputs(seq![]).len() == 0,
        distinct_ids(seq![]).len() == 0,
{
}

} // verus!
