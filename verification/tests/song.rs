use haul::pattern::Match;
use haul::song::{
    accept_piece, audio_url, clean_title, collect_ids, download, expand, fetch_title,
    looks_like_song, page_ids, page_url, pick_song, song_came, song_id_from_input, split_inputs,
    wanted, Wanted, MAX_IDS,
};

const ID: &str = "01234567-89ab-cdef-0123-456789abcdef";

#[test]
fn inputs_are_links_and_identifiers() {
    let text = format!("see https://x.com/a/, {ID}; nothing (https://y.com) https://z.com/b).]\n x");
    assert_eq!(
        split_inputs(&text),
        ["https://x.com/a".to_string(), ID.to_string(), "https://z.com/b".to_string()]
    );
    assert!(split_inputs("").is_empty());
    assert_eq!(accept_piece("http", false).as_deref(), Some("http"));
    assert_eq!(accept_piece("x/.", true).as_deref(), Some("x"));
    assert_eq!(accept_piece("x", false), None);
    assert_eq!(accept_piece("", true), None);
}

#[test]
fn a_song_is_named_by_its_link_or_its_identifier() {
    let upper = ID.to_uppercase();
    assert_eq!(song_id_from_input(&format!("https://suno.com/SONG/{upper}?a")).as_deref(), Some(ID));
    assert_eq!(song_id_from_input(&format!("  {upper} ")).as_deref(), Some(ID));
    assert_eq!(song_id_from_input(&format!("x{ID}")), None);
    assert_eq!(song_id_from_input(&format!("{ID} {ID}")), None);
    assert_eq!(song_id_from_input("https://suno.com/song/none"), None);
    let m = |before: &str, after: &str| Match {
        before: before.to_string(),
        groups: vec!["G".to_string()],
        after: after.to_string(),
    };
    assert_eq!(pick_song(" AB ", None, Some(m("", ""))).as_deref(), Some("ab"));
    assert_eq!(pick_song("AB", None, Some(m("", "x"))), None);
    assert_eq!(pick_song("AB", Some("id".into()), None).as_deref(), Some("id"));
    assert_eq!(pick_song("AB", None, None), None);
}

#[test]
fn songs_have_their_addresses() {
    assert_eq!(audio_url("ab"), "https://cdn1.suno.ai/ab.mp3");
    assert_eq!(page_url("ab"), "https://suno.com/song/ab");
}

#[test]
fn what_is_neither_a_song_nor_a_link_is_refused() {
    assert!(matches!(wanted(ID), Ok(Wanted::Song(s)) if s == ID));
    assert!(matches!(wanted("https://suno.com/me"), Ok(Wanted::Page)));
    assert_eq!(wanted("hello").unwrap_err(), "看不懂這個輸入");
}

#[test]
fn identifiers_of_a_page_come_once_each() {
    let other = "ffffffff-89ab-cdef-0123-456789abcdef";
    let html = format!("<a {ID}> <b {}> <c {other}>", ID.to_uppercase());
    assert_eq!(page_ids(&html).unwrap(), [ID, other]);
    assert_eq!(
        page_ids("<html>").unwrap_err(),
        "這個頁面裡找不到歌曲（清單頁可能是純前端渲染，請改貼單曲網址）"
    );
    let many: Vec<Vec<String>> = (0..400).map(|i| vec![format!("A{i}")]).collect();
    let got = collect_ids(&many).unwrap();
    assert_eq!(got.len(), MAX_IDS);
    assert_eq!(got[299], "a299");
    assert_eq!(expand(vec![]).unwrap_err(), "頁面上的 id 都不是可下載的歌曲");
    assert_eq!(expand(got.clone()).unwrap(), got);
}

#[test]
fn a_song_is_never_small() {
    assert!(looks_like_song(200, Some(100_001)));
    assert!(!looks_like_song(200, Some(100_000)));
    assert!(looks_like_song(200, None));
    assert!(!looks_like_song(404, None));
}

#[test]
fn titles_lose_the_name_of_the_site() {
    assert_eq!(fetch_title("<title>Rain | x | Suno </title>").as_deref(), Some("Rain | x"));
    assert_eq!(fetch_title("<title>Rain | Radio</title>").as_deref(), Some("Rain | Radio"));
    assert_eq!(
        fetch_title(r#"<meta name="og:title" content="Sun &#38; Sea"><title>t</title>"#).as_deref(),
        Some("Sun & Sea")
    );
    assert_eq!(fetch_title("<title>  </title>"), None);
    assert_eq!(fetch_title("<p>"), None);
    assert_eq!(clean_title(Some(" | SUNO".to_string())), None);
    assert_eq!(clean_title(None), None);
}

#[test]
fn a_song_that_did_not_come_whole_is_refused() {
    assert!(song_came(200, "200 OK").is_ok());
    assert_eq!(song_came(404, "404 Not Found").unwrap_err(), "HTTP 404 Not Found（找不到這首歌）");
    assert_eq!(song_came(401, "401 X").unwrap_err(), "HTTP 401 X（連結可能是私人的或已失效）");
    assert_eq!(song_came(500, "500 X").unwrap_err(), "HTTP 500 X");
    assert_eq!(download(20_000, 20_000), Ok(20_000));
    assert_eq!(download(1, 2).unwrap_err(), "下載不完整（1/2 bytes）");
    assert_eq!(download(10_239, 0).unwrap_err(), "檔案只有 10239 bytes，不像完整音檔");
}

#[test]
fn only_ascii_letters_can_spell_a_song() {
    for c in (0x80u32..=0x10ffff).filter_map(char::from_u32) {
        assert!(!c.to_lowercase().all(|l| "/song0123456789abcdef-".contains(l)), "{c:?}");
    }
}

#[test]
fn an_identifier_and_its_page_name_the_song() {
    assert_eq!(song_id_from_input(&page_url(ID)).as_deref(), Some(ID));
    assert_eq!(song_id_from_input(&page_url(&ID.to_uppercase())).as_deref(), Some(ID));
    assert_eq!(song_id_from_input(&ID.to_uppercase()).as_deref(), Some(ID));
    let kelvin = ID.replacen('a', "\u{212a}", 1);
    assert_eq!(song_id_from_input(&kelvin), None);
    assert_eq!(song_id_from_input(&ID.replacen("0123", "０123", 1)), None);
}

#[test]
fn the_first_identifier_from_the_left_counts() {
    let other = "ffffffff-89ab-cdef-0123-456789abcdef";
    let text = format!("https://suno.com/song/x0{ID}/{other}");
    assert_eq!(song_id_from_input(&text).as_deref(), Some(ID));
    let close = format!("/song/1{}", &ID[..35]);
    assert_eq!(song_id_from_input(&close), None);
}

#[test]
fn inputs_read_back() {
    let text = format!("http)) ,,; x{ID}/.;https://a/b/,\u{3000}nothing http://c.");
    let found = split_inputs(&text);
    assert_eq!(found, ["http", &format!("x{ID}"), "https://a/b", "http://c"]);
    assert_eq!(split_inputs(&found.join(" ")), found);
    assert!(split_inputs(&split_inputs("none").join(" ")).is_empty());
}
