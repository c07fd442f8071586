use haul::clock::{Duration, Instant};
use haul::direct::{
    accept_body, any_file, check_size, decode_entities, extract_audio, extract_audio_error,
    filename_from_disposition, host_of, judge_response, looks_like_media_url, numeric_entity,
    og_title, percent_bytes, percent_decode, probe, request_headers, retry_delay, suno, suno_candidates,
    suno_id, suno_title, Answer, Look, Next, Turns, UA,
};

#[test]
fn extracts_host_for_rate_limiting() {
    assert_eq!(host_of("https://Upload.Wikimedia.org/a/b.jpg"), "upload.wikimedia.org");
    assert_eq!(host_of("http://x.com"), "x.com");
    assert_eq!(host_of("not a url"), "");
    assert_eq!(host_of("http://x.com:81/a"), "x.com:81");
}

#[test]
fn recognises_bare_media_urls() {
    assert!(looks_like_media_url("https://x.com/a/b.mp4"));
    assert!(looks_like_media_url("https://x.com/a/b.MP3?token=1"));
    assert!(!looks_like_media_url("https://x.com/watch/abc"));
    assert!(!looks_like_media_url("https://suno.com/song/abc"));
}

#[test]
fn decodes_html_entities_in_titles() {
    assert_eq!(decode_entities("A &amp; B &#39;C&#39;"), "A & B 'C'");
}

#[test]
fn numeric_entities_are_put_in_where_they_are_characters() {
    assert_eq!(decode_entities("&#65;&#8212;x&#1114112;y&#55296;z&#;"), "A—xyz&#;");
    assert_eq!(decode_entities("&amp;lt; &nbsp;&quot;&apos;"), "<  \"'");
    assert_eq!(numeric_entity("23470"), "宮");
    assert_eq!(numeric_entity("x"), "");
}

#[test]
fn reads_filename_from_content_disposition() {
    assert_eq!(
        filename_from_disposition(r#"attachment; filename="report.pdf""#).as_deref(),
        Some("report.pdf")
    );
    assert_eq!(
        filename_from_disposition(
            "attachment; filename=\"fallback.pdf\"; filename*=UTF-8''%E5%A0%B1%E5%91%8A.pdf"
        )
        .as_deref(),
        Some("報告.pdf")
    );
    assert_eq!(filename_from_disposition("inline").as_deref(), None);
}

#[test]
fn odd_dispositions_fall_back_or_give_nothing() {
    assert_eq!(filename_from_disposition("a; FileName=x.bin ; b").as_deref(), Some("x.bin"));
    assert_eq!(filename_from_disposition("a; filename=\"\"").as_deref(), None);
    assert_eq!(
        filename_from_disposition("filename*=plain.txt; filename=p.txt").as_deref(),
        Some("p.txt")
    );
}

#[test]
fn percent_decoding_survives_malformed_input() {
    assert_eq!(percent_decode("a%20b"), "a b");
    assert_eq!(percent_decode("a%zzb"), "a%zzb");
    assert_eq!(percent_decode("a%"), "a%");
}

#[test]
fn percent_decoding_is_by_bytes() {
    assert_eq!(percent_decode("%4a%4B"), "JK");
    assert_eq!(percent_decode("%+fx"), "%+fx");
    assert_eq!(percent_decode("%4"), "%4");
    assert_eq!(percent_decode("%é1"), "%é1");
    assert_eq!(percent_decode("a%FFb"), "a\u{fffd}b");
    assert_eq!(percent_bytes(b"%00%25%2"), b"\x00%%2");
    assert_eq!(percent_decode("沒有跳脫"), "沒有跳脫");
}

fn at(millis: u128) -> Instant {
    Instant { nanos: millis * 1_000_000 }
}

#[test]
fn requests_to_one_host_are_spread_out() {
    let mut t = Turns::new();
    assert_eq!(t.wait_turn("a", at(1000)), Duration::from_millis(0));
    assert_eq!(t.wait_turn("a", at(1000)), Duration::from_millis(300));
    assert_eq!(t.wait_turn("a", at(1100)), Duration::from_millis(500));
    assert_eq!(t.wait_turn("b", at(1100)), Duration::from_millis(0));
    assert_eq!(t.wait_turn("a", at(9000)), Duration::from_millis(0));
    assert!(t.has_room("a") && t.has_room("unknown"));
    t.wait_turn("a", Instant { nanos: u128::MAX });
    assert!(!t.has_room("a") && t.has_room("b"));
}

#[test]
fn retries_wait_as_told_or_longer_each_time() {
    assert_eq!(retry_delay(Some(" 7 "), 1), Duration::from_secs(7));
    assert_eq!(retry_delay(Some("120"), 1), Duration::from_secs(120));
    assert_eq!(retry_delay(Some("18446744073709551615"), 1), Duration::from_secs(u64::MAX));
    assert_eq!(retry_delay(None, 1), Duration::from_millis(1000));
    assert_eq!(retry_delay(Some("Wed, 21 Oct"), 3), Duration::from_millis(4000));
    assert_eq!(retry_delay(None, 5), Duration::from_millis(16_000));
    assert_eq!(retry_delay(None, 60), Duration::from_millis(16_000));
    assert_eq!(retry_delay(None, 0), Duration::from_millis(500));
}

#[test]
fn a_host_that_puts_off_is_asked_four_times() {
    assert_eq!(judge_response(429, "429 Too Many Requests", 3), Ok(Next::Again));
    assert_eq!(judge_response(503, "503 Service Unavailable", 1), Ok(Next::Again));
    assert_eq!(
        judge_response(429, "429 Too Many Requests", 4).unwrap_err(),
        "HTTP 429 Too Many Requests（退讓重試 4 次後仍被限流）"
    );
    assert_eq!(judge_response(206, "206 Partial Content", 1), Ok(Next::Take));
    assert_eq!(
        judge_response(403, "403 Forbidden", 1).unwrap_err(),
        "HTTP 403 Forbidden（可能是私人的或連結已失效）"
    );
    assert_eq!(
        judge_response(404, "404 Not Found", 1).unwrap_err(),
        "HTTP 404 Not Found（找不到這個檔案）"
    );
    assert_eq!(judge_response(500, "500 X", 1).unwrap_err(), "HTTP 500 X");
}

#[test]
fn incomplete_and_tiny_downloads_are_refused() {
    assert_eq!(check_size(20_000, 20_000), Ok(20_000));
    assert_eq!(check_size(10_240, 0), Ok(10_240));
    assert_eq!(check_size(19_999, 20_000).unwrap_err(), "下載不完整（19999/20000 bytes）");
    assert_eq!(check_size(10_239, 0).unwrap_err(), "檔案只有 10239 bytes，不像完整媒體檔");
}

fn answer(status: u16, ct: Option<&str>, cd: Option<&str>) -> Answer {
    Answer {
        status,
        status_text: format!("{status} X"),
        content_type: ct.map(|s| s.to_string()),
        disposition: cd.map(|s| s.to_string()),
    }
}

#[test]
fn a_page_is_no_file_unless_pages_are_wanted() {
    let page = answer(200, Some("Text/HTML; charset=utf-8"), None);
    assert_eq!(
        any_file("https://x.com/a", &page, false).unwrap_err(),
        "這是一個網頁不是檔案。要存下網頁本身請加 --any"
    );
    let f = any_file("https://x.com/a/", &page, true).unwrap();
    assert_eq!((f.media.as_str(), f.title.as_str()), ("https://x.com/a/", "x.com"));
    assert_eq!(any_file("u", &answer(404, None, None), true).unwrap_err(), "HTTP 404 X");
    assert!(accept_body(&Some("text/html".to_string()), true).is_ok());
    assert!(accept_body(&Some("application/pdf".to_string()), false).is_ok());
    assert!(accept_body(&None, false).is_ok());
    assert_eq!(
        accept_body(&Some(" text/HTML ".to_string()), false).unwrap_err(),
        "伺服器回的是網頁不是檔案（要存網頁請加 --any）"
    );
}

#[test]
fn a_file_is_named_by_its_server_its_url_or_its_host() {
    let named = answer(200, Some("application/pdf"), Some("attachment; filename=r.pdf"));
    let f = any_file("https://x.com/dir/other.pdf", &named, false).unwrap();
    assert_eq!(f.title, "r.pdf");
    assert_eq!(f.content_type.as_deref(), Some("application/pdf"));
    let plain = answer(200, None, Some("inline"));
    assert_eq!(any_file("https://x.com/dir/o.pdf?a.b/c", &plain, false).unwrap().title, "o.pdf");
    assert_eq!(any_file("https://X.com:8/dir", &plain, false).unwrap().title, "X.com:8");
    assert_eq!(any_file("nowhere", &plain, false).unwrap().title, "download");
}

#[test]
fn a_link_shows_by_itself_what_it_is() {
    match probe("https://x.com/a/clip.final.mp4?x=1") {
        Look::Media(f) => {
            assert_eq!(f.media, "https://x.com/a/clip.final.mp4?x=1");
            assert_eq!(f.title, "clip.final");
            assert!(f.content_type.is_none());
        }
        other => panic!("{other:?}"),
    }
    match probe("https://x.com/.mp4") {
        Look::Media(f) => assert_eq!(f.title, "untitled"),
        other => panic!("{other:?}"),
    }
    assert!(matches!(probe("https://SUNO.com/song/x"), Look::Suno));
    assert!(matches!(probe("https://cdn.suno.ai/x"), Look::Suno));
    assert!(matches!(probe("https://example.com/x"), Look::Ask));
}

#[test]
fn songs_are_found_by_their_identifier() {
    let id = suno_id("https://suno.com/song/01234567-89AB-cdef-0123-456789abcdef?x").unwrap();
    assert_eq!(id, "01234567-89ab-cdef-0123-456789abcdef");
    assert_eq!(suno_id("https://suno.com/me").unwrap_err(), "這個 Suno 連結裡沒有歌曲 id");
    assert_eq!(
        suno_candidates("ab"),
        ["https://cdn1.suno.ai/ab.mp4", "https://cdn1.suno.ai/ab.mp3"]
    );
}

#[test]
fn a_song_is_titled_by_its_page_or_its_identifier() {
    let page = r#"<meta property="og:title" content="Rain &amp; Sun">"#;
    let back = r#"<META content='Other' name="og:title">"#;
    assert_eq!(og_title(page).as_deref(), Some("Rain &amp; Sun"));
    assert_eq!(og_title(back).as_deref(), Some("Other"));
    assert_eq!(og_title("<title>x</title>"), None);
    let f = suno("ab", false, true, Some(page)).unwrap();
    assert_eq!((f.media.as_str(), f.title.as_str()), ("https://cdn1.suno.ai/ab.mp3", "Rain & Sun"));
    let g = suno("ab", true, true, None).unwrap();
    assert_eq!((g.media.as_str(), g.title.as_str()), ("https://cdn1.suno.ai/ab.mp4", "ab"));
    assert_eq!(suno_title("ab", Some(" &nbsp; ".to_string())), "ab");
    assert_eq!(
        suno("ab", false, false, Some(page)).unwrap_err(),
        "Suno 的 CDN 上找不到這首（可能是私人的，或路徑規則又改了）"
    );
}

#[test]
fn sound_is_taken_out_without_encoding() {
    assert_eq!(
        extract_audio("a.mp4", "b.m4a"),
        ["-v", "error", "-nostdin", "-y", "-i", "a.mp4", "-vn", "-c:a", "copy", "b.m4a"]
    );
    assert_eq!(extract_audio_error("\nno audio\n"), "抽出音軌失敗：no audio");
}

#[test]
fn a_request_goes_under_one_name() {
    let pair = |k: &str, v: &str| (k.to_string(), v.to_string());
    assert_eq!(request_headers(&vec![]), vec![pair("user-agent", UA)]);
    assert_eq!(
        request_headers(&vec![pair("cookie", "a=1")]),
        vec![pair("user-agent", UA), pair("cookie", "a=1")]
    );
    let own = vec![pair("User-Agent", "x"), pair("cookie", "a=1")];
    assert_eq!(request_headers(&own), own);
}
