use haul::browser::chrome::Place;
use haul::gallery::{
    file_name, find, list, list_args, parse_dump, supported, supported_args, EXIT_UNSUPPORTED,
    MAX_ITEMS,
};
use haul::json::Json;
use haul::paths::Platform;

fn json(text: &str) -> Json {
    Json::parse(text).unwrap()
}

#[test]
fn picks_only_rows_that_carry_a_url() {
    let v = json(
        r#"[
            [1, { "subcategory": "category", "title": "Cats" }],
            [2, "https://example.com/a.jpg", { "filename": "a cat", "extension": "jpg" }],
            [2, "https://example.com/b.png", { "filename": "b cat", "extension": "png" }]
        ]"#,
    );
    let got = parse_dump(&v);
    assert_eq!(got.len(), 2);
    assert_eq!(got[0].title, "a cat");
    assert_eq!(got[0].ext, "jpg");
    assert_eq!(got[1].url, "https://example.com/b.png");
}

#[test]
fn falls_back_to_the_url_tail_when_filename_is_missing() {
    let v = json(r#"[[2, "https://example.com/x/y/img_09.jpg?token=1", { "extension": "jpg" }]]"#);
    let got = parse_dump(&v);
    assert_eq!(got[0].title, "img_09");
}

#[test]
fn subcategory_rows_that_carry_a_page_url_are_rejected() {
    let v = json(
        r#"[[
            1,
            "https://commons.wikimedia.org/wiki/Category:Turkish_Cat_Research_Centres",
            { "subcategory": "category", "title": "Turkish Cat Research Centres" }
        ]]"#,
    );
    assert!(parse_dump(&v).is_empty());
}

#[test]
fn ignores_non_http_and_malformed_rows() {
    let v = json(
        r#"[
            [2, "data:image/png;base64,AAAA", {}],
            ["not a row"],
            [1],
            [2, 12345, {}]
        ]"#,
    );
    assert!(parse_dump(&v).is_empty());
}

#[test]
fn empty_input_is_not_a_panic() {
    assert!(parse_dump(&json("[]")).is_empty());
    assert!(parse_dump(&json("{}")).is_empty());
}

#[test]
fn extensions_are_at_most_five_bytes() {
    let row = |ext: &str| format!(r#"[[2,"http://x/noname",{{"extension":"{ext}","filename":""}}]]"#);
    assert_eq!(parse_dump(&json(&row("jpeg2")))[0].title, "image");
    assert!(parse_dump(&json(&row("jpeg20"))).is_empty());
    assert!(parse_dump(&json(&row("圖圖"))).is_empty());
    assert!(parse_dump(&json(&row(""))).is_empty());
}

#[test]
fn a_list_says_why_it_is_empty() {
    let one = br#"[[2,"https://x/a.jpg",{"extension":"jpg","filename":"a"}]]"#;
    assert_eq!(list(Some(0), one, b"").unwrap().len(), 1);
    assert_eq!(list(Some(64), one, b"").unwrap_err(), "gallery-dl 不支援這個網址");
    assert_eq!(list(Some(1), one, b"x\n last \n").unwrap_err(), "last");
    assert_eq!(list(None, one, b"").unwrap_err(), "gallery-dl 沒有給出原因");
    assert_eq!(list(Some(0), b"[]", b"").unwrap_err(), "這個頁面上沒有找到可下載的圖片");
    assert!(list(Some(0), b"oops", b"").unwrap_err().starts_with("看不懂 gallery-dl 的輸出："));
}

#[test]
fn a_list_is_asked_for_within_limits() {
    assert_eq!(list_args("u", 0, None), ["--dump-json", "--range", "1-1", "u"]);
    assert_eq!(
        list_args("u", 9999, Some("c.txt")),
        ["--dump-json", "--range", "1-500", "--cookies", "c.txt", "u"]
    );
    assert_eq!(list_args("u", 7, None)[2], "1-7");
    assert_eq!(supported_args("u"), ["--simulate", "--range", "1-1", "u"]);
    assert_eq!(MAX_ITEMS, 500);
}

#[test]
fn only_one_exit_code_means_unsupported() {
    assert!(!supported(Some(Some(EXIT_UNSUPPORTED))));
    assert!(supported(Some(Some(0))));
    assert!(supported(Some(Some(1))));
    assert!(supported(Some(None)));
    assert!(!supported(None));
}

#[test]
fn the_program_is_the_first_that_is_there() {
    let p = |path: &str, is_file: bool| Place { path: path.to_string(), is_file };
    assert_eq!(find(&vec![p("/own", false), p("/p1", true), p("/p2", true)]).as_deref(), Some("/p1"));
    assert_eq!(find(&vec![]), None);
    assert_eq!(file_name(Platform::Windows), "gallery-dl.exe");
    assert_eq!(file_name(Platform::MacOs), "gallery-dl");
}
