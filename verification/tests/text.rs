use haul::json::Json;
use haul::number::{parse, to_decimal, to_padded};
use haul::paths::{file_name, join as join_path, Platform};
use haul::text::{
    cat, find_last_text, find_text, first_line, full_lines, is_white, join, last_line, lines_of,
    replace, second_part, split_text, to_lower, to_upper, trim, trim_class, words_of, Class,
};
use haul::web::Address;

#[test]
fn white_space_is_what_unicode_says() {
    for c in (0u32..=0x10ffff).filter_map(char::from_u32) {
        assert_eq!(is_white(c), c.is_whitespace(), "{c:?}");
    }
}

const SAMPLES: [&str; 12] = [
    "",
    " ",
    "a",
    "\n",
    "a\n",
    "a\r\nb\r",
    "\r\n\r\n",
    "  x \t y\u{3000}z ",
    "a,b,,c,",
    "://a://b",
    "ÄÖ宮a.B.c",
    "&amp;&amp;amp;",
];

#[test]
fn texts_are_cut_like_strings() {
    for s in SAMPLES {
        assert_eq!(lines_of(s), s.lines().collect::<Vec<_>>(), "{s:?}");
        assert_eq!(words_of(s), s.split_whitespace().collect::<Vec<_>>());
        assert_eq!(trim(s), s.trim());
        assert_eq!(split_text(s, Class::Is(',')), s.split(',').collect::<Vec<_>>());
        assert_eq!(
            split_text(s, Class::Either('.', '/')),
            s.split(['.', '/']).collect::<Vec<_>>()
        );
        assert_eq!(to_lower(s), s.to_ascii_lowercase());
        assert_eq!(to_upper(s), s.to_ascii_uppercase());
        assert_eq!(replace(s, "&amp;", "&"), s.replace("&amp;", "&"));
        assert_eq!(second_part(s, "://"), s.split("://").nth(1));
        assert_eq!(trim_class(s, Class::Is('a')), s.trim_matches('a'));
        assert_eq!(
            first_line(s),
            s.lines().find(|l| !l.trim().is_empty()).unwrap_or("")
        );
        assert_eq!(
            last_line(s).as_deref(),
            s.lines().rev().find(|l| !l.trim().is_empty()).map(|l| l.trim())
        );
        assert_eq!(
            full_lines(s),
            s.lines().filter(|l| !l.trim().is_empty()).collect::<Vec<_>>()
        );
    }
}

#[test]
fn positions_are_those_of_characters() {
    assert_eq!(find_text("宮a宮b", "宮b"), Some(2));
    assert_eq!(find_text("abc", ""), Some(0));
    assert_eq!(find_text("abc", "d"), None);
    assert_eq!(find_last_text("a | b | c", " | "), Some(5));
    assert_eq!(find_last_text("abc", "x"), None);
    assert_eq!(cat("宮", "a"), "宮a");
}

#[test]
fn joining_and_splitting_undo_each_other() {
    let parts = split_text("a&b&&c", Class::Is('&'));
    assert_eq!(parts, ["a", "b", "", "c"]);
    assert_eq!(join(&parts, "&"), "a&b&&c");
    assert_eq!(join(&vec![], "&"), "");
}

#[test]
fn numbers_are_written_and_read_like_std() {
    for n in [0u64, 7, 10, 99, 1000, u64::MAX] {
        assert_eq!(to_decimal(n), n.to_string());
        assert_eq!(parse(&to_decimal(n), u64::MAX), Some(n));
    }
    for s in ["", "+", "+5", "-5", "007", "1 ", "18446744073709551616", "１", "99999999999999999999999"] {
        assert_eq!(parse(s, u64::MAX), s.parse::<u64>().ok(), "{s:?}");
    }
    assert_eq!(parse("256", 255), None);
    assert_eq!(to_padded(7, 4), "0007");
    assert_eq!(to_padded(12345, 4), "12345");
}

#[test]
fn paths_are_joined_like_on_unix() {
    for (a, b) in [("/a", "b"), ("/a/", "b"), ("", "b"), ("/a", "/b"), ("a", "")] {
        assert_eq!(join_path(Platform::Linux, a, b), std::path::Path::new(a).join(b).to_str().unwrap());
    }
}

#[test]
fn paths_are_joined_as_the_system_does() {
    let win = |a: &str, b: &str| join_path(Platform::Windows, a, b);
    assert_eq!(win(r"C:\u", "Downloads"), r"C:\u\Downloads");
    assert_eq!(win(r"C:\u\", "a"), r"C:\u\a");
    assert_eq!(win("C:/u/", "a"), "C:/u/a");
    assert_eq!(win("C:", "a"), "C:a");
    assert_eq!(win("", "a"), "a");
    assert_eq!(win(r"\\server\share", "a"), r"\\server\share\a");
    assert_eq!(win(r"C:\u", r"D:\v"), r"D:\v");
    assert_eq!(win(r"C:\u", r"\v"), r"C:\v");
    assert_eq!(win(r"C:\u", r"\\server\share"), r"\\server\share");
    assert_eq!(join_path(Platform::Linux, "/u", r"D:\v"), r"/u/D:\v");
    assert_eq!(join_path(Platform::MacOs, r"a\", "b"), r"a\/b");
    assert_eq!(file_name(Platform::Windows, r"C:/u\a.mp4"), "a.mp4");
    assert_eq!(file_name(Platform::Linux, r"/u/a\b.mp4"), r"a\b.mp4");
}

#[test]
fn json_is_read_with_its_members() {
    let j = Json::parse(r#"{"a":"x","n":7,"f":1.5,"neg":-1,"l":["p","q"],"t":true,"z":null}"#).unwrap();
    assert_eq!(j.text_at("a"), Some("x"));
    assert_eq!(j.text_at("n"), None);
    assert!(matches!(j.get("n"), Some(Json::Number(Some(7)))));
    assert!(matches!(j.get("f"), Some(Json::Number(None))));
    assert!(matches!(j.get("neg"), Some(Json::Number(None))));
    assert!(matches!(j.get("t"), Some(Json::Bool(true))));
    assert!(matches!(j.get("z"), Some(Json::Null)));
    assert!(j.get("missing").is_none());
    assert_eq!(j.get("l").unwrap().texts(), Some(vec!["p".to_string(), "q".to_string()]));
    assert_eq!(j.texts(), None);
    assert!(matches!(j.take("l"), Json::List(v) if v.len() == 2));
    assert!(Json::parse("{").is_err());
}

#[test]
fn addresses_are_read_in_their_parts() {
    let a = Address::parse("HTTPS://Example.com:8080/a/b%20c?q#f").unwrap();
    assert_eq!(a.text, "https://example.com:8080/a/b%20c?q#f");
    assert_eq!((a.scheme.as_str(), a.host.as_deref()), ("https", Some("example.com")));
    assert_eq!(a.segments, Some(vec!["a".to_string(), "b%20c".to_string()]));
    let m = Address::parse("mailto:x@y").unwrap();
    assert_eq!((m.host, m.segments), (None, None));
    assert!(Address::parse("/relative").is_err());
}

#[test]
fn long_texts_take_no_longer_than_their_length() {
    let text = "一行 of text\r\n".repeat(200_000);
    assert_eq!(lines_of(&text), text.lines().collect::<Vec<_>>());
    assert_eq!(words_of(&text), text.split_whitespace().collect::<Vec<_>>());
    assert_eq!(split_text(&text, Class::Is('o')), text.split('o').collect::<Vec<_>>());
    assert_eq!(replace(&text, "of", "with"), text.replace("of", "with"));
    assert_eq!(find_text(&text, "nothing"), None);
}
