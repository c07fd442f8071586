use haul::cookies::{
    browsers, export, export_error, header_for_host, is_supported, parse_netscape, redact,
};

#[test]
fn accepts_the_browsers_yt_dlp_actually_supports() {
    assert!(is_supported("chrome"));
    assert!(is_supported("Firefox"));
    assert!(is_supported("chrome:Default"));
    assert!(!is_supported("netscape"));
    assert!(is_supported("brave+gnomekeyring"));
    assert!(!is_supported(""));
    assert_eq!(browsers().len(), 9);
}

#[test]
fn builds_a_cookie_header_for_matching_hosts() {
    let f = "# Netscape HTTP Cookie File\n\
             .example.com\tTRUE\t/\tTRUE\t0\tsess\tabc\n\
             #HttpOnly_.example.com\tTRUE\t/\tTRUE\t0\ttoken\txyz\n\
             other.com\tTRUE\t/\tTRUE\t0\tnope\t1\n";
    let h = header_for_host(f, "www.example.com").unwrap();
    assert!(h.contains("sess=abc"));
    assert!(h.contains("token=xyz"));
    assert!(!h.contains("nope"));
    assert_eq!(h, "sess=abc; token=xyz");
    assert_eq!(header_for_host(f, "EXAMPLE.com").unwrap(), "sess=abc; token=xyz");
    assert_eq!(header_for_host(f, "notexample.com"), None);
}

#[test]
fn parses_netscape_rows_into_structs() {
    let f = "# Netscape HTTP Cookie File\n\
             .example.com\tTRUE\t/\tTRUE\t1800000000\tsess\tabc\n\
             #HttpOnly_.example.com\tTRUE\t/api\tFALSE\t0\ttoken\txyz\n";
    let rows = parse_netscape(f);
    assert_eq!(rows.len(), 2);
    assert_eq!(rows[0].domain, ".example.com");
    assert!(rows[0].secure);
    assert_eq!(rows[0].expires, Some(1_800_000_000));
    assert_eq!(rows[1].path, "/api");
    assert!(rows[1].http_only);
    assert_eq!(rows[1].expires, None);
    assert_eq!((rows[1].name.as_str(), rows[1].value.as_str()), ("token", "xyz"));
}

#[test]
fn short_rows_and_comments_are_passed_over() {
    assert!(parse_netscape("# a\tb\tc\td\te\tf\tg\n\n   \na\tb\tc\td\te\n").is_empty());
    let six = parse_netscape("a\tb\tc\ttrue\tx\tn\r\n");
    assert_eq!(six.len(), 1);
    assert_eq!(six[0].value, "");
    assert!(six[0].secure);
    assert_eq!(six[0].expires, None);
    assert!(!six[0].http_only);
}

#[test]
fn no_matching_cookie_is_none_not_empty() {
    let f = "other.com\tTRUE\t/\tTRUE\t0\tx\t1\n";
    assert_eq!(header_for_host(f, "example.com"), None);
}

#[test]
fn redacts_secret_looking_query_params() {
    let got = redact("https://x.com/a.mp4?e=123&upsig=deadbeef&token=abc&os=cos");
    assert!(got.contains("e=123"), "{got}");
    assert!(got.contains("os=cos"));
    assert!(!got.contains("deadbeef"), "{got}");
    assert!(!got.contains("abc"));
    assert_eq!(got, "https://x.com/a.mp4?e=123&upsig=<已遮蔽>&token=<已遮蔽>&os=cos");
}

#[test]
fn redact_leaves_plain_urls_alone() {
    let u = "https://x.com/a/b.mp4";
    assert_eq!(redact(u), u);
}

#[test]
fn redacting_twice_changes_nothing_more() {
    let once = redact("https://x/?X_API_KEY=1&key&a==b&?&");
    assert_eq!(once, "https://x/?X_API_KEY=<已遮蔽>&key=<已遮蔽>&a==b&?&");
    assert_eq!(redact(&once), once);
}

#[test]
fn an_export_is_refused_for_unknown_browsers() {
    let a = export("chrome", "https://x/", "/tmp/c.txt").unwrap();
    assert_eq!(
        a,
        [
            "--ignore-config",
            "--no-warnings",
            "--simulate",
            "--skip-download",
            "--cookies-from-browser",
            "chrome",
            "--cookies",
            "/tmp/c.txt",
            "https://x/"
        ]
    );
    assert_eq!(
        export("mosaic", "u", "d").unwrap_err(),
        "不認得的瀏覽器：mosaic（支援 brave、chrome、chromium、edge、firefox、opera、safari、vivaldi、whale）"
    );
    assert_eq!(export_error("edge", "a\n  why \n\n"), "讀取 edge 的 cookie 失敗：why");
    assert_eq!(export_error("edge", ""), "讀取 edge 的 cookie 失敗：yt-dlp 沒有說明原因");
}
