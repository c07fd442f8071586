use haul::browser::cdp::CdpEvent;
use haul::browser::sniff::Kind;
use haul::browser::traffic::{candidate_of, headers_of, merge_headers, Requests};
use haul::json::Json;

fn json(text: &str) -> Json {
    Json::parse(text).unwrap()
}

fn pairs(v: &[(&str, &str)]) -> Vec<(String, String)> {
    v.iter().map(|(a, b)| (a.to_string(), b.to_string())).collect()
}

#[test]
fn the_fuller_account_of_headers_counts() {
    let known = headers_of(&json(r#"{"Cookie":"old","Referer":"r","n":1}"#));
    assert_eq!(known, pairs(&[("Cookie", "old"), ("Referer", "r"), ("n", "")]));
    let extra = pairs(&[("cookie", "new"), ("Origin", "o")]);
    assert_eq!(
        merge_headers(&known, &extra),
        pairs(&[("Referer", "r"), ("n", ""), ("cookie", "new"), ("Origin", "o")])
    );
    assert!(headers_of(&json("[]")).is_empty());
}

#[test]
fn a_response_with_media_is_a_candidate() {
    let p = json(
        r#"{"type":"Media","response":{"status":206,"url":"https://cdn.x.com/v","mimeType":"video/mp4",
            "headers":{"Content-Range":"bytes 0-1/50000","content-length":"2"}}}"#,
    );
    let h = pairs(&[("Referer", "r"), ("Range", "bytes=0-1")]);
    let c = candidate_of(&p, &h, None).unwrap();
    assert_eq!((c.url.as_str(), c.kind, c.size), ("https://cdn.x.com/v", Kind::File, Some(50_000)));
    assert_eq!(c.mime, "video/mp4");
    assert_eq!(c.headers, pairs(&[("Referer", "r")]));
}

#[test]
fn failures_advertisements_and_pages_are_none() {
    let of = |status: u64, url: &str, mime: &str, asked: Option<&str>| {
        let p = json(&format!(
            r#"{{"response":{{"status":{status},"url":"{url}","mimeType":"{mime}","headers":{{"Content-Range":"bytes */*","Content-Length":"77"}}}}}}"#
        ));
        candidate_of(&p, &pairs(&[]), asked)
    };
    assert!(of(404, "https://x/v.mp4", "video/mp4", None).is_none());
    assert!(of(200, "https://ad.doubleclick.net:443/v.mp4", "video/mp4", None).is_none());
    assert!(of(200, "https://x/page", "text/html", None).is_none());
    assert!(of(200, "data", "video/mp4", None).is_none());
    assert_eq!(of(200, "https://x/s", "", Some("Media")).unwrap().kind, Kind::File);
    assert_eq!(of(200, "https://x/v.mp4", "", None).unwrap().size, Some(77));
    assert!(candidate_of(&json("{}"), &pairs(&[]), None).is_none());
}

fn event(method: &str, params: &str) -> CdpEvent {
    CdpEvent { method: method.to_string(), params: json(params), session_id: None }
}

const SENT: &str = "Network.requestWillBeSent";
const EXTRA: &str = "Network.requestWillBeSentExtraInfo";
const CAME: &str = "Network.responseReceived";

#[test]
fn a_response_gets_the_headers_of_its_own_request() {
    let mut r = Requests::new();
    let sent = r#"{"requestId":"7","type":"Media","request":{"headers":{"Referer":"r","Cookie":"old"}}}"#;
    assert!(r.see(&event(SENT, sent)).is_none());
    assert!(r.see(&event(EXTRA, r#"{"requestId":"7","headers":{"cookie":"new"}}"#)).is_none());
    assert!(r.see(&event(EXTRA, r#"{"requestId":"8","headers":{"Origin":"o"}}"#)).is_none());
    assert!(r.see(&event(EXTRA, r#"{"headers":{"Cookie":"nobody"}}"#)).is_none());
    assert!(r.see(&event("Page.loaded", r#"{"requestId":"7"}"#)).is_none());
    let came = |id: &str| {
        format!(r#"{{"requestId":"{id}","response":{{"status":200,"url":"https://x/s","mimeType":""}}}}"#)
    };
    let c = r.see(&event(CAME, &came("7"))).unwrap();
    assert_eq!((c.kind, c.size), (Kind::File, None));
    assert_eq!(c.headers, pairs(&[("Referer", "r"), ("cookie", "new")]));
    assert!(r.see(&event(CAME, &came("8"))).is_none());
    assert!(r.see(&event(CAME, &came("9"))).is_none());
}

#[test]
fn the_fuller_account_may_come_first() {
    let mut r = Requests::new();
    r.see(&event(EXTRA, r#"{"requestId":"1","headers":{"Cookie":"c"}}"#));
    r.see(&event(SENT, r#"{"requestId":"1","request":{"headers":{"Referer":"r"}}}"#));
    let came = r#"{"requestId":"1","type":"Media","response":{"status":206,"url":"https://x/s"}}"#;
    let c = r.see(&event(CAME, came)).unwrap();
    assert_eq!(c.headers, pairs(&[("Cookie", "c"), ("Referer", "r")]));
}
