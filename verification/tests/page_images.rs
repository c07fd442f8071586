use haul::page_images::{
    collect, descriptors, extract, gather, is_junk, largest_in_srcset, page_address, page_came,
    scrape, some_images, stem_of, Image, Page, Rank, Reply, MAX_ITEMS, MIN_BYTES, RANK_OF_ONE,
};
use haul::web::Address;

fn base() -> Address {
    Address::parse("https://example.com/user/repo").unwrap()
}

/// The place of a double in the total order of doubles.
fn key(v: f64) -> i64 {
    let bits = v.to_bits() as i64;
    bits ^ ((((bits >> 63) as u64) >> 1) as i64)
}

fn rank(texts: &[String]) -> Vec<Rank> {
    texts
        .iter()
        .filter_map(|t| t.parse::<f64>().ok().map(|v| Rank { text: t.clone(), key: key(v) }))
        .collect()
}

fn page(html: &str) -> Page {
    extract(html, &base(), &rank(&descriptors(html)))
}

fn ranks(texts: &[&str]) -> Vec<Rank> {
    rank(&texts.iter().map(|t| t.to_string()).collect::<Vec<_>>())
}

#[test]
fn picks_img_src_and_resolves_relative_urls() {
    let html = r#"<html><head><title>Repo &amp; Stuff</title></head>
            <body><img src="/user/repo/raw/master/images/a.png">
            <img src="https://cdn.example.com/b.jpg"></body></html>"#;
    let p = page(html);
    assert_eq!(p.title, "Repo & Stuff");
    let urls: Vec<_> = p.images.iter().map(|i| i.url.as_str()).collect();
    assert_eq!(
        urls,
        [
            "https://example.com/user/repo/raw/master/images/a.png",
            "https://cdn.example.com/b.jpg"
        ]
    );
    assert_eq!(p.images[0].title, "a");
}

#[test]
fn srcset_beats_src_and_takes_the_largest() {
    let html = r#"<img src="small.jpg" srcset="m.jpg 800w, l.jpg 1600w, s.jpg 400w">"#;
    let p = page(html);
    assert_eq!(p.images.len(), 1);
    assert_eq!(p.images[0].url, "https://example.com/user/l.jpg");
}

#[test]
fn drops_avatars_badges_svg_and_data_uris() {
    let html = r#"
            <img src="https://avatars.githubusercontent.com/u/1?v=4">
            <img src="https://img.shields.io/badge/x-y-blue">
            <img src="/logo.svg">
            <img src="data:image/png;base64,AAAA">
            <img src="/photos/real.jpg">"#;
    let p = page(html);
    assert_eq!(p.images.len(), 1);
    assert!(p.images[0].url.ends_with("/photos/real.jpg"));
}

#[test]
fn dedupes_and_includes_image_links() {
    let html = r#"<img src="https://x.com/a.png">
            <img src="https://x.com/a.png">
            <a href="https://x.com/full.jpeg?size=large">full</a>"#;
    let p = page(html);
    let urls: Vec<_> = p.images.iter().map(|i| i.url.as_str()).collect();
    assert_eq!(urls, ["https://x.com/a.png", "https://x.com/full.jpeg?size=large"]);
}

#[test]
fn og_image_is_only_a_fallback() {
    let html = r#"<meta property="og:image" content="https://x.com/og.png">
            <img src="https://x.com/a.png">"#;
    assert_eq!(page(html).images.len(), 1);
    let html = r#"<meta property="og:image" content="https://x.com/og.png">
            <img src="https://x.com/avatar.png">"#;
    let p = page(html);
    assert_eq!(p.images.len(), 1);
    assert_eq!(p.images[0].url, "https://x.com/og.png");
}

#[test]
fn caps_the_number_of_images() {
    let html: String = (0..(MAX_ITEMS + 50))
        .map(|i| format!(r#"<img src="/p/{i}.jpg">"#))
        .collect();
    assert_eq!(page(&html).images.len(), MAX_ITEMS);
}

#[test]
fn falls_back_to_host_when_there_is_no_title() {
    let p = page(r#"<img src="/a.png">"#);
    assert_eq!(p.title, "example.com");
}

#[test]
fn names_come_from_the_path_or_a_number() {
    let p = page(r#"<img src="/a/"><img src="https://x.com/"><img src="mailto:x@y"><img src="/b.tar.gz?q=1">"#);
    let titles: Vec<_> = p.images.iter().map(|i| i.title.as_str()).collect();
    assert_eq!(titles, ["a", "image-2", "b.tar"]);
    assert_eq!(stem_of(&Address::parse("https://x.com/p/%20.png").unwrap()).as_deref(), Some("%20"));
    assert_eq!(stem_of(&Address::parse("https://x.com/").unwrap()), None);
}

#[test]
fn the_largest_descriptor_wins_and_the_last_of_equals() {
    let r = ranks(&["1", "2", "1.5", "-1", "1e3"]);
    assert_eq!(largest_in_srcset("a 1x, b 2x", &r).as_deref(), Some("b"));
    assert_eq!(largest_in_srcset("a 2x, b 1.5x,c  2w", &r).as_deref(), Some("c"));
    assert_eq!(largest_in_srcset("a, b -1x", &r).as_deref(), Some("a"));
    assert_eq!(largest_in_srcset("a 1e3w, b 2x", &r).as_deref(), Some("a"));
    assert_eq!(largest_in_srcset("a nonsense, b 1x", &r).as_deref(), Some("b"));
    assert_eq!(largest_in_srcset(" , ", &r), None);
    assert_eq!(key(1.0), RANK_OF_ONE);
    assert!(key(-1.0) < key(0.0) && key(0.0) < key(0.5));
}

#[test]
fn descriptors_are_listed_for_ranking() {
    let html = r#"<img srcset="a 1x, b 2.5x, c" data-src="d 7w"><img data-srcset="e 30w">"#;
    assert_eq!(descriptors(html), ["1", "2.5", "7", "30"]);
}

#[test]
fn addresses_are_collected_from_their_groups() {
    let g = |v: &[&str]| v.iter().map(|s| s.to_string()).collect::<Vec<_>>();
    let imgs = vec![
        vec![g(&["", "src", "a.png"]), g(&["", "SRCSET", "b.png 2x"])],
        vec![g(&["", "data-src", "c&amp;d.png"])],
        vec![],
    ];
    let links = vec![g(&["", "e.png"])];
    let shared = vec![g(&["", "f.png"])];
    assert_eq!(collect(&imgs, &links, &shared, &ranks(&["2"])), ["b.png", "c&d.png", "e.png"]);
    assert_eq!(collect(&vec![], &vec![], &shared, &vec![]), ["f.png"]);
}

#[test]
fn pictures_are_gathered_from_where_addresses_lead() {
    let raw: Vec<String> = ["a", "icon", "b", "c", "d"].iter().map(|s| s.to_string()).collect();
    let web = |u: &str| Some(Address::parse(u).unwrap());
    let leads = vec![
        web("https://x/1.png"),
        web("https://x/2.png"),
        web("ftp://x/3.png"),
        web("https://x/1.png"),
        None,
    ];
    let got = gather(&raw, leads);
    assert_eq!(
        got,
        vec![Image { url: "https://x/1.png".into(), title: "1".into(), content_type: None }]
    );
}

#[test]
fn junk_is_told_whatever_its_case() {
    assert!(is_junk("HTTPS://X/LOGO.png"));
    assert!(is_junk("https://x/a.svg?v=1"));
    assert!(is_junk("DATA:image/png"));
    assert!(!is_junk("https://x/photo.png"));
}

fn image(url: &str) -> Image {
    Image { url: url.to_string(), title: "t".to_string(), content_type: None }
}

fn reply(status: u16, ct: Option<&str>, length: Option<u64>) -> Option<Reply> {
    Some(Reply { status, content_type: ct.map(|s| s.to_string()), length })
}

#[test]
fn small_and_foreign_pictures_are_dropped() {
    let p = Page {
        title: "T".to_string(),
        images: ["1", "2", "3", "4", "5", "6", "7"].iter().map(|u| image(u)).collect(),
    };
    let replies = vec![
        None,
        reply(404, Some("image/png"), Some(99_999)),
        reply(200, Some("text/html"), Some(99_999)),
        reply(200, Some("Image/PNG; x"), Some(MIN_BYTES)),
        reply(200, Some("image/png"), Some(MIN_BYTES - 1)),
        reply(200, Some("application/octet-stream"), None),
        reply(200, None, None),
    ];
    let kept = scrape(p, &replies).unwrap();
    let urls: Vec<_> = kept.images.iter().map(|i| i.url.as_str()).collect();
    assert_eq!(urls, ["1", "4", "6", "7"]);
    assert_eq!(kept.images[1].content_type.as_deref(), Some("image/png"));
    assert_eq!(kept.images[0].content_type, None);
}

#[test]
fn a_page_without_pictures_is_refused() {
    let p = Page { title: "T".to_string(), images: vec![image("1")] };
    assert_eq!(
        scrape(p, &vec![reply(500, None, None)]).unwrap_err(),
        "這一頁上的圖片都太小或不是圖片（圖示、徽章之類）"
    );
    assert_eq!(
        some_images(Page { title: String::new(), images: vec![] }).unwrap_err(),
        "這一頁上找不到圖片"
    );
    assert!(some_images(Page { title: String::new(), images: vec![image("1")] }).is_ok());
    assert_eq!(page_came(503).unwrap_err(), "HTTP 503");
    assert!(page_came(204).is_ok());
    assert!(page_address("nowhere").unwrap_err().starts_with("不是合法網址："));
    assert_eq!(page_address("HTTP://X.com").unwrap().text, "http://x.com/");
}
