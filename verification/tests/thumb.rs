use haul::engine::queue::Item;
use haul::paths::Platform;
use haul::thumb::{made, make_args, path_for, path_with_key, source_of, DIR, SIZE};

#[test]
fn thumb_path_is_stable_and_lives_in_the_hidden_folder() {
    let out = "/out";
    let a = path_for(Platform::Linux, out, "/out/a.mp4");
    assert_eq!(a, path_for(Platform::Linux, out, "/out/a.mp4"));
    assert!(a.starts_with("/out/.haul-thumbs"));
    assert_eq!(a.rsplit('.').next().unwrap(), "jpg");
    assert_ne!(a, path_for(Platform::Linux, out, "/out/b.mp4"));
}

#[test]
fn the_key_is_sixteen_digits() {
    assert_eq!(path_with_key(Platform::Linux, "/out", 0xab), "/out/.haul-thumbs/00000000000000ab.jpg");
    assert_eq!(path_with_key(Platform::Linux, "/out", u64::MAX), "/out/.haul-thumbs/ffffffffffffffff.jpg");
    assert_eq!((DIR, SIZE), (".haul-thumbs", 96));
}

#[test]
fn the_picture_is_a_square_from_the_given_second() {
    assert_eq!(
        make_args("m.mp4", Some("0.50"), "d.jpg"),
        [
            "-v", "error", "-nostdin", "-y", "-ss", "0.50", "-i", "m.mp4", "-map", "0:v:0",
            "-frames:v", "1", "-vf",
            "scale=96:96:force_original_aspect_ratio=increase,crop=96:96",
            "-q:v", "4", "d.jpg"
        ]
    );
    assert_eq!(make_args("m", None, "d").len(), 15);
}

#[test]
fn nothing_made_is_no_picture() {
    assert!(made(true, Some(1)));
    assert!(!made(true, Some(0)));
    assert!(!made(false, Some(9)));
    assert!(!made(true, None));
}

#[test]
fn keys_have_their_own_pictures() {
    let at = |key: u64| path_with_key(Platform::Windows, r"D:\out", key);
    assert_eq!(at(1), r"D:\out\.haul-thumbs\0000000000000001.jpg");
    assert_ne!(at(1), at(1 << 63 | 1));
}

fn item(status: &str, kind: &str, verified: Option<&str>, path: Option<&str>) -> Item {
    Item {
        id: 1,
        input: "u".to_string(),
        title: "t".to_string(),
        kind: kind.to_string(),
        status: status.to_string(),
        bytes: 0,
        total: 0,
        secs: None,
        file: None,
        verified: verified.map(str::to_string),
        path: path.map(str::to_string),
        error: None,
    }
}

#[test]
fn only_media_and_images_get_thumbs() {
    let of = |kind: &str, level: &str| source_of(&item("done", kind, Some(level), Some("/f")), true);
    let file = |seeks: bool| Ok(Some(("/f".to_string(), seeks)));
    assert_eq!(of("video", "media"), file(true));
    assert_eq!(of("audio", "media"), file(false));
    assert_eq!(of("image", "image"), file(false));
    assert_eq!(of("video", "image"), file(false));
    assert_eq!(of("video", "archive"), Ok(None));
    assert_eq!(of("video", "text"), Ok(None));
    assert_eq!(source_of(&item("done", "video", None, Some("/f")), true), Ok(None));
}

#[test]
fn what_is_not_finished_or_gone_has_no_picture() {
    let err = |i: Item, is_file: bool| source_of(&i, is_file).unwrap_err();
    assert_eq!(err(item("verifying", "video", Some("media"), Some("/f")), true), "還沒完成");
    assert_eq!(err(item("done", "video", Some("media"), None), true), "沒有檔案");
    assert_eq!(err(item("done", "video", Some("media"), Some("/f")), false), "檔案已不在");
}
