//! The little picture of a finished item.

use std::hash::BuildHasher;
use vstd::prelude::*;
use crate::engine::queue::{Item, ItemView};
use crate::number::{decimal, to_decimal};
use crate::paths::{self, Platform};
use crate::text::{cat, cat3, followed, push_text, same, str_of, texts};
use crate::verify::{level_name, Level};

verus! {

/// The length of its sides.
pub const SIZE: u32 = 96;

/// The directory of the little pictures, inside the one of the files.
pub const DIR: &'static str = ".haul-thumbs";

/// A hexadecimal digit.
pub open spec fn hex_char(d: int) -> char {
    if d < 10 {
        (48 + d) as char
    } else {
        (87 + d) as char
    }
}

/// The last `n` hexadecimal digits of a number.
pub open spec fn hex_digits(v: nat, n: nat) -> Seq<char>
    decreases n,
{
    if n == 0 {
        seq![]
    } else {
        hex_digits(v / 16, (n - 1) as nat).push(hex_char((v % 16) as int))
    }
}

fn to_hex(v: u64, n: usize) -> (r: String)
    ensures
        r@ == hex_digits(v as nat, n as nat),
    decreases n,
{
    if n == 0 {
        return String::new();
    }
    let mut out = to_hex(v / 16, n - 1);
    let d: u8 = (v % 16) as u8;
    if d < 10 {
        out.push((48 + d) as char);
    } else {
        out.push((87 + d) as char);
    }
    out
}

/// The path of the little picture under the given key.
pub open spec fn thumb_path(platform: Platform, out_dir: Seq<char>, key: u64) -> Seq<char> {
    paths::joined(platform, paths::joined(platform, out_dir, DIR@), hex_digits(key as nat, 16) + ".jpg"@)
}

/// Calls `hash_one` of std's default hasher on the path. The keys of the hasher
/// are fixed, but std leaves open which number a path gets, and it may differ
/// from one release or machine to another, so nothing is claimed of it.
#[verifier::external_body]
fn key_of(media: &str) -> u64 {
    std::hash::BuildHasherDefault::<std::collections::hash_map::DefaultHasher>::default().hash_one(
        std::path::Path::new(media),
    )
}

/// The path of the little picture under the given key.
pub fn path_with_key(platform: Platform, out_dir: &str, key: u64) -> (r: String)
    ensures
        r@ == thumb_path(platform, out_dir@, key),
{
    let name = cat(to_hex(key, 16).as_str(), ".jpg");
    paths::join(platform, paths::join(platform, out_dir, DIR).as_str(), name.as_str())
}

/// Whether a key is one that the path of this file was given.
pub closed spec fn keyed(media: &str, key: u64) -> bool {
    call_ensures(key_of, (media,), key)
}

/// The path of the little picture of a file: in the hidden directory, under a
/// name that is made from the file's path. Whether it has been made shows by
/// whether it is there. That the hasher gives a path the same key each time is
/// not said.
pub fn path_for(platform: Platform, out_dir: &str, media: &str) -> (r: String)
    ensures
        exists|key: u64|
            keyed(media, key) && r@ == #[trigger] thumb_path(platform, out_dir@, key),
{
    path_with_key(platform, out_dir, key_of(media))
}

/// Whether `n` hexadecimal digits are enough for a number.
spec fn fits(v: nat, n: nat) -> bool
    decreases n,
{
    if n == 0 {
        v == 0
    } else {
        fits(v / 16, (n - 1) as nat)
    }
}

proof fn lemma_hex_tells_apart(a: nat, b: nat, n: nat)
    requires
        hex_digits(a, n) == hex_digits(b, n),
        fits(a, n),
        fits(b, n),
    ensures
        a == b,
    decreases n,
{
    if n > 0 {
        let m = (n - 1) as nat;
        assert(hex_digits(a, n).drop_last() =~= hex_digits(a / 16, m));
        assert(hex_digits(b, n).drop_last() =~= hex_digits(b / 16, m));
        assert(hex_digits(a, n).last() == hex_char((a % 16) as int));
        assert(hex_digits(b, n).last() == hex_char((b % 16) as int));
        lemma_hex_tells_apart(a / 16, b / 16, m);
    }
}

/// Different keys have different little pictures.
pub proof fn law_keys_have_their_own_pictures(
    platform: Platform,
    out_dir: Seq<char>,
    a: u64,
    b: u64,
)
    requires
        a != b,
    ensures
        thumb_path(platform, out_dir, a) != thumb_path(platform, out_dir, b),
{
    let x = hex_digits(a as nat, 16);
    let y = hex_digits(b as nat, 16);
    if thumb_path(platform, out_dir, a) == thumb_path(platform, out_dir, b) {
        lemma_hex_len(a as nat, 16);
        lemma_hex_len(b as nat, 16);
        let p = thumb_path(platform, out_dir, a);
        let n = p.len() - (x + ".jpg"@).len();
        assert(p.skip(n) =~= x + ".jpg"@);
        assert(p.skip(n) =~= y + ".jpg"@);
        assert((x + ".jpg"@).take(16) =~= x);
        assert((y + ".jpg"@).take(16) =~= y);
        assert(fits(a as nat, 16) && fits(b as nat, 16)) by {
            reveal_with_fuel(fits, 17);
        }
        lemma_hex_tells_apart(a as nat, b as nat, 16);
    }
}

proof fn lemma_hex_len(v: nat, n: nat)
    ensures
        hex_digits(v, n).len() == n,
    decreases n,
{
    if n > 0 {
        lemma_hex_len(v / 16, (n - 1) as nat);
    }
}

/// The square that is cut out of a picture.
pub open spec fn crop() -> Seq<char> {
    "scale="@ + decimal(SIZE as nat) + ":"@ + decimal(SIZE as nat)
        + ":force_original_aspect_ratio=increase,crop="@ + decimal(SIZE as nat) + ":"@ + decimal(
        SIZE as nat,
    )
}

/// The command line that makes the little picture. `seek` is the second of a
/// video to take it from; of music it is the cover that is inside.
pub open spec fn make_line(media: Seq<char>, seek: Option<Seq<char>>, dest: Seq<char>) -> Seq<
    Seq<char>,
> {
    seq!["-v"@, "error"@, "-nostdin"@, "-y"@] + (match seek {
        Some(t) => seq!["-ss"@, t],
        None => seq![],
    }) + seq![
        "-i"@,
        media,
        "-map"@,
        "0:v:0"@,
        "-frames:v"@,
        "1"@,
        "-vf"@,
        crop(),
        "-q:v"@,
        "4"@,
        dest,
    ]
}

pub fn make_args(media: &str, seek: Option<&str>, dest: &str) -> (r: Vec<String>)
    ensures
        texts(r@) == make_line(media@, str_of(seek), dest@),
{
    let n = to_decimal(SIZE as u64);
    let size = n.as_str();
    let scale = cat3("scale=", size, ":");
    let scale = cat3(scale.as_str(), size, ":force_original_aspect_ratio=increase,crop=");
    let vf = cat3(scale.as_str(), size, ":");
    let vf = cat(vf.as_str(), size);
    let mut a: Vec<String> = Vec::new();
    push_text(&mut a, "-v");
    push_text(&mut a, "error");
    push_text(&mut a, "-nostdin");
    push_text(&mut a, "-y");
    if let Some(t) = seek {
        push_text(&mut a, "-ss");
        push_text(&mut a, t);
    }
    push_text(&mut a, "-i");
    push_text(&mut a, media);
    push_text(&mut a, "-map");
    push_text(&mut a, "0:v:0");
    push_text(&mut a, "-frames:v");
    push_text(&mut a, "1");
    push_text(&mut a, "-vf");
    push_text(&mut a, vf.as_str());
    push_text(&mut a, "-q:v");
    push_text(&mut a, "4");
    push_text(&mut a, dest);
    proof {
        assert(texts(a@) =~= make_line(media@, str_of(seek), dest@));
    }
    a
}

/// What the little picture of an item is made from: the item's file, and whether
/// to seek in it first, as in a video. Only finished items have one, and of these
/// the ones that were found to be media or pictures.
pub open spec fn picture_source(item: ItemView, is_file: bool) -> Result<
    Option<(Seq<char>, bool)>,
    Seq<char>,
> {
    if item.status != "done"@ {
        Err("還沒完成"@)
    } else {
        match item.path {
            None => Err("沒有檔案"@),
            Some(path) => if !is_file {
                Err("檔案已不在"@)
            } else if item.verified == Some(level_name(Level::Media)) {
                Ok(Some((path, item.kind == "video"@)))
            } else if item.verified == Some(level_name(Level::Image)) {
                Ok(Some((path, false)))
            } else {
                Ok(None)
            },
        }
    }
}

/// What the little picture of an item is made from. `is_file` says whether the
/// item's file is still there.
pub fn source_of(item: &Item, is_file: bool) -> (r: Result<Option<(String, bool)>, String>)
    ensures
        match r {
            Ok(Some(s)) => picture_source(item@, is_file) == Ok::<_, Seq<char>>(Some((s.0@, s.1))),
            Ok(None) => picture_source(item@, is_file) == Ok::<Option<(Seq<char>, bool)>, Seq<char>>(
                None,
            ),
            Err(e) => picture_source(item@, is_file) == Err::<Option<(Seq<char>, bool)>, _>(e@),
        },
{
    if !same(item.status.as_str(), "done") {
        return Err("還沒完成".to_owned());
    }
    let path = match &item.path {
        Some(p) => p.as_str(),
        None => {
            return Err("沒有檔案".to_owned());
        },
    };
    if !is_file {
        return Err("檔案已不在".to_owned());
    }
    match &item.verified {
        Some(v) => if same(v.as_str(), Level::Media.as_str()) {
            Ok(Some((path.to_owned(), same(item.kind.as_str(), "video"))))
        } else if same(v.as_str(), Level::Image.as_str()) {
            Ok(Some((path.to_owned(), false)))
        } else {
            Ok(None)
        },
        None => Ok(None),
    }
}

/// Whether a little picture was made: the call succeeded and left something.
/// Sound without a cover makes none, which is no error.
pub fn made(succeeded: bool, size: Option<u64>) -> (r: bool)
    ensures
        r == (succeeded && (size matches Some(n) && n > 0)),
{
    match size {
        Some(n) => succeeded && n > 0,
        None => false,
    }
}

/// A little picture is cut to a square of 96 by 96.
pub proof fn law_pictures_are_little_squares()
    ensures
        crop() == "scale=96:96:force_original_aspect_ratio=increase,crop=96:96"@,
{
    reveal_strlit("scale=96:96:force_original_aspect_ratio=increase,crop=96:96");
    reveal_strlit("scale=");
    reveal_strlit(":");
    reveal_strlit(":force_original_aspect_ratio=increase,crop=");
    reveal_with_fuel(decimal, 3);
    assert(decimal(9) =~= seq!['9']);
    assert(decimal(96) =~= seq!['9', '6']);
    assert(crop() =~= "scale=96:96:force_original_aspect_ratio=increase,crop=96:96"@);
}

/// One frame of the given file goes into the given place, from the given second where
/// there is one.
pub proof fn law_picture_is_made_from_the_file(media: Seq<char>, seek: Option<Seq<char>>, dest: Seq<char>)
    ensures
        followed(make_line(media, seek, dest), "-i"@, media),
        followed(make_line(media, seek, dest), "-frames:v"@, "1"@),
        followed(make_line(media, seek, dest), "-vf"@, crop()),
        followed(make_line(media, seek, dest), "-map"@, "0:v:0"@),
        make_line(media, seek, dest).contains("-y"@),
        make_line(media, seek, dest).last() == dest,
        seek matches Some(t) ==> followed(make_line(media, seek, dest), "-ss"@, t),
{
    let l = make_line(media, seek, dest);
    let k: int = if seek is Some {
        6
    } else {
        4
    };
    assert(l[3] == "-y"@);
    if seek is Some {
        assert(l[4] == "-ss"@ && l[5] == seek->0);
    }
    assert(l[k] == "-i"@ && l[k + 1] == media);
    assert(l[k + 2] == "-map"@ && l[k + 3] == "0:v:0"@);
    assert(l[k + 4] == "-frames:v"@ && l[k + 5] == "1"@);
    assert(l[k + 6] == "-vf"@ && l[k + 7] == crop());
}

/// The name of a little picture is its key in sixteen hexadecimal digits, in the hidden
/// directory beside the files.
pub proof fn law_key_is_spelled_out(platform: Platform, out_dir: Seq<char>, key: u64)
    ensures
        hex_digits(key as nat, 16).len() == 16,
        key % 16 < 10 ==> hex_digits(key as nat, 16)[15] as u32 == '0' as u32 + key % 16,
        key % 16 >= 10 ==> hex_digits(key as nat, 16)[15] as u32 == 'a' as u32 + key % 16 - 10,
        hex_digits(key as nat, 16).drop_last() == hex_digits(key as nat / 16, 15),
        thumb_path(platform, out_dir, key) == paths::joined(
            platform,
            paths::joined(platform, out_dir, ".haul-thumbs"@),
            hex_digits(key as nat, 16) + ".jpg"@,
        ),
{
    lemma_hex_len(key as nat, 16);
    lemma_hex_len(key as nat / 16, 15);
    assert(hex_digits(key as nat, 16).drop_last() =~= hex_digits(key as nat / 16, 15));
}

/// A finished file that was found to be media or a picture gives its little picture,
/// a video at a later place; anything else gives none.
pub proof fn law_finished_media_have_pictures(i: ItemView, is_file: bool)
    ensures
        i.status == "done"@ && i.path is Some && is_file && i.verified == Some("media"@) ==> picture_source(
            i,
            is_file,
        ) == Ok::<Option<(Seq<char>, bool)>, Seq<char>>(Some((i.path->0, i.kind == "video"@))),
        i.status == "done"@ && i.path is Some && is_file && i.verified == Some("image"@) ==> picture_source(
            i,
            is_file,
        ) == Ok::<Option<(Seq<char>, bool)>, Seq<char>>(Some((i.path->0, false))),
        i.status == "done"@ && i.path is Some && is_file && (i.verified is None || i.verified == Some(
            "text"@,
        )) ==> picture_source(i, is_file) == Ok::<Option<(Seq<char>, bool)>, Seq<char>>(None),
        i.status != "done"@ || i.path is None || !is_file ==> picture_source(i, is_file) is Err,
{
    crate::verify::law_levels_have_names(Level::Media, Level::Image);
    reveal_strlit("text");
    reveal_strlit("media");
    reveal_strlit("image");
    assert("text"@.len() != "media"@.len() && "text"@.len() != "image"@.len());
    assert("image"@[0] != "media"@[0]);
}

/// The words for an item without a little picture, and how good the picture is.
pub proof fn law_missing_pictures_are_told(i: ItemView, media: Seq<char>, seek: Option<Seq<char>>, dest: Seq<char>)
    ensures
        i.status != "done"@ ==> picture_source(i, true) == Err::<Option<(Seq<char>, bool)>, Seq<char>>(
            "還沒完成"@,
        ),
        i.status == "done"@ && i.path is None ==> picture_source(i, true) == Err::<
            Option<(Seq<char>, bool)>,
            Seq<char>,
        >("沒有檔案"@),
        i.status == "done"@ && i.path is Some ==> picture_source(i, false) == Err::<
            Option<(Seq<char>, bool)>,
            Seq<char>,
        >("檔案已不在"@),
        followed(make_line(media, seek, dest), "-q:v"@, "4"@),
        followed(make_line(media, seek, dest), "-v"@, "error"@),
        make_line(media, seek, dest).contains("-nostdin"@),
{
    let l = make_line(media, seek, dest);
    let k: int = if seek is Some {
        14
    } else {
        12
    };
    assert(l[0] == "-v"@ && l[1] == "error"@ && l[2] == "-nostdin"@);
    assert(l[k] == "-q:v"@ && l[k + 1] == "4"@);
}

} // verus!
