//! Whether what was fetched is what it should be. How much can be told depends
//! on what it is, and the level says how much was told.

use vstd::prelude::*;
use vstd::utf8::{decode_utf8, valid_utf8};
use crate::browser::sniff::{bare_mime, mime_of};
use crate::codec::{utf8, utf8_error};
use crate::json::{json_read, read, JsonView};
use crate::number::{decimal, to_decimal};
use crate::text::{
    cat, cat3, chars_of, contains, digit, followed, full_lines, has_prefix, has_text, index_of,
    last_line, last_words, lines, lines_of, lower, not_blank, push_text, same, starts_with, tail,
    text_of, texts, to_lower, trim, trim_start, trimmed, Class,
};

verus! {

/// How much was told of a file.
#[derive(Clone, Copy, PartialEq, Eq, Debug, Structural)]
pub enum Level {
    /// Sound or video that was decoded.
    Media,
    /// A picture that was decoded.
    Image,
    /// JSON that was parsed.
    Json,
    /// A container with its beginning and its end.
    Archive,
    /// Text in UTF-8, and not blank.
    Text,
    /// The right number of bytes.
    Integrity,
}

pub open spec fn level_name(l: Level) -> Seq<char> {
    match l {
        Level::Media => "media"@,
        Level::Image => "image"@,
        Level::Json => "json"@,
        Level::Archive => "archive"@,
        Level::Text => "text"@,
        Level::Integrity => "integrity"@,
    }
}

impl Level {
    pub fn as_str(self) -> (r: &'static str)
        ensures
            r@ == level_name(self),
    {
        match self {
            Level::Media => "media",
            Level::Image => "image",
            Level::Json => "json",
            Level::Archive => "archive",
            Level::Text => "text",
            Level::Integrity => "integrity",
        }
    }
}

pub open spec fn media_ext(e: Seq<char>) -> bool {
    ||| e == "mp4"@
    ||| e == "m4a"@
    ||| e == "mp3"@
    ||| e == "webm"@
    ||| e == "mkv"@
    ||| e == "mov"@
    ||| e == "avi"@
    ||| e == "flv"@
    ||| e == "ts"@
    ||| e == "wav"@
    ||| e == "flac"@
    ||| e == "opus"@
    ||| e == "ogg"@
    ||| e == "aac"@
    ||| e == "m4v"@
    ||| e == "wma"@
}

pub open spec fn image_ext(e: Seq<char>) -> bool {
    ||| e == "jpg"@
    ||| e == "jpeg"@
    ||| e == "png"@
    ||| e == "gif"@
    ||| e == "webp"@
    ||| e == "bmp"@
    ||| e == "tif"@
    ||| e == "tiff"@
    ||| e == "avif"@
    ||| e == "heic"@
}

pub open spec fn json_ext(e: Seq<char>) -> bool {
    e == "json"@ || e == "jsonl"@ || e == "ndjson"@
}

pub open spec fn archive_ext(e: Seq<char>) -> bool {
    ||| e == "pdf"@
    ||| e == "zip"@
    ||| e == "epub"@
    ||| e == "cbz"@
    ||| e == "docx"@
    ||| e == "xlsx"@
    ||| e == "pptx"@
}

pub open spec fn text_ext(e: Seq<char>) -> bool {
    ||| e == "txt"@
    ||| e == "md"@
    ||| e == "csv"@
    ||| e == "srt"@
    ||| e == "vtt"@
    ||| e == "ass"@
    ||| e == "lrc"@
    ||| e == "html"@
    ||| e == "htm"@
    ||| e == "xml"@
}

/// The level that can be reached for an extension.
pub open spec fn ext_level(ext: Seq<char>) -> Level {
    let e = lower(ext);
    if media_ext(e) {
        Level::Media
    } else if image_ext(e) {
        Level::Image
    } else if json_ext(e) {
        Level::Json
    } else if archive_ext(e) {
        Level::Archive
    } else if text_ext(e) {
        Level::Text
    } else {
        Level::Integrity
    }
}

fn is_media(e: &str) -> (r: bool)
    ensures
        r == media_ext(e@),
{
    same(e, "mp4") || same(e, "m4a") || same(e, "mp3") || same(e, "webm") || same(e, "mkv") || same(
        e,
        "mov",
    ) || same(e, "avi") || same(e, "flv") || same(e, "ts") || same(e, "wav") || same(e, "flac")
        || same(e, "opus") || same(e, "ogg") || same(e, "aac") || same(e, "m4v") || same(e, "wma")
}

fn is_image(e: &str) -> (r: bool)
    ensures
        r == image_ext(e@),
{
    same(e, "jpg") || same(e, "jpeg") || same(e, "png") || same(e, "gif") || same(e, "webp")
        || same(e, "bmp") || same(e, "tif") || same(e, "tiff") || same(e, "avif") || same(e, "heic")
}

fn is_archive(e: &str) -> (r: bool)
    ensures
        r == archive_ext(e@),
{
    same(e, "pdf") || same(e, "zip") || same(e, "epub") || same(e, "cbz") || same(e, "docx") || same(
        e,
        "xlsx",
    ) || same(e, "pptx")
}

fn is_text(e: &str) -> (r: bool)
    ensures
        r == text_ext(e@),
{
    same(e, "txt") || same(e, "md") || same(e, "csv") || same(e, "srt") || same(e, "vtt") || same(
        e,
        "ass",
    ) || same(e, "lrc") || same(e, "html") || same(e, "htm") || same(e, "xml")
}

/// The level that can be reached for an extension, whatever its case. What is
/// not known is held to its size only.
pub fn level_for(ext: &str) -> (r: Level)
    ensures
        r == ext_level(ext@),
{
    let lowered = to_lower(ext);
    let e = lowered.as_str();
    if is_media(e) {
        Level::Media
    } else if is_image(e) {
        Level::Image
    } else if same(e, "json") || same(e, "jsonl") || same(e, "ndjson") {
        Level::Json
    } else if is_archive(e) {
        Level::Archive
    } else if is_text(e) {
        Level::Text
    } else {
        Level::Integrity
    }
}

/// The level that can be reached for a content type, where that tells.
pub open spec fn type_level(ct: Seq<char>) -> Option<Level> {
    let t = bare_mime(ct);
    if starts_with(t, "audio/"@) || starts_with(t, "video/"@) {
        Some(Level::Media)
    } else if starts_with(t, "image/"@) {
        Some(Level::Image)
    } else if t == "application/json"@ || t == "application/x-ndjson"@ {
        Some(Level::Json)
    } else if t == "application/pdf"@ || t == "application/zip"@ || t == "application/epub+zip"@ {
        Some(Level::Archive)
    } else if starts_with(t, "text/"@) {
        Some(Level::Text)
    } else {
        None
    }
}

/// The level that can be reached for a content type. Where it does not tell,
/// the extension has to.
pub fn level_for_content_type(ct: &str) -> (r: Option<Level>)
    ensures
        r == type_level(ct@),
{
    let bare = mime_of(ct);
    let t = bare.as_str();
    if has_prefix(t, "audio/") || has_prefix(t, "video/") {
        Some(Level::Media)
    } else if has_prefix(t, "image/") {
        Some(Level::Image)
    } else if same(t, "application/json") || same(t, "application/x-ndjson") {
        Some(Level::Json)
    } else if same(t, "application/pdf") || same(t, "application/zip") || same(
        t,
        "application/epub+zip",
    ) {
        Some(Level::Archive)
    } else if has_prefix(t, "text/") {
        Some(Level::Text)
    } else {
        None
    }
}

pub open spec fn verdict(r: Result<(), String>) -> Result<(), Seq<char>> {
    match r {
        Ok(_) => Ok(()),
        Err(e) => Err(e@),
    }
}

/// The first line that is no JSON, and the words why.
pub open spec fn bad_line(l: Seq<Seq<char>>) -> Option<Seq<char>>
    decreases l.len(),
{
    if l.len() == 0 {
        None
    } else {
        match json_read(l[0]) {
            Ok(_) => bad_line(l.skip(1)),
            Err(e) => Some(e),
        }
    }
}

/// JSON passes as one document or as one on each line.
pub open spec fn json_verdict(text: Seq<char>) -> Result<(), Seq<char>> {
    let l = not_blank(lines(text));
    if trimmed(text).len() == 0 {
        Err("檔案是空的"@)
    } else if json_read(text) is Ok {
        Ok(())
    } else if bad_line(l) is Some {
        Err("不是合法的 JSON 或 NDJSON："@ + bad_line(l)->0)
    } else if l.len() == 0 {
        Err("沒有任何一行是 JSON"@)
    } else {
        Ok(())
    }
}

/// What parsing a file gave: whether it is blank, whether it is JSON as a whole,
/// and what came of each of its lines that are not blank.
pub struct JsonFindings {
    pub blank: bool,
    pub whole: bool,
    pub lines: Vec<Result<(), String>>,
}

/// The words of the first failure.
pub open spec fn first_failure(l: Seq<Result<(), String>>) -> Option<Seq<char>>
    decreases l.len(),
{
    if l.len() == 0 {
        None
    } else {
        match l[0] {
            Ok(_) => first_failure(l.skip(1)),
            Err(e) => Some(e@),
        }
    }
}

/// The verdict on a file by what parsing it gave.
pub fn judge_json(f: &JsonFindings) -> (r: Result<(), String>)
    ensures
        verdict(r) == (if f.blank {
            Err("檔案是空的"@)
        } else if f.whole {
            Ok(())
        } else if first_failure(f.lines@) is Some {
            Err("不是合法的 JSON 或 NDJSON："@ + first_failure(f.lines@)->0)
        } else if f.lines@.len() == 0 {
            Err("沒有任何一行是 JSON"@)
        } else {
            Ok(())
        }),
        verdict(r) == parse_verdict(f.blank, f.whole, f.lines@),
{
    if f.blank {
        return Err("檔案是空的".to_owned());
    }
    if f.whole {
        return Ok(());
    }
    let mut i: usize = 0;
    proof {
        assert(f.lines@.skip(0) =~= f.lines@);
    }
    while i < f.lines.len()
        invariant
            !f.blank,
            !f.whole,
            i <= f.lines@.len(),
            first_failure(f.lines@.skip(i as int)) == first_failure(f.lines@),
        decreases f.lines@.len() - i,
    {
        proof {
            assert(f.lines@.skip(i as int)[0] == f.lines@[i as int]);
            assert(f.lines@.skip(i as int).skip(1) =~= f.lines@.skip(i + 1));
        }
        if let Err(e) = &f.lines[i] {
            return Err(cat("不是合法的 JSON 或 NDJSON：", e.as_str()));
        }
        i += 1;
    }
    if f.lines.len() == 0 {
        return Err("沒有任何一行是 JSON".to_owned());
    }
    Ok(())
}

proof fn lemma_failures(v: Seq<Result<(), String>>, l: Seq<Seq<char>>)
    requires
        v.len() == l.len(),
        forall|i: int|
            0 <= i < l.len() ==> match (#[trigger] v[i]) {
                Ok(_) => json_read(l[i]) is Ok,
                Err(e) => json_read(l[i]) == Err::<JsonView, Seq<char>>(e@),
            },
    ensures
        first_failure(v) == bad_line(l),
    decreases v.len(),
{
    if v.len() > 0 {
        assert(v[0] == v[0]);
        let v1 = v.skip(1);
        let l1 = l.skip(1);
        assert forall|i: int| 0 <= i < l1.len() implies match (#[trigger] v1[i]) {
            Ok(_) => json_read(l1[i]) is Ok,
            Err(e) => json_read(l1[i]) == Err::<JsonView, Seq<char>>(e@),
        } by {
            assert(v1[i] == v[i + 1]);
            assert(l1[i] == l[i + 1]);
        }
        lemma_failures(v1, l1);
    }
}

/// Whether a text is JSON, as one document or as one on each line.
pub fn verify_json(text: &str) -> (r: Result<(), String>)
    ensures
        verdict(r) == json_verdict(text@),
{
    let l = full_lines(text);
    let mut found: Vec<Result<(), String>> = Vec::new();
    let mut i: usize = 0;
    while i < l.len()
        invariant
            texts(l@) == not_blank(lines(text@)),
            i <= l@.len(),
            found@.len() == i,
            forall|j: int|
                0 <= j < i ==> match (#[trigger] found@[j]) {
                    Ok(_) => json_read(texts(l@)[j]) is Ok,
                    Err(e) => json_read(texts(l@)[j]) == Err::<JsonView, Seq<char>>(e@),
                },
        decreases l@.len() - i,
    {
        proof {
            assert(texts(l@)[i as int] == l@[i as int]@);
        }
        match read(l[i].as_str()) {
            Ok(_) => {
                found.push(Ok(()));
            },
            Err(e) => {
                found.push(Err(e));
            },
        }
        i += 1;
    }
    proof {
        assert(texts(l@).len() == l@.len());
        lemma_failures(found@, texts(l@));
    }
    judge_json(
        &JsonFindings {
            blank: trim(text).unicode_len() == 0,
            whole: read(text).is_ok(),
            lines: found,
        },
    )
}

/// Whether `b` holds `p` at position `i`.
pub open spec fn holds_at(b: Seq<u8>, p: Seq<u8>, i: int) -> bool {
    0 <= i && i + p.len() <= b.len() && b.subrange(i, i + p.len()) == p
}

pub open spec fn holds(b: Seq<u8>, p: Seq<u8>) -> bool {
    exists|i: int| #[trigger] holds_at(b, p, i)
}

/// The last 2048 bytes, or all where there are fewer.
pub open spec fn end_of(b: Seq<u8>) -> Seq<u8> {
    if b.len() > 2048 {
        b.skip(b.len() - 2048)
    } else {
        b
    }
}

/// `%PDF-`
pub open spec fn pdf_start() -> Seq<u8> {
    seq![37u8, 80, 68, 70, 45]
}

/// `%%EOF`
pub open spec fn pdf_end() -> Seq<u8> {
    seq![37u8, 37, 69, 79, 70]
}

/// The signature of a file in a ZIP archive.
pub open spec fn zip_start() -> Seq<u8> {
    seq![80u8, 75, 3, 4]
}

/// The signature of the end of a ZIP archive's directory.
pub open spec fn zip_end() -> Seq<u8> {
    seq![80u8, 75, 5, 6]
}

/// A container passes with the right beginning and, not far from its end, the
/// mark that is written last. That is enough to tell that it was cut off.
pub open spec fn archive_verdict(b: Seq<u8>) -> Result<(), Seq<char>> {
    if b.len() < 32 {
        Err("檔案只有 "@ + decimal(b.len()) + " bytes，不像完整的檔案"@)
    } else if holds_at(b, pdf_start(), 0) {
        if holds(end_of(b), pdf_end()) {
            Ok(())
        } else {
            Err("PDF 結尾缺少 %%EOF，檔案應該是截斷的"@)
        }
    } else if holds_at(b, zip_start(), 0) || holds_at(b, zip_end(), 0) {
        if holds(end_of(b), zip_end()) {
            Ok(())
        } else {
            Err("ZIP 缺少中央目錄結尾記錄，檔案應該是截斷的"@)
        }
    } else {
        Err("開頭的位元組不像 PDF 或 ZIP"@)
    }
}

fn is_at(b: &[u8], p: &[u8], at: usize) -> (r: bool)
    requires
        at <= b@.len(),
    ensures
        r == holds_at(b@, p@, at as int),
{
    let n: usize = b.len();
    if p.len() > n - at {
        return false;
    }
    let mut i: usize = 0;
    while i < p.len()
        invariant
            n == b@.len(),
            at + p@.len() <= n,
            i <= p@.len(),
            forall|j: int| 0 <= j < i ==> b@[at + j] == p@[j],
        decreases p@.len() - i,
    {
        if b[at + i] != p[i] {
            proof {
                assert(b@.subrange(at as int, at + p@.len())[i as int] == b@[at + i]);
            }
            return false;
        }
        i += 1;
    }
    proof {
        assert(b@.subrange(at as int, at + p@.len()) =~= p@);
    }
    true
}

fn has_bytes(b: &[u8], p: &[u8]) -> (r: bool)
    ensures
        r == holds(b@, p@),
{
    let mut i: usize = 0;
    loop
        invariant
            i <= b@.len(),
            forall|j: int| 0 <= j < i ==> !#[trigger] holds_at(b@, p@, j),
        decreases b@.len() - i,
    {
        if is_at(b, p, i) {
            proof {
                assert(holds_at(b@, p@, i as int));
            }
            return true;
        }
        if i == b.len() {
            return false;
        }
        i += 1;
    }
}

pub fn verify_archive(bytes: &[u8]) -> (r: Result<(), String>)
    ensures
        verdict(r) == archive_verdict(bytes@),
{
    let n: usize = bytes.len();
    if n < 32 {
        return Err(
            cat3("檔案只有 ", to_decimal(n as u64).as_str(), " bytes，不像完整的檔案"),
        );
    }
    let from: usize = if n > 2048 {
        n - 2048
    } else {
        0
    };
    let end = vstd::slice::slice_subrange(bytes, from, n);
    proof {
        assert(end@ =~= end_of(bytes@));
    }
    let pdf: Vec<u8> = vec![37, 80, 68, 70, 45];
    let eof: Vec<u8> = vec![37, 37, 69, 79, 70];
    let zip: Vec<u8> = vec![80, 75, 3, 4];
    let dir: Vec<u8> = vec![80, 75, 5, 6];
    proof {
        assert(pdf@ =~= pdf_start());
        assert(eof@ =~= pdf_end());
        assert(zip@ =~= zip_start());
        assert(dir@ =~= zip_end());
    }
    if is_at(bytes, pdf.as_slice(), 0) {
        if !has_bytes(end, eof.as_slice()) {
            return Err("PDF 結尾缺少 %%EOF，檔案應該是截斷的".to_owned());
        }
        return Ok(());
    }
    if is_at(bytes, zip.as_slice(), 0) || is_at(bytes, dir.as_slice(), 0) {
        if !has_bytes(end, dir.as_slice()) {
            return Err("ZIP 缺少中央目錄結尾記錄，檔案應該是截斷的".to_owned());
        }
        return Ok(());
    }
    Err("開頭的位元組不像 PDF 或 ZIP".to_owned())
}

/// A text passes that is UTF-8 and not blank.
pub open spec fn text_verdict(b: Seq<u8>) -> Result<(), Seq<char>> {
    if b.len() == 0 {
        Err("檔案是空的"@)
    } else if !valid_utf8(b) {
        Err("不是合法的 UTF-8："@ + utf8_error(b))
    } else if trimmed(decode_utf8(b)).len() == 0 {
        Err("檔案只有空白字元"@)
    } else {
        Ok(())
    }
}

pub fn verify_text(bytes: &[u8]) -> (r: Result<(), String>)
    ensures
        verdict(r) == text_verdict(bytes@),
{
    if bytes.len() == 0 {
        return Err("檔案是空的".to_owned());
    }
    match utf8(bytes) {
        Ok(text) => if trim(text.as_str()).unicode_len() == 0 {
            Err("檔案只有空白字元".to_owned())
        } else {
            Ok(())
        },
        Err(e) => Err(cat("不是合法的 UTF-8：", e.as_str())),
    }
}

/// Whether a line is a complaint about decoding. What the output's muxer has to
/// say comes with its name in front and is about times, not pictures.
pub open spec fn complaint(line: Seq<char>) -> bool {
    line.len() > 0 && !starts_with(line, "[null @"@)
}

/// The complaints about decoding in the given lines.
pub open spec fn complaints(l: Seq<Seq<char>>) -> Seq<Seq<char>>
    decreases l.len(),
{
    if l.len() == 0 {
        seq![]
    } else if complaint(trimmed(l.last())) {
        complaints(l.drop_last()).push(trimmed(l.last()))
    } else {
        complaints(l.drop_last())
    }
}

pub fn decode_complaints(stderr: &str) -> (r: Vec<String>)
    ensures
        texts(r@) == complaints(lines(stderr@)),
{
    let l = lines_of(stderr);
    let mut out: Vec<String> = Vec::new();
    let mut i: usize = 0;
    while i < l.len()
        invariant
            texts(l@) == lines(stderr@),
            i <= l@.len(),
            texts(out@) == complaints(texts(l@).take(i as int)),
        decreases l@.len() - i,
    {
        proof {
            assert(texts(l@).take(i + 1).drop_last() =~= texts(l@).take(i as int));
            assert(texts(l@).take(i + 1).last() == l@[i as int]@);
        }
        let line = trim(l[i].as_str());
        if line.unicode_len() > 0 && !has_prefix(line, "[null @") {
            push_text(&mut out, line);
        }
        i += 1;
    }
    proof {
        assert(texts(l@).take(i as int) =~= texts(l@));
    }
    out
}

/// The first complaint about decoding.
pub open spec fn first_complaint(stderr: Seq<char>) -> Option<Seq<char>> {
    let c = complaints(lines(stderr));
    if c.len() > 0 {
        Some(c[0])
    } else {
        None
    }
}

fn find_complaint(stderr: &str) -> (r: Option<String>)
    ensures
        text_of(r) == first_complaint(stderr@),
{
    let c = decode_complaints(stderr);
    proof {
        assert(texts(c@).len() == c@.len());
    }
    if c.len() > 0 {
        proof {
            assert(texts(c@)[0] == c@[0]@);
        }
        Some(c[0].as_str().to_owned())
    } else {
        None
    }
}

/// The words for a decoder that failed without a word.
pub open spec fn complaint_or(stderr: Seq<char>) -> Seq<char> {
    match first_complaint(stderr) {
        Some(c) => c,
        None => "ffmpeg 未說明原因"@,
    }
}

/// What the decoder's end says of its input: `broken` is the message for an
/// exit that was a failure, `wrong` the one for a complaint.
pub open spec fn decoder_verdict(
    succeeded: bool,
    stderr: Seq<char>,
    broken: Seq<char>,
    wrong: Seq<char>,
) -> Result<(), Seq<char>> {
    if !succeeded {
        Err(broken + complaint_or(stderr))
    } else {
        match first_complaint(stderr) {
            Some(c) => Err(wrong + c),
            None => Ok(()),
        }
    }
}

fn judge_decoder(succeeded: bool, stderr: &str, broken: &str, wrong: &str) -> (r: Result<(), String>)
    ensures
        verdict(r) == decoder_verdict(succeeded, stderr@, broken@, wrong@),
{
    let c = find_complaint(stderr);
    if !succeeded {
        return Err(
            match c {
                Some(w) => cat(broken, w.as_str()),
                None => cat(broken, "ffmpeg 未說明原因"),
            },
        );
    }
    match c {
        Some(w) => Err(cat(wrong, w.as_str())),
        None => Ok(()),
    }
}

/// The arguments of `image_args`.
pub open spec fn image_line(file: Seq<char>) -> Seq<Seq<char>> {
    seq![
        "-v"@,
        "error"@,
        "-nostdin"@,
        "-i"@,
        file,
        "-frames:v"@,
        "1"@,
        "-f"@,
        "null"@,
        "-"@,
    ]
}

/// The command line that decodes a picture.
pub fn image_args(file: &str) -> (r: Vec<String>)
    ensures
        texts(r@) == seq![
            "-v"@,
            "error"@,
            "-nostdin"@,
            "-i"@,
            file@,
            "-frames:v"@,
            "1"@,
            "-f"@,
            "null"@,
            "-"@,
        ],
        texts(r@) == image_line(file@),
{
    let mut a: Vec<String> = Vec::new();
    push_text(&mut a, "-v");
    push_text(&mut a, "error");
    push_text(&mut a, "-nostdin");
    push_text(&mut a, "-i");
    push_text(&mut a, file);
    push_text(&mut a, "-frames:v");
    push_text(&mut a, "1");
    push_text(&mut a, "-f");
    push_text(&mut a, "null");
    push_text(&mut a, "-");
    proof {
        assert(texts(a@) =~= seq![
            "-v"@,
            "error"@,
            "-nostdin"@,
            "-i"@,
            file@,
            "-frames:v"@,
            "1"@,
            "-f"@,
            "null"@,
            "-"@,
        ]);
    }
    a
}

/// Whether a picture could be decoded.
pub fn verify_image(succeeded: bool, stderr: &str) -> (r: Result<(), String>)
    ensures
        verdict(r) == decoder_verdict(
            succeeded,
            stderr@,
            "這不是一張解得開的圖片："@,
            "圖片有問題："@,
        ),
{
    judge_decoder(succeeded, stderr, "這不是一張解得開的圖片：", "圖片有問題：")
}

/// The arguments of `frame_args`.
pub open spec fn frame_line(file: Seq<char>, at: Seq<char>) -> Seq<Seq<char>> {
    seq![
        "-v"@,
        "error"@,
        "-nostdin"@,
        "-ss"@,
        at,
        "-i"@,
        file,
        "-map"@,
        "0:v:0"@,
        "-frames:v"@,
        "8"@,
        "-an"@,
        "-f"@,
        "null"@,
        "-"@,
    ]
}

/// The command line that decodes a few frames at the given second. Without a
/// picture in the file it fails.
pub fn frame_args(file: &str, at: &str) -> (r: Vec<String>)
    ensures
        texts(r@) == seq![
            "-v"@,
            "error"@,
            "-nostdin"@,
            "-ss"@,
            at@,
            "-i"@,
            file@,
            "-map"@,
            "0:v:0"@,
            "-frames:v"@,
            "8"@,
            "-an"@,
            "-f"@,
            "null"@,
            "-"@,
        ],
        texts(r@) == frame_line(file@, at@),
{
    let mut a: Vec<String> = Vec::new();
    push_text(&mut a, "-v");
    push_text(&mut a, "error");
    push_text(&mut a, "-nostdin");
    push_text(&mut a, "-ss");
    push_text(&mut a, at);
    push_text(&mut a, "-i");
    push_text(&mut a, file);
    push_text(&mut a, "-map");
    push_text(&mut a, "0:v:0");
    push_text(&mut a, "-frames:v");
    push_text(&mut a, "8");
    push_text(&mut a, "-an");
    push_text(&mut a, "-f");
    push_text(&mut a, "null");
    push_text(&mut a, "-");
    proof {
        assert(texts(a@) =~= seq![
            "-v"@,
            "error"@,
            "-nostdin"@,
            "-ss"@,
            at@,
            "-i"@,
            file@,
            "-map"@,
            "0:v:0"@,
            "-frames:v"@,
            "8"@,
            "-an"@,
            "-f"@,
            "null"@,
            "-"@,
        ]);
    }
    a
}

/// Whether a video could be decoded at one of the places where it is looked at.
/// `second` is that place in whole seconds.
pub fn verify_video(succeeded: bool, stderr: &str, second: &str) -> (r: Result<(), String>)
    ensures
        verdict(r) == decoder_verdict(
            succeeded,
            stderr@,
            "第 "@ + second@ + " 秒解不出畫面："@,
            "第 "@ + second@ + " 秒畫面有問題："@,
        ),
{
    let broken = cat3("第 ", second, " 秒解不出畫面：");
    let wrong = cat3("第 ", second, " 秒畫面有問題：");
    judge_decoder(succeeded, stderr, broken.as_str(), wrong.as_str())
}

/// Whether a character can stand in the number of a volume.
pub open spec fn volume_char(c: char) -> bool {
    digit(c) || c == '-' || c == '.' || c == 'i' || c == 'n' || c == 'f'
}

/// The characters at the front that can stand in the number of a volume.
pub open spec fn volume_run(s: Seq<char>) -> Seq<char>
    decreases s.len(),
{
    if s.len() > 0 && volume_char(s[0]) {
        seq![s[0]] + volume_run(s.skip(1))
    } else {
        seq![]
    }
}

/// The mean volume that was reported: the characters of its number.
pub open spec fn volume_text(stderr: Seq<char>) -> Option<Seq<char>> {
    match index_of(stderr, "mean_volume:"@) {
        Some(i) => Some(volume_run(trim_start(stderr.skip(i + "mean_volume:"@.len())))),
        None => None,
    }
}

/// A mean volume as it was reported.
#[derive(Debug, PartialEq, Eq)]
pub enum Volume {
    /// Digital silence.
    MinusInfinity,
    /// What is to be read as a number of decibels.
    Decibels(String),
}

fn take_volume(s: &str) -> (r: String)
    ensures
        r@ == volume_run(s@),
{
    let cs = chars_of(s);
    let mut out = String::new();
    let mut i: usize = 0;
    proof {
        assert(s@.skip(0) =~= s@);
    }
    while i < cs.len()
        invariant
            cs@ == s@,
            i <= cs@.len(),
            out@ + volume_run(s@.skip(i as int)) == volume_run(s@),
        decreases cs@.len() - i,
    {
        let c = cs[i];
        let ghost rest = s@.skip(i as int);
        let ghost done = out@;
        proof {
            assert(rest[0] == c);
        }
        if !(('0' <= c && c <= '9') || c == '-' || c == '.' || c == 'i' || c == 'n' || c == 'f') {
            proof {
                assert(out@ + volume_run(rest) =~= out@);
            }
            return out;
        }
        out.push(c);
        i += 1;
        proof {
            assert(rest.skip(1) =~= s@.skip(i as int));
            assert(out@ + volume_run(s@.skip(i as int)) =~= done + volume_run(rest));
        }
    }
    proof {
        assert(out@ + volume_run(s@.skip(i as int)) =~= out@);
    }
    out
}

/// The mean volume in what ffmpeg's `volumedetect` printed.
pub fn parse_mean_volume(stderr: &str) -> (r: Option<Volume>)
    ensures
        match volume_text(stderr@) {
            Some(t) => if contains(t, "inf"@) {
                r == Some(Volume::MinusInfinity)
            } else {
                r matches Some(Volume::Decibels(s)) && s@ == t
            },
            None => r is None,
        },
{
    let n: usize = stderr.unicode_len();
    let m: usize = "mean_volume:".unicode_len();
    match crate::text::find_text(stderr, "mean_volume:") {
        Some(i) => {
            proof {
                assert(i + m <= n);
            }
            let rest = tail(stderr, i + m);
            let t = take_volume(tail(rest, crate::text::find(rest, Class::Space, false)));
            if has_text(t.as_str(), "inf") {
                Some(Volume::MinusInfinity)
            } else {
                Some(Volume::Decibels(t))
            }
        },
        None => None,
    }
}

/// What ffmpeg says of the sound in a file. That there is none and that it is
/// broken are two things: a video may be silent, but sound that is there has to
/// be decodable.
#[derive(Clone, Copy, PartialEq, Eq, Debug, Structural)]
pub enum Audio {
    /// There is sound, it can be decoded, and it is not silence.
    Decoded,
    /// There is no sound in the file.
    Absent,
}

/// The arguments of `audio_args`.
pub open spec fn volume_line(file: Seq<char>) -> Seq<Seq<char>> {
    seq![
        "-nostdin"@,
        "-i"@,
        file,
        "-map"@,
        "0:a:0"@,
        "-af"@,
        "volumedetect"@,
        "-f"@,
        "null"@,
        "-"@,
    ]
}

/// The command line that decodes the sound and measures it.
pub fn audio_args(file: &str) -> (r: Vec<String>)
    ensures
        texts(r@) == seq![
            "-nostdin"@,
            "-i"@,
            file@,
            "-map"@,
            "0:a:0"@,
            "-af"@,
            "volumedetect"@,
            "-f"@,
            "null"@,
            "-"@,
        ],
        texts(r@) == volume_line(file@),
{
    let mut a: Vec<String> = Vec::new();
    push_text(&mut a, "-nostdin");
    push_text(&mut a, "-i");
    push_text(&mut a, file);
    push_text(&mut a, "-map");
    push_text(&mut a, "0:a:0");
    push_text(&mut a, "-af");
    push_text(&mut a, "volumedetect");
    push_text(&mut a, "-f");
    push_text(&mut a, "null");
    push_text(&mut a, "-");
    proof {
        assert(texts(a@) =~= seq![
            "-nostdin"@,
            "-i"@,
            file@,
            "-map"@,
            "0:a:0"@,
            "-af"@,
            "volumedetect"@,
            "-f"@,
            "null"@,
            "-"@,
        ]);
    }
    a
}

/// The arguments of `stream_copies_args`.
pub open spec fn copy_line(file: Seq<char>, map: Seq<char>) -> Seq<Seq<char>> {
    seq![
        "-v"@,
        "error"@,
        "-nostdin"@,
        "-i"@,
        file,
        "-map"@,
        map,
        "-c"@,
        "copy"@,
        "-t"@,
        "0.01"@,
        "-f"@,
        "null"@,
        "-"@,
    ]
}

/// The command line that copies a stream without decoding it: it succeeds for
/// a broken stream, and fails for one that is not there.
pub fn stream_copies_args(file: &str, map: &str) -> (r: Vec<String>)
    ensures
        texts(r@) == seq![
            "-v"@,
            "error"@,
            "-nostdin"@,
            "-i"@,
            file@,
            "-map"@,
            map@,
            "-c"@,
            "copy"@,
            "-t"@,
            "0.01"@,
            "-f"@,
            "null"@,
            "-"@,
        ],
        texts(r@) == copy_line(file@, map@),
{
    let mut a: Vec<String> = Vec::new();
    push_text(&mut a, "-v");
    push_text(&mut a, "error");
    push_text(&mut a, "-nostdin");
    push_text(&mut a, "-i");
    push_text(&mut a, file);
    push_text(&mut a, "-map");
    push_text(&mut a, map);
    push_text(&mut a, "-c");
    push_text(&mut a, "copy");
    push_text(&mut a, "-t");
    push_text(&mut a, "0.01");
    push_text(&mut a, "-f");
    push_text(&mut a, "null");
    push_text(&mut a, "-");
    proof {
        assert(texts(a@) =~= seq![
            "-v"@,
            "error"@,
            "-nostdin"@,
            "-i"@,
            file@,
            "-map"@,
            map@,
            "-c"@,
            "copy"@,
            "-t"@,
            "0.01"@,
            "-f"@,
            "null"@,
            "-"@,
        ]);
    }
    a
}

/// How the decoding of the sound ended.
pub struct AudioRun {
    pub succeeded: bool,
    pub stderr: String,
    /// After a failure: whether the sound can be copied.
    pub sound_copies: bool,
    /// After a failure without sound to copy: whether anything can be copied.
    pub file_copies: bool,
    /// The volume with one decimal, where it is below the limit of silence.
    pub silence: Option<String>,
}

/// What ffmpeg says of the sound.
pub open spec fn audio_verdict(a: AudioRun) -> Result<Audio, Seq<char>> {
    if !a.succeeded {
        if !a.sound_copies && a.file_copies {
            Ok(Audio::Absent)
        } else {
            Err(
                "ffmpeg 解不開這個音訊："@ + match last_words(lines(a.stderr@)) {
                    Some(w) => w,
                    None => ""@,
                },
            )
        }
    } else {
        match a.silence {
            Some(db) => Err("整首無聲（mean_volume "@ + db@ + " dB）"@),
            None => Ok(Audio::Decoded),
        }
    }
}

pub fn verify_audio_with_ffmpeg(a: &AudioRun) -> (r: Result<Audio, String>)
    ensures
        match r {
            Ok(x) => audio_verdict(*a) == Ok::<Audio, Seq<char>>(x),
            Err(e) => audio_verdict(*a) == Err::<Audio, Seq<char>>(e@),
        },
{
    if !a.succeeded {
        if !a.sound_copies && a.file_copies {
            return Ok(Audio::Absent);
        }
        return Err(
            match last_line(a.stderr.as_str()) {
                Some(w) => cat("ffmpeg 解不開這個音訊：", w.as_str()),
                None => cat("ffmpeg 解不開這個音訊：", ""),
            },
        );
    }
    match &a.silence {
        Some(db) => Err(cat3("整首無聲（mean_volume ", db.as_str(), " dB）")),
        None => Ok(Audio::Decoded),
    }
}

/// How many packets may fail to decode. The first one of some files is cut off,
/// and every player skips it.
pub const MAX_DECODE_ERRORS: u32 = 8;

/// A track of a file.
pub struct Track {
    pub id: u32,
    pub decodable: bool,
    pub sample_rate: Option<u32>,
}

/// Whether a track is sound that can be decoded.
pub open spec fn is_sound(t: Track) -> bool {
    t.decodable && t.sample_rate is Some
}

/// The first track of sound. The first track of a video is often the picture.
pub open spec fn first_sound(tracks: Seq<Track>) -> Option<int>
    decreases tracks.len(),
{
    if tracks.len() == 0 {
        None
    } else if is_sound(tracks[0]) {
        Some(0)
    } else {
        match first_sound(tracks.skip(1)) {
            Some(i) => Some(i + 1),
            None => None,
        }
    }
}

/// Picks the track to decode, by its place among the tracks.
pub fn pick_track(tracks: &Vec<Track>) -> (r: Result<usize, String>)
    ensures
        match (r, first_sound(tracks@)) {
            (Ok(i), Some(k)) => i == k && 0 <= k < tracks@.len() && tracks@[k].sample_rate->0 > 0,
            (Err(e), Some(k)) => tracks@[k].sample_rate == Some(0u32) && e@ == "取樣率不明"@,
            (Err(e), None) => e@ == "檔案裡沒有可解碼的音訊軌"@,
            (Ok(_), None) => false,
        },
{
    let mut i: usize = 0;
    proof {
        assert(tracks@.skip(0) =~= tracks@);
    }
    while i < tracks.len()
        invariant
            i <= tracks@.len(),
            match first_sound(tracks@.skip(i as int)) {
                Some(k) => first_sound(tracks@) == Some(k + i),
                None => first_sound(tracks@) is None,
            },
        decreases tracks@.len() - i,
    {
        proof {
            assert(tracks@.skip(i as int)[0] == tracks@[i as int]);
            assert(tracks@.skip(i as int).skip(1) =~= tracks@.skip(i + 1));
        }
        if tracks[i].decodable {
            if let Some(rate) = tracks[i].sample_rate {
                proof {
                    assert(first_sound(tracks@.skip(i as int)) == Some(0int));
                }
                if rate == 0 {
                    return Err("取樣率不明".to_owned());
                }
                return Ok(i);
            }
        }
        i += 1;
    }
    Err("檔案裡沒有可解碼的音訊軌".to_owned())
}

/// What became of a packet.
pub enum Packet {
    /// It gave that many samples over all channels.
    Decoded { samples: u64, channels: u64 },
    /// It could not be decoded.
    Bad(String),
    /// The decoder gave up.
    Broken(String),
}

/// The decoding of a file's sound while it runs.
pub struct Gate {
    track: u32,
    sample_rate: u32,
    frames: u64,
    samples: u64,
    decode_errors: u32,
}

/// What is known of the decoding.
#[verifier::ext_equal]
pub struct GateView {
    pub track: u32,
    pub sample_rate: u32,
    pub frames: u64,
    pub samples: u64,
    pub decode_errors: u32,
}

impl View for Gate {
    type V = GateView;

    closed spec fn view(&self) -> GateView {
        GateView {
            track: self.track,
            sample_rate: self.sample_rate,
            frames: self.frames,
            samples: self.samples,
            decode_errors: self.decode_errors,
        }
    }
}

/// A sum, as far as it can be counted.
pub open spec fn sum(a: u64, b: u64) -> u64 {
    if a + b <= u64::MAX {
        (a + b) as u64
    } else {
        u64::MAX
    }
}

pub open spec fn at_least_one(n: u64) -> u64 {
    if n == 0 {
        1
    } else {
        n
    }
}

impl GateView {
    /// After a packet, and the words for one that ends it all.
    pub open spec fn took(self, p: Packet) -> (Option<Seq<char>>, GateView) {
        match p {
            Packet::Decoded { samples, channels } => (
                None,
                GateView {
                    samples: sum(self.samples, samples),
                    frames: sum(self.frames, samples / at_least_one(channels)),
                    ..self
                },
            ),
            Packet::Bad(msg) => if self.decode_errors >= MAX_DECODE_ERRORS {
                (Some("解碼錯誤過多（最後一筆："@ + msg@ + "）"@), self)
            } else {
                (None, GateView { decode_errors: (self.decode_errors + 1) as u32, ..self })
            },
            Packet::Broken(msg) => (Some("解碼失敗："@ + msg@), self),
        }
    }
}

fn add_up(a: u64, b: u64) -> (r: u64)
    ensures
        r == sum(a, b),
{
    if a <= u64::MAX - b {
        a + b
    } else {
        u64::MAX
    }
}

impl Gate {
    pub fn new(track: u32, sample_rate: u32) -> (r: Gate)
        ensures
            r@ == (GateView { track, sample_rate, frames: 0, samples: 0, decode_errors: 0 }),
    {
        Gate { track, sample_rate, frames: 0, samples: 0, decode_errors: 0 }
    }

    /// Whether a packet belongs to the sound.
    pub fn wants(&self, track: u32) -> (r: bool)
        ensures
            r == (track == self@.track),
    {
        track == self.track
    }

    /// Takes in what became of a packet of the sound.
    pub fn take(&mut self, p: &Packet) -> (r: Result<(), String>)
        ensures
            final(self)@ == old(self)@.took(*p).1,
            match (r, old(self)@.took(*p).0) {
                (Ok(_), None) => true,
                (Err(e), Some(w)) => e@ == w,
                _ => false,
            },
    {
        match p {
            Packet::Decoded { samples, channels } => {
                let c: u64 = if *channels == 0 {
                    1
                } else {
                    *channels
                };
                self.samples = add_up(self.samples, *samples);
                self.frames = add_up(self.frames, *samples / c);
                Ok(())
            },
            Packet::Bad(msg) => {
                if self.decode_errors >= MAX_DECODE_ERRORS {
                    return Err(cat3("解碼錯誤過多（最後一筆：", msg.as_str(), "）"));
                }
                self.decode_errors += 1;
                Ok(())
            },
            Packet::Broken(msg) => Err(cat("解碼失敗：", msg.as_str())),
        }
    }

    /// The verdict at the end of the file: something was decoded, it lasts a
    /// second at least, and it is not silence. `length` is how long it lasts,
    /// with two decimals; `silence` its level with one, where it is below the
    /// limit of silence.
    pub fn finish(&self, length: &str, silence: Option<&str>) -> (r: Result<(), String>)
        ensures
            verdict(r) == (if self@.samples == 0 {
                Err("完全解不出音訊資料"@)
            } else if self@.frames < self@.sample_rate {
                Err("長度只有 "@ + length@ + " 秒"@)
            } else {
                match silence {
                    Some(db) => Err("整首無聲（RMS "@ + db@ + " dB）"@),
                    None => Ok(()),
                }
            }),
            verdict(r) == sound_verdict(self@, length@, crate::text::str_of(silence)),
    {
        if self.samples == 0 {
            return Err("完全解不出音訊資料".to_owned());
        }
        if self.frames < self.sample_rate as u64 {
            return Err(cat3("長度只有 ", length, " 秒"));
        }
        match silence {
            Some(db) => Err(cat3("整首無聲（RMS ", db, " dB）")),
            None => Ok(()),
        }
    }

    /// The samples of one channel so far, and the samples of all of them.
    pub fn counted(&self) -> (r: (u64, u64))
        ensures
            r == (self@.frames, self@.samples),
    {
        (self.frames, self.samples)
    }
}

/// A PDF or a ZIP archive of which the end is missing does not pass: without
/// its last mark no container passes.
pub proof fn law_cut_off_archives_fail(b: Seq<u8>)
    requires
        !holds(end_of(b), pdf_end()),
        !holds(end_of(b), zip_end()),
    ensures
        archive_verdict(b) is Err,
{
}

/// JSON of which neither the whole nor every line can be parsed does not pass.
pub proof fn law_broken_json_fails(text: Seq<char>)
    requires
        json_read(text) is Err,
        bad_line(not_blank(lines(text))) is Some,
    ensures
        json_verdict(text) is Err,
{
}

/// What the muxer says of times is never taken for a complaint about decoding.
pub proof fn law_muxer_is_not_heard(l: Seq<Seq<char>>, i: int)
    requires
        0 <= i < complaints(l).len(),
    ensures
        !starts_with(complaints(l)[i], "[null @"@),
        complaints(l)[i].len() > 0,
    decreases l.len(),
{
    let front = complaints(l.drop_last());
    if i < front.len() {
        law_muxer_is_not_heard(l.drop_last(), i);
    }
}

/// A complaint about decoding is never lost.
pub proof fn law_complaints_survive(l: Seq<Seq<char>>, i: int)
    requires
        0 <= i < l.len(),
        complaint(trimmed(l[i])),
    ensures
        complaints(l).contains(trimmed(l[i])),
    decreases l.len(),
{
    let front = complaints(l.drop_last());
    if i == l.len() - 1 {
        assert(complaints(l).last() == trimmed(l[i]));
        assert(complaints(l).contains(complaints(l)[complaints(l).len() - 1]));
    } else {
        law_complaints_survive(l.drop_last(), i);
        let k = front.index_of(trimmed(l[i]));
        assert(front[k] == trimmed(l[i]));
        assert(complaints(l)[k] == trimmed(l[i]));
    }
}

/// What can be told of a file goes by its extension, in whatever case.
#[verifier::rlimit(40)]
pub proof fn law_extensions_tell_the_level(ext: Seq<char>)
    ensures
        lower(ext) == "mp4"@ ==> ext_level(ext) == Level::Media,
        lower(ext) == "m4a"@ ==> ext_level(ext) == Level::Media,
        lower(ext) == "mp3"@ ==> ext_level(ext) == Level::Media,
        lower(ext) == "webm"@ ==> ext_level(ext) == Level::Media,
        lower(ext) == "mkv"@ ==> ext_level(ext) == Level::Media,
        lower(ext) == "mov"@ ==> ext_level(ext) == Level::Media,
        lower(ext) == "avi"@ ==> ext_level(ext) == Level::Media,
        lower(ext) == "flv"@ ==> ext_level(ext) == Level::Media,
        lower(ext) == "ts"@ ==> ext_level(ext) == Level::Media,
        lower(ext) == "wav"@ ==> ext_level(ext) == Level::Media,
        lower(ext) == "flac"@ ==> ext_level(ext) == Level::Media,
        lower(ext) == "opus"@ ==> ext_level(ext) == Level::Media,
        lower(ext) == "ogg"@ ==> ext_level(ext) == Level::Media,
        lower(ext) == "aac"@ ==> ext_level(ext) == Level::Media,
        lower(ext) == "m4v"@ ==> ext_level(ext) == Level::Media,
        lower(ext) == "wma"@ ==> ext_level(ext) == Level::Media,
        lower(ext) == "jpg"@ ==> ext_level(ext) == Level::Image,
        lower(ext) == "jpeg"@ ==> ext_level(ext) == Level::Image,
        lower(ext) == "png"@ ==> ext_level(ext) == Level::Image,
        lower(ext) == "gif"@ ==> ext_level(ext) == Level::Image,
        lower(ext) == "webp"@ ==> ext_level(ext) == Level::Image,
        lower(ext) == "bmp"@ ==> ext_level(ext) == Level::Image,
        lower(ext) == "tif"@ ==> ext_level(ext) == Level::Image,
        lower(ext) == "tiff"@ ==> ext_level(ext) == Level::Image,
        lower(ext) == "avif"@ ==> ext_level(ext) == Level::Image,
        lower(ext) == "heic"@ ==> ext_level(ext) == Level::Image,
        lower(ext) == "json"@ ==> ext_level(ext) == Level::Json,
        lower(ext) == "jsonl"@ ==> ext_level(ext) == Level::Json,
        lower(ext) == "ndjson"@ ==> ext_level(ext) == Level::Json,
        lower(ext) == "pdf"@ ==> ext_level(ext) == Level::Archive,
        lower(ext) == "zip"@ ==> ext_level(ext) == Level::Archive,
        lower(ext) == "epub"@ ==> ext_level(ext) == Level::Archive,
        lower(ext) == "cbz"@ ==> ext_level(ext) == Level::Archive,
        lower(ext) == "docx"@ ==> ext_level(ext) == Level::Archive,
        lower(ext) == "xlsx"@ ==> ext_level(ext) == Level::Archive,
        lower(ext) == "pptx"@ ==> ext_level(ext) == Level::Archive,
        lower(ext) == "txt"@ ==> ext_level(ext) == Level::Text,
        lower(ext) == "md"@ ==> ext_level(ext) == Level::Text,
        lower(ext) == "csv"@ ==> ext_level(ext) == Level::Text,
        lower(ext) == "srt"@ ==> ext_level(ext) == Level::Text,
        lower(ext) == "vtt"@ ==> ext_level(ext) == Level::Text,
        lower(ext) == "ass"@ ==> ext_level(ext) == Level::Text,
        lower(ext) == "lrc"@ ==> ext_level(ext) == Level::Text,
        lower(ext) == "html"@ ==> ext_level(ext) == Level::Text,
        lower(ext) == "htm"@ ==> ext_level(ext) == Level::Text,
        lower(ext) == "xml"@ ==> ext_level(ext) == Level::Text,
        lower(ext) == "bin"@ || lower(ext) == "exe"@ || lower(ext).len() == 0 ==> ext_level(ext)
            == Level::Integrity,
{
    lemma_known_exts();
    reveal_strlit("bin");
    reveal_strlit("exe");
    reveal_strlit("mp4");
    reveal_strlit("m4a");
    reveal_strlit("mp3");
    reveal_strlit("webm");
    reveal_strlit("mkv");
    reveal_strlit("mov");
    reveal_strlit("avi");
    reveal_strlit("flv");
    reveal_strlit("ts");
    reveal_strlit("wav");
    reveal_strlit("flac");
    reveal_strlit("opus");
    reveal_strlit("ogg");
    reveal_strlit("aac");
    reveal_strlit("m4v");
    reveal_strlit("wma");
    reveal_strlit("jpg");
    reveal_strlit("jpeg");
    reveal_strlit("png");
    reveal_strlit("gif");
    reveal_strlit("webp");
    reveal_strlit("bmp");
    reveal_strlit("tif");
    reveal_strlit("tiff");
    reveal_strlit("avif");
    reveal_strlit("heic");
    reveal_strlit("json");
    reveal_strlit("jsonl");
    reveal_strlit("ndjson");
    reveal_strlit("pdf");
    reveal_strlit("zip");
    reveal_strlit("epub");
    reveal_strlit("cbz");
    reveal_strlit("docx");
    reveal_strlit("xlsx");
    reveal_strlit("pptx");
    reveal_strlit("txt");
    reveal_strlit("md");
    reveal_strlit("csv");
    reveal_strlit("srt");
    reveal_strlit("vtt");
    reveal_strlit("ass");
    reveal_strlit("lrc");
    reveal_strlit("html");
    reveal_strlit("htm");
    reveal_strlit("xml");
    assert("bin"@[0] != "mp4"@[0]);
    assert("bin"@[0] != "m4a"@[0]);
    assert("bin"@[0] != "mp3"@[0]);
    assert("bin"@.len() != "webm"@.len());
    assert("bin"@[0] != "mkv"@[0]);
    assert("bin"@[0] != "mov"@[0]);
    assert("bin"@[0] != "avi"@[0]);
    assert("bin"@[0] != "flv"@[0]);
    assert("bin"@.len() != "ts"@.len());
    assert("bin"@[0] != "wav"@[0]);
    assert("bin"@.len() != "flac"@.len());
    assert("bin"@.len() != "opus"@.len());
    assert("bin"@[0] != "ogg"@[0]);
    assert("bin"@[0] != "aac"@[0]);
    assert("bin"@[0] != "m4v"@[0]);
    assert("bin"@[0] != "wma"@[0]);
    assert("bin"@[0] != "jpg"@[0]);
    assert("bin"@.len() != "jpeg"@.len());
    assert("bin"@[0] != "png"@[0]);
    assert("bin"@[0] != "gif"@[0]);
    assert("bin"@.len() != "webp"@.len());
    assert("bin"@[1] != "bmp"@[1]);
    assert("bin"@[0] != "tif"@[0]);
    assert("bin"@.len() != "tiff"@.len());
    assert("bin"@.len() != "avif"@.len());
    assert("bin"@.len() != "heic"@.len());
    assert("bin"@.len() != "json"@.len());
    assert("bin"@.len() != "jsonl"@.len());
    assert("bin"@.len() != "ndjson"@.len());
    assert("bin"@[0] != "pdf"@[0]);
    assert("bin"@[0] != "zip"@[0]);
    assert("bin"@.len() != "epub"@.len());
    assert("bin"@[0] != "cbz"@[0]);
    assert("bin"@.len() != "docx"@.len());
    assert("bin"@.len() != "xlsx"@.len());
    assert("bin"@.len() != "pptx"@.len());
    assert("bin"@[0] != "txt"@[0]);
    assert("bin"@.len() != "md"@.len());
    assert("bin"@[0] != "csv"@[0]);
    assert("bin"@[0] != "srt"@[0]);
    assert("bin"@[0] != "vtt"@[0]);
    assert("bin"@[0] != "ass"@[0]);
    assert("bin"@[0] != "lrc"@[0]);
    assert("bin"@.len() != "html"@.len());
    assert("bin"@[0] != "htm"@[0]);
    assert("bin"@[0] != "xml"@[0]);
    assert("exe"@[0] != "mp4"@[0]);
    assert("exe"@[0] != "m4a"@[0]);
    assert("exe"@[0] != "mp3"@[0]);
    assert("exe"@.len() != "webm"@.len());
    assert("exe"@[0] != "mkv"@[0]);
    assert("exe"@[0] != "mov"@[0]);
    assert("exe"@[0] != "avi"@[0]);
    assert("exe"@[0] != "flv"@[0]);
    assert("exe"@.len() != "ts"@.len());
    assert("exe"@[0] != "wav"@[0]);
    assert("exe"@.len() != "flac"@.len());
    assert("exe"@.len() != "opus"@.len());
    assert("exe"@[0] != "ogg"@[0]);
    assert("exe"@[0] != "aac"@[0]);
    assert("exe"@[0] != "m4v"@[0]);
    assert("exe"@[0] != "wma"@[0]);
    assert("exe"@[0] != "jpg"@[0]);
    assert("exe"@.len() != "jpeg"@.len());
    assert("exe"@[0] != "png"@[0]);
    assert("exe"@[0] != "gif"@[0]);
    assert("exe"@.len() != "webp"@.len());
    assert("exe"@[0] != "bmp"@[0]);
    assert("exe"@[0] != "tif"@[0]);
    assert("exe"@.len() != "tiff"@.len());
    assert("exe"@.len() != "avif"@.len());
    assert("exe"@.len() != "heic"@.len());
    assert("exe"@.len() != "json"@.len());
    assert("exe"@.len() != "jsonl"@.len());
    assert("exe"@.len() != "ndjson"@.len());
    assert("exe"@[0] != "pdf"@[0]);
    assert("exe"@[0] != "zip"@[0]);
    assert("exe"@.len() != "epub"@.len());
    assert("exe"@[0] != "cbz"@[0]);
    assert("exe"@.len() != "docx"@.len());
    assert("exe"@.len() != "xlsx"@.len());
    assert("exe"@.len() != "pptx"@.len());
    assert("exe"@[0] != "txt"@[0]);
    assert("exe"@.len() != "md"@.len());
    assert("exe"@[0] != "csv"@[0]);
    assert("exe"@[0] != "srt"@[0]);
    assert("exe"@[0] != "vtt"@[0]);
    assert("exe"@[0] != "ass"@[0]);
    assert("exe"@[0] != "lrc"@[0]);
    assert("exe"@.len() != "html"@.len());
    assert("exe"@[0] != "htm"@[0]);
    assert("exe"@[0] != "xml"@[0]);
}

/// No extension belongs to two levels.
#[verifier::rlimit(40)]
pub(crate) proof fn lemma_known_exts()
    ensures
        !media_ext("jpg"@),
        !media_ext("jpeg"@),
        !media_ext("png"@),
        !media_ext("gif"@),
        !media_ext("webp"@),
        !media_ext("bmp"@),
        !media_ext("tif"@),
        !media_ext("tiff"@),
        !media_ext("avif"@),
        !media_ext("heic"@),
        !media_ext("json"@),
        !image_ext("json"@),
        !media_ext("jsonl"@),
        !image_ext("jsonl"@),
        !media_ext("ndjson"@),
        !image_ext("ndjson"@),
        !media_ext("pdf"@),
        !image_ext("pdf"@),
        !json_ext("pdf"@),
        !media_ext("zip"@),
        !image_ext("zip"@),
        !json_ext("zip"@),
        !media_ext("epub"@),
        !image_ext("epub"@),
        !json_ext("epub"@),
        !media_ext("cbz"@),
        !image_ext("cbz"@),
        !json_ext("cbz"@),
        !media_ext("docx"@),
        !image_ext("docx"@),
        !json_ext("docx"@),
        !media_ext("xlsx"@),
        !image_ext("xlsx"@),
        !json_ext("xlsx"@),
        !media_ext("pptx"@),
        !image_ext("pptx"@),
        !json_ext("pptx"@),
        !media_ext("txt"@),
        !image_ext("txt"@),
        !json_ext("txt"@),
        !archive_ext("txt"@),
        !media_ext("md"@),
        !image_ext("md"@),
        !json_ext("md"@),
        !archive_ext("md"@),
        !media_ext("csv"@),
        !image_ext("csv"@),
        !json_ext("csv"@),
        !archive_ext("csv"@),
        !media_ext("srt"@),
        !image_ext("srt"@),
        !json_ext("srt"@),
        !archive_ext("srt"@),
        !media_ext("vtt"@),
        !image_ext("vtt"@),
        !json_ext("vtt"@),
        !archive_ext("vtt"@),
        !media_ext("ass"@),
        !image_ext("ass"@),
        !json_ext("ass"@),
        !archive_ext("ass"@),
        !media_ext("lrc"@),
        !image_ext("lrc"@),
        !json_ext("lrc"@),
        !archive_ext("lrc"@),
        !media_ext("html"@),
        !image_ext("html"@),
        !json_ext("html"@),
        !archive_ext("html"@),
        !media_ext("htm"@),
        !image_ext("htm"@),
        !json_ext("htm"@),
        !archive_ext("htm"@),
        !media_ext("xml"@),
        !image_ext("xml"@),
        !json_ext("xml"@),
        !archive_ext("xml"@),
{
    reveal_strlit("mp4");
    reveal_strlit("m4a");
    reveal_strlit("mp3");
    reveal_strlit("webm");
    reveal_strlit("mkv");
    reveal_strlit("mov");
    reveal_strlit("avi");
    reveal_strlit("flv");
    reveal_strlit("ts");
    reveal_strlit("wav");
    reveal_strlit("flac");
    reveal_strlit("opus");
    reveal_strlit("ogg");
    reveal_strlit("aac");
    reveal_strlit("m4v");
    reveal_strlit("wma");
    reveal_strlit("jpg");
    reveal_strlit("jpeg");
    reveal_strlit("png");
    reveal_strlit("gif");
    reveal_strlit("webp");
    reveal_strlit("bmp");
    reveal_strlit("tif");
    reveal_strlit("tiff");
    reveal_strlit("avif");
    reveal_strlit("heic");
    reveal_strlit("json");
    reveal_strlit("jsonl");
    reveal_strlit("ndjson");
    reveal_strlit("pdf");
    reveal_strlit("zip");
    reveal_strlit("epub");
    reveal_strlit("cbz");
    reveal_strlit("docx");
    reveal_strlit("xlsx");
    reveal_strlit("pptx");
    reveal_strlit("txt");
    reveal_strlit("md");
    reveal_strlit("csv");
    reveal_strlit("srt");
    reveal_strlit("vtt");
    reveal_strlit("ass");
    reveal_strlit("lrc");
    reveal_strlit("html");
    reveal_strlit("htm");
    reveal_strlit("xml");
    assert("jpg"@[0] != "mp4"@[0]);
    assert("jpg"@[0] != "m4a"@[0]);
    assert("jpg"@[0] != "mp3"@[0]);
    assert("jpg"@.len() != "webm"@.len());
    assert("jpg"@[0] != "mkv"@[0]);
    assert("jpg"@[0] != "mov"@[0]);
    assert("jpg"@[0] != "avi"@[0]);
    assert("jpg"@[0] != "flv"@[0]);
    assert("jpg"@.len() != "ts"@.len());
    assert("jpg"@[0] != "wav"@[0]);
    assert("jpg"@.len() != "flac"@.len());
    assert("jpg"@.len() != "opus"@.len());
    assert("jpg"@[0] != "ogg"@[0]);
    assert("jpg"@[0] != "aac"@[0]);
    assert("jpg"@[0] != "m4v"@[0]);
    assert("jpg"@[0] != "wma"@[0]);
    assert("jpeg"@.len() != "mp4"@.len());
    assert("jpeg"@.len() != "m4a"@.len());
    assert("jpeg"@.len() != "mp3"@.len());
    assert("jpeg"@[0] != "webm"@[0]);
    assert("jpeg"@.len() != "mkv"@.len());
    assert("jpeg"@.len() != "mov"@.len());
    assert("jpeg"@.len() != "avi"@.len());
    assert("jpeg"@.len() != "flv"@.len());
    assert("jpeg"@.len() != "ts"@.len());
    assert("jpeg"@.len() != "wav"@.len());
    assert("jpeg"@[0] != "flac"@[0]);
    assert("jpeg"@[0] != "opus"@[0]);
    assert("jpeg"@.len() != "ogg"@.len());
    assert("jpeg"@.len() != "aac"@.len());
    assert("jpeg"@.len() != "m4v"@.len());
    assert("jpeg"@.len() != "wma"@.len());
    assert("png"@[0] != "mp4"@[0]);
    assert("png"@[0] != "m4a"@[0]);
    assert("png"@[0] != "mp3"@[0]);
    assert("png"@.len() != "webm"@.len());
    assert("png"@[0] != "mkv"@[0]);
    assert("png"@[0] != "mov"@[0]);
    assert("png"@[0] != "avi"@[0]);
    assert("png"@[0] != "flv"@[0]);
    assert("png"@.len() != "ts"@.len());
    assert("png"@[0] != "wav"@[0]);
    assert("png"@.len() != "flac"@.len());
    assert("png"@.len() != "opus"@.len());
    assert("png"@[0] != "ogg"@[0]);
    assert("png"@[0] != "aac"@[0]);
    assert("png"@[0] != "m4v"@[0]);
    assert("png"@[0] != "wma"@[0]);
    assert("gif"@[0] != "mp4"@[0]);
    assert("gif"@[0] != "m4a"@[0]);
    assert("gif"@[0] != "mp3"@[0]);
    assert("gif"@.len() != "webm"@.len());
    assert("gif"@[0] != "mkv"@[0]);
    assert("gif"@[0] != "mov"@[0]);
    assert("gif"@[0] != "avi"@[0]);
    assert("gif"@[0] != "flv"@[0]);
    assert("gif"@.len() != "ts"@.len());
    assert("gif"@[0] != "wav"@[0]);
    assert("gif"@.len() != "flac"@.len());
    assert("gif"@.len() != "opus"@.len());
    assert("gif"@[0] != "ogg"@[0]);
    assert("gif"@[0] != "aac"@[0]);
    assert("gif"@[0] != "m4v"@[0]);
    assert("gif"@[0] != "wma"@[0]);
    assert("webp"@.len() != "mp4"@.len());
    assert("webp"@.len() != "m4a"@.len());
    assert("webp"@.len() != "mp3"@.len());
    assert("webp"@[3] != "webm"@[3]);
    assert("webp"@.len() != "mkv"@.len());
    assert("webp"@.len() != "mov"@.len());
    assert("webp"@.len() != "avi"@.len());
    assert("webp"@.len() != "flv"@.len());
    assert("webp"@.len() != "ts"@.len());
    assert("webp"@.len() != "wav"@.len());
    assert("webp"@[0] != "flac"@[0]);
    assert("webp"@[0] != "opus"@[0]);
    assert("webp"@.len() != "ogg"@.len());
    assert("webp"@.len() != "aac"@.len());
    assert("webp"@.len() != "m4v"@.len());
    assert("webp"@.len() != "wma"@.len());
    assert("bmp"@[0] != "mp4"@[0]);
    assert("bmp"@[0] != "m4a"@[0]);
    assert("bmp"@[0] != "mp3"@[0]);
    assert("bmp"@.len() != "webm"@.len());
    assert("bmp"@[0] != "mkv"@[0]);
    assert("bmp"@[0] != "mov"@[0]);
    assert("bmp"@[0] != "avi"@[0]);
    assert("bmp"@[0] != "flv"@[0]);
    assert("bmp"@.len() != "ts"@.len());
    assert("bmp"@[0] != "wav"@[0]);
    assert("bmp"@.len() != "flac"@.len());
    assert("bmp"@.len() != "opus"@.len());
    assert("bmp"@[0] != "ogg"@[0]);
    assert("bmp"@[0] != "aac"@[0]);
    assert("bmp"@[0] != "m4v"@[0]);
    assert("bmp"@[0] != "wma"@[0]);
    assert("tif"@[0] != "mp4"@[0]);
    assert("tif"@[0] != "m4a"@[0]);
    assert("tif"@[0] != "mp3"@[0]);
    assert("tif"@.len() != "webm"@.len());
    assert("tif"@[0] != "mkv"@[0]);
    assert("tif"@[0] != "mov"@[0]);
    assert("tif"@[0] != "avi"@[0]);
    assert("tif"@[0] != "flv"@[0]);
    assert("tif"@.len() != "ts"@.len());
    assert("tif"@[0] != "wav"@[0]);
    assert("tif"@.len() != "flac"@.len());
    assert("tif"@.len() != "opus"@.len());
    assert("tif"@[0] != "ogg"@[0]);
    assert("tif"@[0] != "aac"@[0]);
    assert("tif"@[0] != "m4v"@[0]);
    assert("tif"@[0] != "wma"@[0]);
    assert("tiff"@.len() != "mp4"@.len());
    assert("tiff"@.len() != "m4a"@.len());
    assert("tiff"@.len() != "mp3"@.len());
    assert("tiff"@[0] != "webm"@[0]);
    assert("tiff"@.len() != "mkv"@.len());
    assert("tiff"@.len() != "mov"@.len());
    assert("tiff"@.len() != "avi"@.len());
    assert("tiff"@.len() != "flv"@.len());
    assert("tiff"@.len() != "ts"@.len());
    assert("tiff"@.len() != "wav"@.len());
    assert("tiff"@[0] != "flac"@[0]);
    assert("tiff"@[0] != "opus"@[0]);
    assert("tiff"@.len() != "ogg"@.len());
    assert("tiff"@.len() != "aac"@.len());
    assert("tiff"@.len() != "m4v"@.len());
    assert("tiff"@.len() != "wma"@.len());
    assert("avif"@.len() != "mp4"@.len());
    assert("avif"@.len() != "m4a"@.len());
    assert("avif"@.len() != "mp3"@.len());
    assert("avif"@[0] != "webm"@[0]);
    assert("avif"@.len() != "mkv"@.len());
    assert("avif"@.len() != "mov"@.len());
    assert("avif"@.len() != "avi"@.len());
    assert("avif"@.len() != "flv"@.len());
    assert("avif"@.len() != "ts"@.len());
    assert("avif"@.len() != "wav"@.len());
    assert("avif"@[0] != "flac"@[0]);
    assert("avif"@[0] != "opus"@[0]);
    assert("avif"@.len() != "ogg"@.len());
    assert("avif"@.len() != "aac"@.len());
    assert("avif"@.len() != "m4v"@.len());
    assert("avif"@.len() != "wma"@.len());
    assert("heic"@.len() != "mp4"@.len());
    assert("heic"@.len() != "m4a"@.len());
    assert("heic"@.len() != "mp3"@.len());
    assert("heic"@[0] != "webm"@[0]);
    assert("heic"@.len() != "mkv"@.len());
    assert("heic"@.len() != "mov"@.len());
    assert("heic"@.len() != "avi"@.len());
    assert("heic"@.len() != "flv"@.len());
    assert("heic"@.len() != "ts"@.len());
    assert("heic"@.len() != "wav"@.len());
    assert("heic"@[0] != "flac"@[0]);
    assert("heic"@[0] != "opus"@[0]);
    assert("heic"@.len() != "ogg"@.len());
    assert("heic"@.len() != "aac"@.len());
    assert("heic"@.len() != "m4v"@.len());
    assert("heic"@.len() != "wma"@.len());
    assert("json"@.len() != "mp4"@.len());
    assert("json"@.len() != "m4a"@.len());
    assert("json"@.len() != "mp3"@.len());
    assert("json"@[0] != "webm"@[0]);
    assert("json"@.len() != "mkv"@.len());
    assert("json"@.len() != "mov"@.len());
    assert("json"@.len() != "avi"@.len());
    assert("json"@.len() != "flv"@.len());
    assert("json"@.len() != "ts"@.len());
    assert("json"@.len() != "wav"@.len());
    assert("json"@[0] != "flac"@[0]);
    assert("json"@[0] != "opus"@[0]);
    assert("json"@.len() != "ogg"@.len());
    assert("json"@.len() != "aac"@.len());
    assert("json"@.len() != "m4v"@.len());
    assert("json"@.len() != "wma"@.len());
    assert("json"@.len() != "jpg"@.len());
    assert("json"@[1] != "jpeg"@[1]);
    assert("json"@.len() != "png"@.len());
    assert("json"@.len() != "gif"@.len());
    assert("json"@[0] != "webp"@[0]);
    assert("json"@.len() != "bmp"@.len());
    assert("json"@.len() != "tif"@.len());
    assert("json"@[0] != "tiff"@[0]);
    assert("json"@[0] != "avif"@[0]);
    assert("json"@[0] != "heic"@[0]);
    assert("jsonl"@.len() != "mp4"@.len());
    assert("jsonl"@.len() != "m4a"@.len());
    assert("jsonl"@.len() != "mp3"@.len());
    assert("jsonl"@.len() != "webm"@.len());
    assert("jsonl"@.len() != "mkv"@.len());
    assert("jsonl"@.len() != "mov"@.len());
    assert("jsonl"@.len() != "avi"@.len());
    assert("jsonl"@.len() != "flv"@.len());
    assert("jsonl"@.len() != "ts"@.len());
    assert("jsonl"@.len() != "wav"@.len());
    assert("jsonl"@.len() != "flac"@.len());
    assert("jsonl"@.len() != "opus"@.len());
    assert("jsonl"@.len() != "ogg"@.len());
    assert("jsonl"@.len() != "aac"@.len());
    assert("jsonl"@.len() != "m4v"@.len());
    assert("jsonl"@.len() != "wma"@.len());
    assert("jsonl"@.len() != "jpg"@.len());
    assert("jsonl"@.len() != "jpeg"@.len());
    assert("jsonl"@.len() != "png"@.len());
    assert("jsonl"@.len() != "gif"@.len());
    assert("jsonl"@.len() != "webp"@.len());
    assert("jsonl"@.len() != "bmp"@.len());
    assert("jsonl"@.len() != "tif"@.len());
    assert("jsonl"@.len() != "tiff"@.len());
    assert("jsonl"@.len() != "avif"@.len());
    assert("jsonl"@.len() != "heic"@.len());
    assert("ndjson"@.len() != "mp4"@.len());
    assert("ndjson"@.len() != "m4a"@.len());
    assert("ndjson"@.len() != "mp3"@.len());
    assert("ndjson"@.len() != "webm"@.len());
    assert("ndjson"@.len() != "mkv"@.len());
    assert("ndjson"@.len() != "mov"@.len());
    assert("ndjson"@.len() != "avi"@.len());
    assert("ndjson"@.len() != "flv"@.len());
    assert("ndjson"@.len() != "ts"@.len());
    assert("ndjson"@.len() != "wav"@.len());
    assert("ndjson"@.len() != "flac"@.len());
    assert("ndjson"@.len() != "opus"@.len());
    assert("ndjson"@.len() != "ogg"@.len());
    assert("ndjson"@.len() != "aac"@.len());
    assert("ndjson"@.len() != "m4v"@.len());
    assert("ndjson"@.len() != "wma"@.len());
    assert("ndjson"@.len() != "jpg"@.len());
    assert("ndjson"@.len() != "jpeg"@.len());
    assert("ndjson"@.len() != "png"@.len());
    assert("ndjson"@.len() != "gif"@.len());
    assert("ndjson"@.len() != "webp"@.len());
    assert("ndjson"@.len() != "bmp"@.len());
    assert("ndjson"@.len() != "tif"@.len());
    assert("ndjson"@.len() != "tiff"@.len());
    assert("ndjson"@.len() != "avif"@.len());
    assert("ndjson"@.len() != "heic"@.len());
    assert("pdf"@[0] != "mp4"@[0]);
    assert("pdf"@[0] != "m4a"@[0]);
    assert("pdf"@[0] != "mp3"@[0]);
    assert("pdf"@.len() != "webm"@.len());
    assert("pdf"@[0] != "mkv"@[0]);
    assert("pdf"@[0] != "mov"@[0]);
    assert("pdf"@[0] != "avi"@[0]);
    assert("pdf"@[0] != "flv"@[0]);
    assert("pdf"@.len() != "ts"@.len());
    assert("pdf"@[0] != "wav"@[0]);
    assert("pdf"@.len() != "flac"@.len());
    assert("pdf"@.len() != "opus"@.len());
    assert("pdf"@[0] != "ogg"@[0]);
    assert("pdf"@[0] != "aac"@[0]);
    assert("pdf"@[0] != "m4v"@[0]);
    assert("pdf"@[0] != "wma"@[0]);
    assert("pdf"@[0] != "jpg"@[0]);
    assert("pdf"@.len() != "jpeg"@.len());
    assert("pdf"@[1] != "png"@[1]);
    assert("pdf"@[0] != "gif"@[0]);
    assert("pdf"@.len() != "webp"@.len());
    assert("pdf"@[0] != "bmp"@[0]);
    assert("pdf"@[0] != "tif"@[0]);
    assert("pdf"@.len() != "tiff"@.len());
    assert("pdf"@.len() != "avif"@.len());
    assert("pdf"@.len() != "heic"@.len());
    assert("pdf"@.len() != "json"@.len());
    assert("pdf"@.len() != "jsonl"@.len());
    assert("pdf"@.len() != "ndjson"@.len());
    assert("zip"@[0] != "mp4"@[0]);
    assert("zip"@[0] != "m4a"@[0]);
    assert("zip"@[0] != "mp3"@[0]);
    assert("zip"@.len() != "webm"@.len());
    assert("zip"@[0] != "mkv"@[0]);
    assert("zip"@[0] != "mov"@[0]);
    assert("zip"@[0] != "avi"@[0]);
    assert("zip"@[0] != "flv"@[0]);
    assert("zip"@.len() != "ts"@.len());
    assert("zip"@[0] != "wav"@[0]);
    assert("zip"@.len() != "flac"@.len());
    assert("zip"@.len() != "opus"@.len());
    assert("zip"@[0] != "ogg"@[0]);
    assert("zip"@[0] != "aac"@[0]);
    assert("zip"@[0] != "m4v"@[0]);
    assert("zip"@[0] != "wma"@[0]);
    assert("zip"@[0] != "jpg"@[0]);
    assert("zip"@.len() != "jpeg"@.len());
    assert("zip"@[0] != "png"@[0]);
    assert("zip"@[0] != "gif"@[0]);
    assert("zip"@.len() != "webp"@.len());
    assert("zip"@[0] != "bmp"@[0]);
    assert("zip"@[0] != "tif"@[0]);
    assert("zip"@.len() != "tiff"@.len());
    assert("zip"@.len() != "avif"@.len());
    assert("zip"@.len() != "heic"@.len());
    assert("zip"@.len() != "json"@.len());
    assert("zip"@.len() != "jsonl"@.len());
    assert("zip"@.len() != "ndjson"@.len());
    assert("epub"@.len() != "mp4"@.len());
    assert("epub"@.len() != "m4a"@.len());
    assert("epub"@.len() != "mp3"@.len());
    assert("epub"@[0] != "webm"@[0]);
    assert("epub"@.len() != "mkv"@.len());
    assert("epub"@.len() != "mov"@.len());
    assert("epub"@.len() != "avi"@.len());
    assert("epub"@.len() != "flv"@.len());
    assert("epub"@.len() != "ts"@.len());
    assert("epub"@.len() != "wav"@.len());
    assert("epub"@[0] != "flac"@[0]);
    assert("epub"@[0] != "opus"@[0]);
    assert("epub"@.len() != "ogg"@.len());
    assert("epub"@.len() != "aac"@.len());
    assert("epub"@.len() != "m4v"@.len());
    assert("epub"@.len() != "wma"@.len());
    assert("epub"@.len() != "jpg"@.len());
    assert("epub"@[0] != "jpeg"@[0]);
    assert("epub"@.len() != "png"@.len());
    assert("epub"@.len() != "gif"@.len());
    assert("epub"@[0] != "webp"@[0]);
    assert("epub"@.len() != "bmp"@.len());
    assert("epub"@.len() != "tif"@.len());
    assert("epub"@[0] != "tiff"@[0]);
    assert("epub"@[0] != "avif"@[0]);
    assert("epub"@[0] != "heic"@[0]);
    assert("epub"@[0] != "json"@[0]);
    assert("epub"@.len() != "jsonl"@.len());
    assert("epub"@.len() != "ndjson"@.len());
    assert("cbz"@[0] != "mp4"@[0]);
    assert("cbz"@[0] != "m4a"@[0]);
    assert("cbz"@[0] != "mp3"@[0]);
    assert("cbz"@.len() != "webm"@.len());
    assert("cbz"@[0] != "mkv"@[0]);
    assert("cbz"@[0] != "mov"@[0]);
    assert("cbz"@[0] != "avi"@[0]);
    assert("cbz"@[0] != "flv"@[0]);
    assert("cbz"@.len() != "ts"@.len());
    assert("cbz"@[0] != "wav"@[0]);
    assert("cbz"@.len() != "flac"@.len());
    assert("cbz"@.len() != "opus"@.len());
    assert("cbz"@[0] != "ogg"@[0]);
    assert("cbz"@[0] != "aac"@[0]);
    assert("cbz"@[0] != "m4v"@[0]);
    assert("cbz"@[0] != "wma"@[0]);
    assert("cbz"@[0] != "jpg"@[0]);
    assert("cbz"@.len() != "jpeg"@.len());
    assert("cbz"@[0] != "png"@[0]);
    assert("cbz"@[0] != "gif"@[0]);
    assert("cbz"@.len() != "webp"@.len());
    assert("cbz"@[0] != "bmp"@[0]);
    assert("cbz"@[0] != "tif"@[0]);
    assert("cbz"@.len() != "tiff"@.len());
    assert("cbz"@.len() != "avif"@.len());
    assert("cbz"@.len() != "heic"@.len());
    assert("cbz"@.len() != "json"@.len());
    assert("cbz"@.len() != "jsonl"@.len());
    assert("cbz"@.len() != "ndjson"@.len());
    assert("docx"@.len() != "mp4"@.len());
    assert("docx"@.len() != "m4a"@.len());
    assert("docx"@.len() != "mp3"@.len());
    assert("docx"@[0] != "webm"@[0]);
    assert("docx"@.len() != "mkv"@.len());
    assert("docx"@.len() != "mov"@.len());
    assert("docx"@.len() != "avi"@.len());
    assert("docx"@.len() != "flv"@.len());
    assert("docx"@.len() != "ts"@.len());
    assert("docx"@.len() != "wav"@.len());
    assert("docx"@[0] != "flac"@[0]);
    assert("docx"@[0] != "opus"@[0]);
    assert("docx"@.len() != "ogg"@.len());
    assert("docx"@.len() != "aac"@.len());
    assert("docx"@.len() != "m4v"@.len());
    assert("docx"@.len() != "wma"@.len());
    assert("docx"@.len() != "jpg"@.len());
    assert("docx"@[0] != "jpeg"@[0]);
    assert("docx"@.len() != "png"@.len());
    assert("docx"@.len() != "gif"@.len());
    assert("docx"@[0] != "webp"@[0]);
    assert("docx"@.len() != "bmp"@.len());
    assert("docx"@.len() != "tif"@.len());
    assert("docx"@[0] != "tiff"@[0]);
    assert("docx"@[0] != "avif"@[0]);
    assert("docx"@[0] != "heic"@[0]);
    assert("docx"@[0] != "json"@[0]);
    assert("docx"@.len() != "jsonl"@.len());
    assert("docx"@.len() != "ndjson"@.len());
    assert("xlsx"@.len() != "mp4"@.len());
    assert("xlsx"@.len() != "m4a"@.len());
    assert("xlsx"@.len() != "mp3"@.len());
    assert("xlsx"@[0] != "webm"@[0]);
    assert("xlsx"@.len() != "mkv"@.len());
    assert("xlsx"@.len() != "mov"@.len());
    assert("xlsx"@.len() != "avi"@.len());
    assert("xlsx"@.len() != "flv"@.len());
    assert("xlsx"@.len() != "ts"@.len());
    assert("xlsx"@.len() != "wav"@.len());
    assert("xlsx"@[0] != "flac"@[0]);
    assert("xlsx"@[0] != "opus"@[0]);
    assert("xlsx"@.len() != "ogg"@.len());
    assert("xlsx"@.len() != "aac"@.len());
    assert("xlsx"@.len() != "m4v"@.len());
    assert("xlsx"@.len() != "wma"@.len());
    assert("xlsx"@.len() != "jpg"@.len());
    assert("xlsx"@[0] != "jpeg"@[0]);
    assert("xlsx"@.len() != "png"@.len());
    assert("xlsx"@.len() != "gif"@.len());
    assert("xlsx"@[0] != "webp"@[0]);
    assert("xlsx"@.len() != "bmp"@.len());
    assert("xlsx"@.len() != "tif"@.len());
    assert("xlsx"@[0] != "tiff"@[0]);
    assert("xlsx"@[0] != "avif"@[0]);
    assert("xlsx"@[0] != "heic"@[0]);
    assert("xlsx"@[0] != "json"@[0]);
    assert("xlsx"@.len() != "jsonl"@.len());
    assert("xlsx"@.len() != "ndjson"@.len());
    assert("pptx"@.len() != "mp4"@.len());
    assert("pptx"@.len() != "m4a"@.len());
    assert("pptx"@.len() != "mp3"@.len());
    assert("pptx"@[0] != "webm"@[0]);
    assert("pptx"@.len() != "mkv"@.len());
    assert("pptx"@.len() != "mov"@.len());
    assert("pptx"@.len() != "avi"@.len());
    assert("pptx"@.len() != "flv"@.len());
    assert("pptx"@.len() != "ts"@.len());
    assert("pptx"@.len() != "wav"@.len());
    assert("pptx"@[0] != "flac"@[0]);
    assert("pptx"@[0] != "opus"@[0]);
    assert("pptx"@.len() != "ogg"@.len());
    assert("pptx"@.len() != "aac"@.len());
    assert("pptx"@.len() != "m4v"@.len());
    assert("pptx"@.len() != "wma"@.len());
    assert("pptx"@.len() != "jpg"@.len());
    assert("pptx"@[0] != "jpeg"@[0]);
    assert("pptx"@.len() != "png"@.len());
    assert("pptx"@.len() != "gif"@.len());
    assert("pptx"@[0] != "webp"@[0]);
    assert("pptx"@.len() != "bmp"@.len());
    assert("pptx"@.len() != "tif"@.len());
    assert("pptx"@[0] != "tiff"@[0]);
    assert("pptx"@[0] != "avif"@[0]);
    assert("pptx"@[0] != "heic"@[0]);
    assert("pptx"@[0] != "json"@[0]);
    assert("pptx"@.len() != "jsonl"@.len());
    assert("pptx"@.len() != "ndjson"@.len());
    assert("txt"@[0] != "mp4"@[0]);
    assert("txt"@[0] != "m4a"@[0]);
    assert("txt"@[0] != "mp3"@[0]);
    assert("txt"@.len() != "webm"@.len());
    assert("txt"@[0] != "mkv"@[0]);
    assert("txt"@[0] != "mov"@[0]);
    assert("txt"@[0] != "avi"@[0]);
    assert("txt"@[0] != "flv"@[0]);
    assert("txt"@.len() != "ts"@.len());
    assert("txt"@[0] != "wav"@[0]);
    assert("txt"@.len() != "flac"@.len());
    assert("txt"@.len() != "opus"@.len());
    assert("txt"@[0] != "ogg"@[0]);
    assert("txt"@[0] != "aac"@[0]);
    assert("txt"@[0] != "m4v"@[0]);
    assert("txt"@[0] != "wma"@[0]);
    assert("txt"@[0] != "jpg"@[0]);
    assert("txt"@.len() != "jpeg"@.len());
    assert("txt"@[0] != "png"@[0]);
    assert("txt"@[0] != "gif"@[0]);
    assert("txt"@.len() != "webp"@.len());
    assert("txt"@[0] != "bmp"@[0]);
    assert("txt"@[1] != "tif"@[1]);
    assert("txt"@.len() != "tiff"@.len());
    assert("txt"@.len() != "avif"@.len());
    assert("txt"@.len() != "heic"@.len());
    assert("txt"@.len() != "json"@.len());
    assert("txt"@.len() != "jsonl"@.len());
    assert("txt"@.len() != "ndjson"@.len());
    assert("txt"@[0] != "pdf"@[0]);
    assert("txt"@[0] != "zip"@[0]);
    assert("txt"@.len() != "epub"@.len());
    assert("txt"@[0] != "cbz"@[0]);
    assert("txt"@.len() != "docx"@.len());
    assert("txt"@.len() != "xlsx"@.len());
    assert("txt"@.len() != "pptx"@.len());
    assert("md"@.len() != "mp4"@.len());
    assert("md"@.len() != "m4a"@.len());
    assert("md"@.len() != "mp3"@.len());
    assert("md"@.len() != "webm"@.len());
    assert("md"@.len() != "mkv"@.len());
    assert("md"@.len() != "mov"@.len());
    assert("md"@.len() != "avi"@.len());
    assert("md"@.len() != "flv"@.len());
    assert("md"@[0] != "ts"@[0]);
    assert("md"@.len() != "wav"@.len());
    assert("md"@.len() != "flac"@.len());
    assert("md"@.len() != "opus"@.len());
    assert("md"@.len() != "ogg"@.len());
    assert("md"@.len() != "aac"@.len());
    assert("md"@.len() != "m4v"@.len());
    assert("md"@.len() != "wma"@.len());
    assert("md"@.len() != "jpg"@.len());
    assert("md"@.len() != "jpeg"@.len());
    assert("md"@.len() != "png"@.len());
    assert("md"@.len() != "gif"@.len());
    assert("md"@.len() != "webp"@.len());
    assert("md"@.len() != "bmp"@.len());
    assert("md"@.len() != "tif"@.len());
    assert("md"@.len() != "tiff"@.len());
    assert("md"@.len() != "avif"@.len());
    assert("md"@.len() != "heic"@.len());
    assert("md"@.len() != "json"@.len());
    assert("md"@.len() != "jsonl"@.len());
    assert("md"@.len() != "ndjson"@.len());
    assert("md"@.len() != "pdf"@.len());
    assert("md"@.len() != "zip"@.len());
    assert("md"@.len() != "epub"@.len());
    assert("md"@.len() != "cbz"@.len());
    assert("md"@.len() != "docx"@.len());
    assert("md"@.len() != "xlsx"@.len());
    assert("md"@.len() != "pptx"@.len());
    assert("csv"@[0] != "mp4"@[0]);
    assert("csv"@[0] != "m4a"@[0]);
    assert("csv"@[0] != "mp3"@[0]);
    assert("csv"@.len() != "webm"@.len());
    assert("csv"@[0] != "mkv"@[0]);
    assert("csv"@[0] != "mov"@[0]);
    assert("csv"@[0] != "avi"@[0]);
    assert("csv"@[0] != "flv"@[0]);
    assert("csv"@.len() != "ts"@.len());
    assert("csv"@[0] != "wav"@[0]);
    assert("csv"@.len() != "flac"@.len());
    assert("csv"@.len() != "opus"@.len());
    assert("csv"@[0] != "ogg"@[0]);
    assert("csv"@[0] != "aac"@[0]);
    assert("csv"@[0] != "m4v"@[0]);
    assert("csv"@[0] != "wma"@[0]);
    assert("csv"@[0] != "jpg"@[0]);
    assert("csv"@.len() != "jpeg"@.len());
    assert("csv"@[0] != "png"@[0]);
    assert("csv"@[0] != "gif"@[0]);
    assert("csv"@.len() != "webp"@.len());
    assert("csv"@[0] != "bmp"@[0]);
    assert("csv"@[0] != "tif"@[0]);
    assert("csv"@.len() != "tiff"@.len());
    assert("csv"@.len() != "avif"@.len());
    assert("csv"@.len() != "heic"@.len());
    assert("csv"@.len() != "json"@.len());
    assert("csv"@.len() != "jsonl"@.len());
    assert("csv"@.len() != "ndjson"@.len());
    assert("csv"@[0] != "pdf"@[0]);
    assert("csv"@[0] != "zip"@[0]);
    assert("csv"@.len() != "epub"@.len());
    assert("csv"@[1] != "cbz"@[1]);
    assert("csv"@.len() != "docx"@.len());
    assert("csv"@.len() != "xlsx"@.len());
    assert("csv"@.len() != "pptx"@.len());
    assert("srt"@[0] != "mp4"@[0]);
    assert("srt"@[0] != "m4a"@[0]);
    assert("srt"@[0] != "mp3"@[0]);
    assert("srt"@.len() != "webm"@.len());
    assert("srt"@[0] != "mkv"@[0]);
    assert("srt"@[0] != "mov"@[0]);
    assert("srt"@[0] != "avi"@[0]);
    assert("srt"@[0] != "flv"@[0]);
    assert("srt"@.len() != "ts"@.len());
    assert("srt"@[0] != "wav"@[0]);
    assert("srt"@.len() != "flac"@.len());
    assert("srt"@.len() != "opus"@.len());
    assert("srt"@[0] != "ogg"@[0]);
    assert("srt"@[0] != "aac"@[0]);
    assert("srt"@[0] != "m4v"@[0]);
    assert("srt"@[0] != "wma"@[0]);
    assert("srt"@[0] != "jpg"@[0]);
    assert("srt"@.len() != "jpeg"@.len());
    assert("srt"@[0] != "png"@[0]);
    assert("srt"@[0] != "gif"@[0]);
    assert("srt"@.len() != "webp"@.len());
    assert("srt"@[0] != "bmp"@[0]);
    assert("srt"@[0] != "tif"@[0]);
    assert("srt"@.len() != "tiff"@.len());
    assert("srt"@.len() != "avif"@.len());
    assert("srt"@.len() != "heic"@.len());
    assert("srt"@.len() != "json"@.len());
    assert("srt"@.len() != "jsonl"@.len());
    assert("srt"@.len() != "ndjson"@.len());
    assert("srt"@[0] != "pdf"@[0]);
    assert("srt"@[0] != "zip"@[0]);
    assert("srt"@.len() != "epub"@.len());
    assert("srt"@[0] != "cbz"@[0]);
    assert("srt"@.len() != "docx"@.len());
    assert("srt"@.len() != "xlsx"@.len());
    assert("srt"@.len() != "pptx"@.len());
    assert("vtt"@[0] != "mp4"@[0]);
    assert("vtt"@[0] != "m4a"@[0]);
    assert("vtt"@[0] != "mp3"@[0]);
    assert("vtt"@.len() != "webm"@.len());
    assert("vtt"@[0] != "mkv"@[0]);
    assert("vtt"@[0] != "mov"@[0]);
    assert("vtt"@[0] != "avi"@[0]);
    assert("vtt"@[0] != "flv"@[0]);
    assert("vtt"@.len() != "ts"@.len());
    assert("vtt"@[0] != "wav"@[0]);
    assert("vtt"@.len() != "flac"@.len());
    assert("vtt"@.len() != "opus"@.len());
    assert("vtt"@[0] != "ogg"@[0]);
    assert("vtt"@[0] != "aac"@[0]);
    assert("vtt"@[0] != "m4v"@[0]);
    assert("vtt"@[0] != "wma"@[0]);
    assert("vtt"@[0] != "jpg"@[0]);
    assert("vtt"@.len() != "jpeg"@.len());
    assert("vtt"@[0] != "png"@[0]);
    assert("vtt"@[0] != "gif"@[0]);
    assert("vtt"@.len() != "webp"@.len());
    assert("vtt"@[0] != "bmp"@[0]);
    assert("vtt"@[0] != "tif"@[0]);
    assert("vtt"@.len() != "tiff"@.len());
    assert("vtt"@.len() != "avif"@.len());
    assert("vtt"@.len() != "heic"@.len());
    assert("vtt"@.len() != "json"@.len());
    assert("vtt"@.len() != "jsonl"@.len());
    assert("vtt"@.len() != "ndjson"@.len());
    assert("vtt"@[0] != "pdf"@[0]);
    assert("vtt"@[0] != "zip"@[0]);
    assert("vtt"@.len() != "epub"@.len());
    assert("vtt"@[0] != "cbz"@[0]);
    assert("vtt"@.len() != "docx"@.len());
    assert("vtt"@.len() != "xlsx"@.len());
    assert("vtt"@.len() != "pptx"@.len());
    assert("ass"@[0] != "mp4"@[0]);
    assert("ass"@[0] != "m4a"@[0]);
    assert("ass"@[0] != "mp3"@[0]);
    assert("ass"@.len() != "webm"@.len());
    assert("ass"@[0] != "mkv"@[0]);
    assert("ass"@[0] != "mov"@[0]);
    assert("ass"@[1] != "avi"@[1]);
    assert("ass"@[0] != "flv"@[0]);
    assert("ass"@.len() != "ts"@.len());
    assert("ass"@[0] != "wav"@[0]);
    assert("ass"@.len() != "flac"@.len());
    assert("ass"@.len() != "opus"@.len());
    assert("ass"@[0] != "ogg"@[0]);
    assert("ass"@[1] != "aac"@[1]);
    assert("ass"@[0] != "m4v"@[0]);
    assert("ass"@[0] != "wma"@[0]);
    assert("ass"@[0] != "jpg"@[0]);
    assert("ass"@.len() != "jpeg"@.len());
    assert("ass"@[0] != "png"@[0]);
    assert("ass"@[0] != "gif"@[0]);
    assert("ass"@.len() != "webp"@.len());
    assert("ass"@[0] != "bmp"@[0]);
    assert("ass"@[0] != "tif"@[0]);
    assert("ass"@.len() != "tiff"@.len());
    assert("ass"@.len() != "avif"@.len());
    assert("ass"@.len() != "heic"@.len());
    assert("ass"@.len() != "json"@.len());
    assert("ass"@.len() != "jsonl"@.len());
    assert("ass"@.len() != "ndjson"@.len());
    assert("ass"@[0] != "pdf"@[0]);
    assert("ass"@[0] != "zip"@[0]);
    assert("ass"@.len() != "epub"@.len());
    assert("ass"@[0] != "cbz"@[0]);
    assert("ass"@.len() != "docx"@.len());
    assert("ass"@.len() != "xlsx"@.len());
    assert("ass"@.len() != "pptx"@.len());
    assert("lrc"@[0] != "mp4"@[0]);
    assert("lrc"@[0] != "m4a"@[0]);
    assert("lrc"@[0] != "mp3"@[0]);
    assert("lrc"@.len() != "webm"@.len());
    assert("lrc"@[0] != "mkv"@[0]);
    assert("lrc"@[0] != "mov"@[0]);
    assert("lrc"@[0] != "avi"@[0]);
    assert("lrc"@[0] != "flv"@[0]);
    assert("lrc"@.len() != "ts"@.len());
    assert("lrc"@[0] != "wav"@[0]);
    assert("lrc"@.len() != "flac"@.len());
    assert("lrc"@.len() != "opus"@.len());
    assert("lrc"@[0] != "ogg"@[0]);
    assert("lrc"@[0] != "aac"@[0]);
    assert("lrc"@[0] != "m4v"@[0]);
    assert("lrc"@[0] != "wma"@[0]);
    assert("lrc"@[0] != "jpg"@[0]);
    assert("lrc"@.len() != "jpeg"@.len());
    assert("lrc"@[0] != "png"@[0]);
    assert("lrc"@[0] != "gif"@[0]);
    assert("lrc"@.len() != "webp"@.len());
    assert("lrc"@[0] != "bmp"@[0]);
    assert("lrc"@[0] != "tif"@[0]);
    assert("lrc"@.len() != "tiff"@.len());
    assert("lrc"@.len() != "avif"@.len());
    assert("lrc"@.len() != "heic"@.len());
    assert("lrc"@.len() != "json"@.len());
    assert("lrc"@.len() != "jsonl"@.len());
    assert("lrc"@.len() != "ndjson"@.len());
    assert("lrc"@[0] != "pdf"@[0]);
    assert("lrc"@[0] != "zip"@[0]);
    assert("lrc"@.len() != "epub"@.len());
    assert("lrc"@[0] != "cbz"@[0]);
    assert("lrc"@.len() != "docx"@.len());
    assert("lrc"@.len() != "xlsx"@.len());
    assert("lrc"@.len() != "pptx"@.len());
    assert("html"@.len() != "mp4"@.len());
    assert("html"@.len() != "m4a"@.len());
    assert("html"@.len() != "mp3"@.len());
    assert("html"@[0] != "webm"@[0]);
    assert("html"@.len() != "mkv"@.len());
    assert("html"@.len() != "mov"@.len());
    assert("html"@.len() != "avi"@.len());
    assert("html"@.len() != "flv"@.len());
    assert("html"@.len() != "ts"@.len());
    assert("html"@.len() != "wav"@.len());
    assert("html"@[0] != "flac"@[0]);
    assert("html"@[0] != "opus"@[0]);
    assert("html"@.len() != "ogg"@.len());
    assert("html"@.len() != "aac"@.len());
    assert("html"@.len() != "m4v"@.len());
    assert("html"@.len() != "wma"@.len());
    assert("html"@.len() != "jpg"@.len());
    assert("html"@[0] != "jpeg"@[0]);
    assert("html"@.len() != "png"@.len());
    assert("html"@.len() != "gif"@.len());
    assert("html"@[0] != "webp"@[0]);
    assert("html"@.len() != "bmp"@.len());
    assert("html"@.len() != "tif"@.len());
    assert("html"@[0] != "tiff"@[0]);
    assert("html"@[0] != "avif"@[0]);
    assert("html"@[1] != "heic"@[1]);
    assert("html"@[0] != "json"@[0]);
    assert("html"@.len() != "jsonl"@.len());
    assert("html"@.len() != "ndjson"@.len());
    assert("html"@.len() != "pdf"@.len());
    assert("html"@.len() != "zip"@.len());
    assert("html"@[0] != "epub"@[0]);
    assert("html"@.len() != "cbz"@.len());
    assert("html"@[0] != "docx"@[0]);
    assert("html"@[0] != "xlsx"@[0]);
    assert("html"@[0] != "pptx"@[0]);
    assert("htm"@[0] != "mp4"@[0]);
    assert("htm"@[0] != "m4a"@[0]);
    assert("htm"@[0] != "mp3"@[0]);
    assert("htm"@.len() != "webm"@.len());
    assert("htm"@[0] != "mkv"@[0]);
    assert("htm"@[0] != "mov"@[0]);
    assert("htm"@[0] != "avi"@[0]);
    assert("htm"@[0] != "flv"@[0]);
    assert("htm"@.len() != "ts"@.len());
    assert("htm"@[0] != "wav"@[0]);
    assert("htm"@.len() != "flac"@.len());
    assert("htm"@.len() != "opus"@.len());
    assert("htm"@[0] != "ogg"@[0]);
    assert("htm"@[0] != "aac"@[0]);
    assert("htm"@[0] != "m4v"@[0]);
    assert("htm"@[0] != "wma"@[0]);
    assert("htm"@[0] != "jpg"@[0]);
    assert("htm"@.len() != "jpeg"@.len());
    assert("htm"@[0] != "png"@[0]);
    assert("htm"@[0] != "gif"@[0]);
    assert("htm"@.len() != "webp"@.len());
    assert("htm"@[0] != "bmp"@[0]);
    assert("htm"@[0] != "tif"@[0]);
    assert("htm"@.len() != "tiff"@.len());
    assert("htm"@.len() != "avif"@.len());
    assert("htm"@.len() != "heic"@.len());
    assert("htm"@.len() != "json"@.len());
    assert("htm"@.len() != "jsonl"@.len());
    assert("htm"@.len() != "ndjson"@.len());
    assert("htm"@[0] != "pdf"@[0]);
    assert("htm"@[0] != "zip"@[0]);
    assert("htm"@.len() != "epub"@.len());
    assert("htm"@[0] != "cbz"@[0]);
    assert("htm"@.len() != "docx"@.len());
    assert("htm"@.len() != "xlsx"@.len());
    assert("htm"@.len() != "pptx"@.len());
    assert("xml"@[0] != "mp4"@[0]);
    assert("xml"@[0] != "m4a"@[0]);
    assert("xml"@[0] != "mp3"@[0]);
    assert("xml"@.len() != "webm"@.len());
    assert("xml"@[0] != "mkv"@[0]);
    assert("xml"@[0] != "mov"@[0]);
    assert("xml"@[0] != "avi"@[0]);
    assert("xml"@[0] != "flv"@[0]);
    assert("xml"@.len() != "ts"@.len());
    assert("xml"@[0] != "wav"@[0]);
    assert("xml"@.len() != "flac"@.len());
    assert("xml"@.len() != "opus"@.len());
    assert("xml"@[0] != "ogg"@[0]);
    assert("xml"@[0] != "aac"@[0]);
    assert("xml"@[0] != "m4v"@[0]);
    assert("xml"@[0] != "wma"@[0]);
    assert("xml"@[0] != "jpg"@[0]);
    assert("xml"@.len() != "jpeg"@.len());
    assert("xml"@[0] != "png"@[0]);
    assert("xml"@[0] != "gif"@[0]);
    assert("xml"@.len() != "webp"@.len());
    assert("xml"@[0] != "bmp"@[0]);
    assert("xml"@[0] != "tif"@[0]);
    assert("xml"@.len() != "tiff"@.len());
    assert("xml"@.len() != "avif"@.len());
    assert("xml"@.len() != "heic"@.len());
    assert("xml"@.len() != "json"@.len());
    assert("xml"@.len() != "jsonl"@.len());
    assert("xml"@.len() != "ndjson"@.len());
    assert("xml"@[0] != "pdf"@[0]);
    assert("xml"@[0] != "zip"@[0]);
    assert("xml"@.len() != "epub"@.len());
    assert("xml"@[0] != "cbz"@[0]);
    assert("xml"@.len() != "docx"@.len());
    assert("xml"@.len() != "xlsx"@.len());
    assert("xml"@.len() != "pptx"@.len());
}

/// What can be told of a file goes by the kind of its content type.
#[verifier::rlimit(40)]
pub proof fn law_types_tell_the_level(ct: Seq<char>)
    ensures
        starts_with(bare_mime(ct), "audio/"@) ==> type_level(ct) == Some(Level::Media),
        starts_with(bare_mime(ct), "video/"@) ==> type_level(ct) == Some(Level::Media),
        starts_with(bare_mime(ct), "image/"@) ==> type_level(ct) == Some(Level::Image),
        bare_mime(ct) == "application/json"@ ==> type_level(ct) == Some(Level::Json),
        bare_mime(ct) == "application/x-ndjson"@ ==> type_level(ct) == Some(Level::Json),
        bare_mime(ct) == "application/pdf"@ ==> type_level(ct) == Some(Level::Archive),
        bare_mime(ct) == "application/zip"@ ==> type_level(ct) == Some(Level::Archive),
        bare_mime(ct) == "application/epub+zip"@ ==> type_level(ct) == Some(Level::Archive),
        starts_with(bare_mime(ct), "text/"@) ==> type_level(ct) == Some(Level::Text),
        bare_mime(ct) == "application/octet-stream"@ || bare_mime(ct).len() == 0 ==> type_level(ct)
            is None,
{
    let t = bare_mime(ct);
    reveal_strlit("audio/");
    reveal_strlit("video/");
    reveal_strlit("image/");
    reveal_strlit("text/");
    reveal_strlit("application/json");
    reveal_strlit("application/x-ndjson");
    reveal_strlit("application/pdf");
    reveal_strlit("application/zip");
    reveal_strlit("application/epub+zip");
    reveal_strlit("application/octet-stream");
    if t == "application/epub+zip"@ {
        assert(t[1] == 'p' && t.len() == 20 && t[12] == 'e');
    }
    if t.len() >= 6 {
        assert(t.take(6)[0] == t[0] && t.take(6)[1] == t[1]);
    }
    if t.len() >= 5 {
        assert(t.take(5)[0] == t[0]);
    }
}

/// Each level has a name of its own.
pub proof fn law_levels_have_names(a: Level, b: Level)
    ensures
        level_name(a) == level_name(b) ==> a == b,
        level_name(Level::Media) == "media"@,
        level_name(Level::Image) == "image"@,
        level_name(Level::Json) == "json"@,
        level_name(Level::Archive) == "archive"@,
        level_name(Level::Text) == "text"@,
        level_name(Level::Integrity) == "integrity"@,
{
    reveal_strlit("media");
    reveal_strlit("image");
    reveal_strlit("json");
    reveal_strlit("archive");
    reveal_strlit("text");
    reveal_strlit("integrity");
    assert("media"@[0] == 'm' && "image"@[0] == 'i' && "json"@[0] == 'j' && "archive"@[0] == 'a'
        && "text"@[0] == 't' && "integrity"@[0] == 'i' && "integrity"@[1] == 'n' && "image"@[1]
        == 'm');
}

/// The line that is reported is the first that is no JSON, in the parser's words.
pub proof fn law_first_bad_line_is_told(l: Seq<Seq<char>>, i: int)
    requires
        0 <= i < l.len(),
        json_read(l[i]) is Err,
        forall|j: int| 0 <= j < i ==> json_read(#[trigger] l[j]) is Ok,
    ensures
        bad_line(l) == Some(json_read(l[i])->Err_0),
    decreases l.len(),
{
    if i > 0 {
        assert(json_read(l[0]) is Ok);
        let t = l.skip(1);
        assert(t[i - 1] == l[i]);
        assert forall|j: int| 0 <= j < i - 1 implies json_read(#[trigger] t[j]) is Ok by {
            assert(t[j] == l[j + 1]);
        }
        law_first_bad_line_is_told(t, i - 1);
    }
}

proof fn lemma_good_lines(l: Seq<Seq<char>>)
    requires
        forall|j: int| 0 <= j < l.len() ==> json_read(#[trigger] l[j]) is Ok,
    ensures
        bad_line(l) is None,
    decreases l.len(),
{
    if l.len() > 0 {
        assert(json_read(l[0]) is Ok);
        let t = l.skip(1);
        assert forall|j: int| 0 <= j < t.len() implies json_read(#[trigger] t[j]) is Ok by {
            assert(t[j] == l[j + 1]);
        }
        lemma_good_lines(t);
    }
}

/// JSON passes as a whole, and it passes line by line; a blank file does not.
pub proof fn law_good_json_passes(text: Seq<char>)
    ensures
        trimmed(text).len() == 0 ==> json_verdict(text) is Err,
        trimmed(text).len() > 0 && json_read(text) is Ok ==> json_verdict(text) is Ok,
        trimmed(text).len() > 0 && not_blank(lines(text)).len() > 0 && (forall|j: int|
            0 <= j < not_blank(lines(text)).len() ==> json_read(#[trigger] not_blank(lines(text))[j])
                is Ok) ==> json_verdict(text) is Ok,
{
    let l = not_blank(lines(text));
    if forall|j: int| 0 <= j < l.len() ==> json_read(#[trigger] l[j]) is Ok {
        lemma_good_lines(l);
    }
}

/// The failure that is reported is the first one.
pub proof fn law_first_failure_is_told(l: Seq<Result<(), String>>, i: int)
    requires
        0 <= i < l.len(),
        l[i] is Err,
        forall|j: int| 0 <= j < i ==> (#[trigger] l[j]) is Ok,
    ensures
        first_failure(l) == Some((l[i]->Err_0)@),
    decreases l.len(),
{
    if i > 0 {
        assert(l[0] is Ok);
        let t = l.skip(1);
        assert(t[i - 1] == l[i]);
        assert forall|j: int| 0 <= j < i - 1 implies (#[trigger] t[j]) is Ok by {
            assert(t[j] == l[j + 1]);
        }
        law_first_failure_is_told(t, i - 1);
    }
}

/// A PDF passes with `%PDF-` in front and `%%EOF` among its last 2048 bytes, a ZIP
/// archive with its directory's end there. What has fewer than 32 bytes or begins
/// otherwise does not pass.
#[verifier::rlimit(40)]
pub proof fn law_whole_archives_pass(b: Seq<u8>, i: int)
    requires
        0 <= i,
        b.len() - 2048 <= i,
        i + 5 <= b.len(),
    ensures
        b.len() >= 32 && b[0] == 0x25 && b[1] == 0x50 && b[2] == 0x44 && b[3] == 0x46 && b[4] == 0x2d
            && b[i] == 0x25 && b[i + 1] == 0x25 && b[i + 2] == 0x45 && b[i + 3] == 0x4f && b[i + 4]
            == 0x46 ==> archive_verdict(b) is Ok,
        b.len() >= 32 && b[0] == 0x50 && b[1] == 0x4b && b[2] == 3 && b[3] == 4 && b[i] == 0x50 && b[i
            + 1] == 0x4b && b[i + 2] == 5 && b[i + 3] == 6 ==> archive_verdict(b) is Ok,
        b.len() < 32 ==> archive_verdict(b) is Err,
        b[0] != 0x25 && b[0] != 0x50 ==> archive_verdict(b) is Err,
{
    let e = end_of(b);
    let k: int = if b.len() > 2048 {
        i - (b.len() - 2048)
    } else {
        i
    };
    assert(e[k + 0] == b[i + 0] && e[k + 1] == b[i + 1] && e[k + 2] == b[i + 2] && e[k + 3] == b[i + 3]
        && e[k + 4] == b[i + 4]);
    if b[0] == 0x25 && b[1] == 0x50 && b[2] == 0x44 && b[3] == 0x46 && b[4] == 0x2d && b[i] == 0x25
        && b[i + 1] == 0x25 && b[i + 2] == 0x45 && b[i + 3] == 0x4f && b[i + 4] == 0x46 {
        assert(b.subrange(0, 5) =~= pdf_start());
        assert(e.subrange(k, k + 5) =~= pdf_end());
        assert(holds_at(e, pdf_end(), k));
    }
    if b[0] == 0x50 && b[1] == 0x4b && b[2] == 3 && b[3] == 4 && b[i] == 0x50 && b[i + 1] == 0x4b && b[
    i + 2] == 5 && b[i + 3] == 6 {
        assert(b.subrange(0, 4) =~= zip_start());
        assert(e.subrange(k, k + 4) =~= zip_end());
        assert(holds_at(e, zip_end(), k));
        if holds_at(b, pdf_start(), 0) {
            assert(b.subrange(0, 5)[0] == b[0]);
        }
    }
    if b[0] != 0x25 && b[0] != 0x50 {
        if holds_at(b, pdf_start(), 0) {
            assert(b.subrange(0, 5)[0] == b[0]);
        }
        if holds_at(b, zip_start(), 0) || holds_at(b, zip_end(), 0) {
            assert(b.subrange(0, 4)[0] == b[0]);
        }
    }
}

/// A text passes exactly where it is UTF-8 and holds more than white space.
pub proof fn law_texts_pass(b: Seq<u8>)
    ensures
        text_verdict(b) is Ok <==> b.len() > 0 && valid_utf8(b) && trimmed(decode_utf8(b)).len() > 0,
{
}

/// The decoder's input passes exactly where the decoder succeeded without a
/// complaint. Where it failed, the words for that come first, then the complaint.
pub proof fn law_decoder_is_believed(succeeded: bool, stderr: Seq<char>, broken: Seq<char>, wrong: Seq<char>)
    ensures
        decoder_verdict(succeeded, stderr, broken, wrong) is Ok <==> succeeded && complaints(
            lines(stderr),
        ).len() == 0,
        !succeeded && complaints(lines(stderr)).len() > 0 ==> decoder_verdict(
            succeeded,
            stderr,
            broken,
            wrong,
        ) == Err::<(), Seq<char>>(broken + complaints(lines(stderr))[0]),
        succeeded && complaints(lines(stderr)).len() > 0 ==> decoder_verdict(
            succeeded,
            stderr,
            broken,
            wrong,
        ) == Err::<(), Seq<char>>(wrong + complaints(lines(stderr))[0]),
{
}

/// Every line that is not empty is a complaint, but for those of the muxer.
pub proof fn law_complaints_are_told(line: Seq<char>)
    ensures
        starts_with(line, "[null @"@) ==> !complaint(line),
        line.len() > 0 && !starts_with(line, "[null @"@) ==> complaint(line),
        line.len() == 0 ==> !complaint(line),
{
}

/// The volume that is read is the run of digits behind the first `mean_volume:`.
#[verifier::rlimit(40)]
pub proof fn law_volume_is_read(a: Seq<char>, v: Seq<char>, b: Seq<char>)
    requires
        !contains(a, "mean_volume"@),
        v.len() > 0,
        forall|i: int| 0 <= i < v.len() ==> '0' <= #[trigger] v[i] <= '9' || v[i] == '-' || v[i] == '.',
    ensures
        volume_text(a + "\nmean_volume: "@ + v + " dB"@ + b) == Some(v),
{
    reveal_strlit("\nmean_volume: ");
    reveal_strlit("mean_volume:");
    reveal_strlit("mean_volume");
    reveal_strlit(" dB");
    let p = "mean_volume:"@;
    let s = a + "\nmean_volume: "@ + v + " dB"@ + b;
    let at = a.len() as int + 1;
    assert(s.skip(at).take(12) =~= p);
    assert forall|j: int| 0 <= j < at implies !starts_with(#[trigger] s.skip(j), p) by {
        if starts_with(s.skip(j), p) {
            let w = s.skip(j).take(12);
            assert(forall|m: int| 0 <= m < 12 ==> #[trigger] w[m] == s[j + m]);
            if j + 11 <= a.len() {
                assert(p.take(11) =~= "mean_volume"@);
                assert(a.subrange(j, j + 11) =~= w.take(11));
                crate::text::lemma_contains_at(a, "mean_volume"@, j);
            } else {
                assert(s[a.len() as int] == '\n');
                assert(w[a.len() - j] == '\n');
            }
        }
    }
    crate::text::lemma_index_of_is(s, p, at);
    let r = s.skip(at + 12);
    assert(r =~= seq![' '] + v + " dB"@ + b);
    assert(r[1] == v[0]);
    crate::text::lemma_first_is(r, Class::Space, false, 1);
    let t = v + (" dB"@ + b);
    assert(r.skip(1) =~= t);
    lemma_run(v, " dB"@ + b);
}

proof fn lemma_run(v: Seq<char>, b: Seq<char>)
    requires
        forall|i: int| 0 <= i < v.len() ==> volume_char(#[trigger] v[i]),
        b.len() > 0,
        !volume_char(b[0]),
    ensures
        volume_run(v + b) == v,
    decreases v.len(),
{
    let s = v + b;
    if v.len() > 0 {
        let t = v.skip(1);
        assert forall|i: int| 0 <= i < t.len() implies volume_char(#[trigger] t[i]) by {
            assert(t[i] == v[i + 1]);
        }
        lemma_run(t, b);
        assert(s.skip(1) =~= t + b);
        assert(s[0] == v[0] && volume_char(v[0]));
        assert(volume_run(s) =~= v);
    } else {
        assert(s =~= b);
        assert(volume_run(s) =~= v);
    }
}

/// Sound that was decoded and is not silence passes. A file that can be copied but
/// has no sound to copy has none. Everything else fails.
pub proof fn law_sound_is_judged(a: AudioRun)
    ensures
        a.succeeded && a.silence is None ==> audio_verdict(a) == Ok::<Audio, Seq<char>>(Audio::Decoded),
        a.succeeded && a.silence is Some ==> audio_verdict(a) == Err::<Audio, Seq<char>>(
            "整首無聲（mean_volume "@ + (a.silence->0)@ + " dB）"@,
        ),
        !a.succeeded && !a.sound_copies && a.file_copies ==> audio_verdict(a) == Ok::<Audio, Seq<char>>(
            Audio::Absent,
        ),
        !a.succeeded && (a.sound_copies || !a.file_copies) ==> audio_verdict(a) is Err,
{
}

/// The track that is taken is the first that can be decoded and has a sample rate.
pub proof fn law_first_sound_is_taken(tracks: Seq<Track>)
    ensures
        first_sound(tracks) matches Some(k) ==> 0 <= k < tracks.len() && tracks[k].decodable
            && tracks[k].sample_rate is Some && forall|i: int|
            0 <= i < k ==> !((#[trigger] tracks[i]).decodable && tracks[i].sample_rate is Some),
        first_sound(tracks) is None ==> forall|i: int|
            0 <= i < tracks.len() ==> !((#[trigger] tracks[i]).decodable && tracks[i].sample_rate
                is Some),
    decreases tracks.len(),
{
    if tracks.len() > 0 && !is_sound(tracks[0]) {
        let t = tracks.skip(1);
        law_first_sound_is_taken(t);
        match first_sound(t) {
            Some(k) => {
                assert forall|i: int| 0 <= i < k + 1 implies !((#[trigger] tracks[i]).decodable
                    && tracks[i].sample_rate is Some) by {
                    if i > 0 {
                        assert(t[i - 1] == tracks[i]);
                    }
                }
            },
            None => {
                assert forall|i: int| 0 <= i < tracks.len() implies !((#[trigger] tracks[i]).decodable
                    && tracks[i].sample_rate is Some) by {
                    if i > 0 {
                        assert(t[i - 1] == tracks[i]);
                    }
                }
            },
        }
    }
}

/// What a packet gave is added up, for one channel and for all. Up to eight packets
/// may be bad; the ninth ends the decoding, and so does a decoder that gives up.
pub proof fn law_packets_are_counted(g: GateView, samples: u64, channels: u64, msg: String)
    ensures
        g.samples + samples <= u64::MAX && g.frames + samples <= u64::MAX && channels > 0 ==> g.took(
            Packet::Decoded { samples, channels },
        ).1.samples == g.samples + samples && g.took(Packet::Decoded { samples, channels }).1.frames
            == g.frames + samples / channels,
        g.took(Packet::Decoded { samples, channels }).0 is None,
        g.took(Packet::Decoded { samples, channels }).1.decode_errors == g.decode_errors,
        g.decode_errors < 8 ==> g.took(Packet::Bad(msg)) == (
            None::<Seq<char>>,
            (GateView { decode_errors: (g.decode_errors + 1) as u32, ..g }),
        ),
        g.decode_errors >= 8 ==> g.took(Packet::Bad(msg)).0 is Some,
        g.took(Packet::Broken(msg)) == (Some("解碼失敗："@ + msg@), g),
{
    if channels > 0 {
        assert(samples / channels <= samples) by (nonlinear_arith)
            requires
                channels > 0,
        ;
    }
}

/// The words for what does not pass.
#[verifier::rlimit(40)]
pub proof fn law_failures_are_told(text: Seq<char>, b: Seq<u8>, a: AudioRun, g: GateView, msg: String)
    ensures
        trimmed(text).len() == 0 ==> json_verdict(text) == Err::<(), Seq<char>>("檔案是空的"@),
        trimmed(text).len() > 0 && json_read(text) is Err && bad_line(not_blank(lines(text))) is Some
            ==> json_verdict(text) == Err::<(), Seq<char>>(
            "不是合法的 JSON 或 NDJSON："@ + bad_line(not_blank(lines(text)))->0,
        ),
        trimmed(text).len() > 0 && json_read(text) is Err && not_blank(lines(text)).len() == 0
            ==> json_verdict(text) == Err::<(), Seq<char>>("沒有任何一行是 JSON"@),
        b.len() < 32 ==> archive_verdict(b) == Err::<(), Seq<char>>(
            "檔案只有 "@ + decimal(b.len()) + " bytes，不像完整的檔案"@,
        ),
        b.len() >= 32 && holds_at(b, pdf_start(), 0) && !holds(end_of(b), pdf_end())
            ==> archive_verdict(b) == Err::<(), Seq<char>>(
            "PDF 結尾缺少 %%EOF，檔案應該是截斷的"@,
        ),
        b.len() >= 32 && !holds_at(b, pdf_start(), 0) && (holds_at(b, zip_start(), 0) || holds_at(
            b,
            zip_end(),
            0,
        )) && !holds(end_of(b), zip_end()) ==> archive_verdict(b) == Err::<(), Seq<char>>(
            "ZIP 缺少中央目錄結尾記錄，檔案應該是截斷的"@,
        ),
        b.len() >= 32 && !holds_at(b, pdf_start(), 0) && !holds_at(b, zip_start(), 0) && !holds_at(
            b,
            zip_end(),
            0,
        ) ==> archive_verdict(b) == Err::<(), Seq<char>>("開頭的位元組不像 PDF 或 ZIP"@),
        b.len() == 0 ==> text_verdict(b) == Err::<(), Seq<char>>("檔案是空的"@),
        b.len() > 0 && !valid_utf8(b) ==> text_verdict(b) == Err::<(), Seq<char>>(
            "不是合法的 UTF-8："@ + utf8_error(b),
        ),
        b.len() > 0 && valid_utf8(b) && trimmed(decode_utf8(b)).len() == 0 ==> text_verdict(b) == Err::<
            (),
            Seq<char>,
        >("檔案只有空白字元"@),
        complaints(lines(text)).len() == 0 ==> complaint_or(text) == "ffmpeg 未說明原因"@,
        complaints(lines(text)).len() > 0 ==> complaint_or(text) == complaints(lines(text))[0],
        !a.succeeded && a.sound_copies && last_words(lines(a.stderr@)) is Some ==> audio_verdict(a)
            == Err::<Audio, Seq<char>>(
            "ffmpeg 解不開這個音訊："@ + last_words(lines(a.stderr@))->0,
        ),
        g.decode_errors >= 8 ==> g.took(Packet::Bad(msg)).0 == Some(
            "解碼錯誤過多（最後一筆："@ + msg@ + "）"@,
        ),
{
    if not_blank(lines(text)).len() == 0 {
        assert(bad_line(not_blank(lines(text))) is None);
    }
}

/// How an archive begins and ends: `%PDF-` and `%%EOF`, `PK` with three and four, and
/// `PK` with five and six.
pub proof fn law_marks_of_archives()
    ensures
        pdf_start() == seq![0x25u8, 0x50, 0x44, 0x46, 0x2d],
        pdf_end() == seq![0x25u8, 0x25, 0x45, 0x4f, 0x46],
        zip_start() == seq![0x50u8, 0x4b, 3, 4],
        zip_end() == seq![0x50u8, 0x4b, 5, 6],
{
}

/// What came of a check is that it passed, or the words why not.
pub proof fn law_said_of_a_verdict(e: String)
    ensures
        verdict(Ok(())) == Ok::<(), Seq<char>>(()),
        verdict(Err(e)) == Err::<(), Seq<char>>(e@),
{
}

/// Nothing else than these extensions is of a level.
pub proof fn law_no_other_extensions(ext: Seq<char>)
    ensures
        ext_level(ext) == Level::Media ==> {
            ||| lower(ext) == "mp4"@
            ||| lower(ext) == "m4a"@
            ||| lower(ext) == "mp3"@
            ||| lower(ext) == "webm"@
            ||| lower(ext) == "mkv"@
            ||| lower(ext) == "mov"@
            ||| lower(ext) == "avi"@
            ||| lower(ext) == "flv"@
            ||| lower(ext) == "ts"@
            ||| lower(ext) == "wav"@
            ||| lower(ext) == "flac"@
            ||| lower(ext) == "opus"@
            ||| lower(ext) == "ogg"@
            ||| lower(ext) == "aac"@
            ||| lower(ext) == "m4v"@
            ||| lower(ext) == "wma"@
        },
        ext_level(ext) == Level::Image ==> {
            ||| lower(ext) == "jpg"@
            ||| lower(ext) == "jpeg"@
            ||| lower(ext) == "png"@
            ||| lower(ext) == "gif"@
            ||| lower(ext) == "webp"@
            ||| lower(ext) == "bmp"@
            ||| lower(ext) == "tif"@
            ||| lower(ext) == "tiff"@
            ||| lower(ext) == "avif"@
            ||| lower(ext) == "heic"@
        },
        ext_level(ext) == Level::Json ==> {
            ||| lower(ext) == "json"@
            ||| lower(ext) == "jsonl"@
            ||| lower(ext) == "ndjson"@
        },
        ext_level(ext) == Level::Archive ==> {
            ||| lower(ext) == "pdf"@
            ||| lower(ext) == "zip"@
            ||| lower(ext) == "epub"@
            ||| lower(ext) == "cbz"@
            ||| lower(ext) == "docx"@
            ||| lower(ext) == "xlsx"@
            ||| lower(ext) == "pptx"@
        },
        ext_level(ext) == Level::Text ==> {
            ||| lower(ext) == "txt"@
            ||| lower(ext) == "md"@
            ||| lower(ext) == "csv"@
            ||| lower(ext) == "srt"@
            ||| lower(ext) == "vtt"@
            ||| lower(ext) == "ass"@
            ||| lower(ext) == "lrc"@
            ||| lower(ext) == "html"@
            ||| lower(ext) == "htm"@
            ||| lower(ext) == "xml"@
        },
{
}

/// Nothing else than these types is of a level.
pub proof fn law_no_other_types(ct: Seq<char>)
    ensures
        type_level(ct) == Some(Level::Media) ==> starts_with(bare_mime(ct), "audio/"@) || starts_with(
            bare_mime(ct),
            "video/"@,
        ),
        type_level(ct) == Some(Level::Image) ==> starts_with(bare_mime(ct), "image/"@),
        type_level(ct) == Some(Level::Json) ==> bare_mime(ct) == "application/json"@ || bare_mime(ct)
            == "application/x-ndjson"@,
        type_level(ct) == Some(Level::Archive) ==> bare_mime(ct) == "application/pdf"@ || bare_mime(ct)
            == "application/zip"@ || bare_mime(ct) == "application/epub+zip"@,
        type_level(ct) == Some(Level::Text) ==> starts_with(bare_mime(ct), "text/"@),
        type_level(ct) != Some(Level::Integrity),
{
}

/// The volume is read at the very end of what was printed too.
pub proof fn law_volume_at_the_end(v: Seq<char>)
    requires
        forall|i: int| 0 <= i < v.len() ==> volume_char(#[trigger] v[i]),
    ensures
        volume_run(v) == v,
    decreases v.len(),
{
    if v.len() > 0 {
        let t = v.skip(1);
        assert forall|i: int| 0 <= i < t.len() implies volume_char(#[trigger] t[i]) by {
            assert(t[i] == v[i + 1]);
        }
        law_volume_at_the_end(t);
        assert(volume_char(v[0]));
        assert(volume_run(v) =~= v);
    } else {
        assert(volume_run(v) =~= v);
    }
}

/// A picture is decoded whole from the given file, and thrown away.
pub proof fn law_pictures_are_decoded(file: Seq<char>, at: Seq<char>, map: Seq<char>)
    ensures
        followed(image_line(file), "-i"@, file),
        followed(image_line(file), "-frames:v"@, "1"@),
        followed(image_line(file), "-v"@, "error"@),
        followed(image_line(file), "-f"@, "null"@),
        followed(frame_line(file, at), "-ss"@, at),
        followed(frame_line(file, at), "-i"@, file),
        followed(frame_line(file, at), "-map"@, "0:v:0"@),
        followed(frame_line(file, at), "-frames:v"@, "8"@),
        followed(frame_line(file, at), "-f"@, "null"@),
        frame_line(file, at).contains("-an"@),
        followed(volume_line(file), "-i"@, file),
        followed(volume_line(file), "-map"@, "0:a:0"@),
        followed(volume_line(file), "-af"@, "volumedetect"@),
        followed(volume_line(file), "-f"@, "null"@),
        followed(copy_line(file, map), "-i"@, file),
        followed(copy_line(file, map), "-map"@, map),
        followed(copy_line(file, map), "-c"@, "copy"@),
        followed(copy_line(file, map), "-t"@, "0.01"@),
{
    let a = image_line(file);
    assert(a[0] == "-v"@ && a[1] == "error"@ && a[3] == "-i"@ && a[4] == file && a[5] == "-frames:v"@
        && a[6] == "1"@ && a[7] == "-f"@ && a[8] == "null"@);
    let b = frame_line(file, at);
    assert(b[3] == "-ss"@ && b[4] == at && b[5] == "-i"@ && b[6] == file && b[7] == "-map"@ && b[8]
        == "0:v:0"@ && b[9] == "-frames:v"@ && b[10] == "8"@ && b[11] == "-an"@ && b[12] == "-f"@ && b[13]
        == "null"@);
    let c = volume_line(file);
    assert(c[1] == "-i"@ && c[2] == file && c[3] == "-map"@ && c[4] == "0:a:0"@ && c[5] == "-af"@ && c[6]
        == "volumedetect"@ && c[7] == "-f"@ && c[8] == "null"@);
    let d = copy_line(file, map);
    assert(d[3] == "-i"@ && d[4] == file && d[5] == "-map"@ && d[6] == map && d[7] == "-c"@ && d[8]
        == "copy"@ && d[9] == "-t"@ && d[10] == "0.01"@);
}

/// The verdict on what was decoded: something was, it lasts a second at least, and it is
/// not silence.
pub open spec fn sound_verdict(g: GateView, length: Seq<char>, silence: Option<Seq<char>>) -> Result<
    (),
    Seq<char>,
> {
    if g.samples == 0 {
        Err("完全解不出音訊資料"@)
    } else if g.frames < g.sample_rate {
        Err("長度只有 "@ + length + " 秒"@)
    } else {
        match silence {
            Some(db) => Err("整首無聲（RMS "@ + db + " dB）"@),
            None => Ok(()),
        }
    }
}

/// Sound passes exactly where something was decoded, for a second at least, and it is
/// not silence.
pub proof fn law_sound_lasts_a_second(g: GateView, length: Seq<char>, silence: Option<Seq<char>>)
    ensures
        sound_verdict(g, length, silence) is Ok <==> g.samples > 0 && g.frames >= g.sample_rate && silence
            is None,
        g.samples == 0 ==> sound_verdict(g, length, silence) == Err::<(), Seq<char>>(
            "完全解不出音訊資料"@,
        ),
{
}

/// The verdict on JSON by what parsing it gave.
pub open spec fn parse_verdict(blank: bool, whole: bool, l: Seq<Result<(), String>>) -> Result<
    (),
    Seq<char>,
> {
    if blank {
        Err("檔案是空的"@)
    } else if whole {
        Ok(())
    } else if first_failure(l) is Some {
        Err("不是合法的 JSON 或 NDJSON："@ + first_failure(l)->0)
    } else if l.len() == 0 {
        Err("沒有任何一行是 JSON"@)
    } else {
        Ok(())
    }
}

/// JSON passes as a whole, or line by line where no line fails and there is one.
pub proof fn law_parsed_files_pass(whole: bool, l: Seq<Result<(), String>>, i: int)
    ensures
        parse_verdict(true, whole, l) is Err,
        parse_verdict(false, true, l) is Ok,
        parse_verdict(false, false, seq![]) is Err,
        0 <= i < l.len() && l[i] is Err ==> parse_verdict(false, false, l) is Err,
{
    lemma_some_failure(l, i);
}

proof fn lemma_some_failure(l: Seq<Result<(), String>>, i: int)
    ensures
        0 <= i < l.len() && l[i] is Err ==> first_failure(l) is Some,
    decreases l.len(),
{
    if 0 < i < l.len() {
        assert(l.skip(1)[i - 1] == l[i]);
        lemma_some_failure(l.skip(1), i - 1);
    }
}

/// Nothing comes of nothing.
pub proof fn law_nothing_comes_of_nothing()
    ensures
        bad_line(seq![]) is None,
        first_failure(seq![]) is None,
        complaints(seq![]).len() == 0,
        volume_run(seq![]).len() == 0,
        first_sound(seq![]) is None,
{
}

} // verus!
