//! The names of files and the places where they go.

use vstd::prelude::*;
use crate::direct::{authority, authority_of};
use crate::extract::Mode;
use crate::number::{decimal, to_decimal};
use crate::paths::{self, Platform};
use crate::text::{
    after, after_last, before, behind, cat, cat3, chars_of, contains, cut_end, digit, find_last,
    first, followed, head, index_of, is_letter, join, joined, lemma_cat_without, letter, limit,
    listed, lower, prefix, push_text, same, second, str_of, tail, texts, to_lower, to_upper,
    trim_class_end, up_to, upper, white, words, words_of, Class,
};

verus! {

/// The tail of a URL, short enough for a list.
pub open spec fn short_name(s: Seq<char>) -> Seq<char> {
    prefix(behind(cut_end(s, Class::Is('/')), Class::Is('/')), 28)
}

pub fn short(s: &str) -> (r: String)
    ensures
        r@ == short_name(s@),
{
    limit(after(trim_class_end(s, Class::Is('/')), Class::Is('/')), 28).to_owned()
}

/// Whether files with this extension hold pictures beside the sound.
pub open spec fn video_container(ext: Seq<char>) -> bool {
    let e = lower(ext);
    ||| e == "mp4"@
    ||| e == "webm"@
    ||| e == "mkv"@
    ||| e == "mov"@
    ||| e == "avi"@
    ||| e == "flv"@
    ||| e == "ts"@
}

pub fn is_video_container(ext: &str) -> (r: bool)
    ensures
        r == video_container(ext@),
{
    let lowered = to_lower(ext);
    let e = lowered.as_str();
    same(e, "mp4") || same(e, "webm") || same(e, "mkv") || same(e, "mov") || same(e, "avi") || same(
        e,
        "flv",
    ) || same(e, "ts")
}

/// Whether an extension found in a URL can be one: letters and digits, at most
/// five.
pub open spec fn plausible(e: Seq<char>) -> bool {
    e.len() <= 5 && forall|i: int| 0 <= i < e.len() ==> letter(#[trigger] e[i]) || digit(e[i])
}

/// The extension of the file that a URL names, `bin` where it names none that
/// can be one.
pub open spec fn url_ext(url: Seq<char>) -> Seq<char> {
    let name = behind(up_to(url, Class::Is('?')), Class::Is('/'));
    let dot = after_last(name, Class::Is('.'), true);
    if dot > 0 && plausible(lower(name.skip(dot))) {
        lower(name.skip(dot))
    } else {
        "bin"@
    }
}

fn is_plausible(e: &str) -> (r: bool)
    ensures
        r == plausible(e@),
{
    let cs = chars_of(e);
    if cs.len() > 5 {
        return false;
    }
    let mut i: usize = 0;
    while i < cs.len()
        invariant
            cs@ == e@,
            i <= cs@.len(),
            forall|j: int| 0 <= j < i ==> letter(#[trigger] cs@[j]) || digit(cs@[j]),
        decreases cs@.len() - i,
    {
        let c = cs[i];
        if !is_letter(c) && !('0' <= c && c <= '9') {
            proof {
                assert(!(letter(e@[i as int]) || digit(e@[i as int])));
            }
            return false;
        }
        i += 1;
    }
    true
}

pub fn ext_of(url: &str) -> (r: String)
    ensures
        r@ == url_ext(url@),
{
    let name = after(before(url, Class::Is('?')), Class::Is('/'));
    let dot: usize = find_last(name, Class::Is('.'), true);
    if dot > 0 {
        let e = to_lower(tail(name, dot));
        if is_plausible(e.as_str()) {
            return e;
        }
    }
    "bin".to_owned()
}

/// The extension of what a direct fetch leaves: sound that is taken out of a
/// video lies in an `m4a`.
pub open spec fn kept_ext(media: Seq<char>, mode: Mode) -> Seq<char> {
    if mode == Mode::Audio && video_container(url_ext(media)) {
        "m4a"@
    } else {
        url_ext(media)
    }
}

pub fn direct_ext(media: &str, mode: Mode) -> (r: String)
    ensures
        r@ == kept_ext(media@, mode),
{
    let ext = ext_of(media);
    if mode == Mode::Audio && is_video_container(ext.as_str()) {
        "m4a".to_owned()
    } else {
        ext
    }
}

/// The host of a URL in lower case without its port, as cookies know it.
pub open spec fn cookie_host(url: Seq<char>) -> Seq<char> {
    match authority(url) {
        Some(a) => lower(up_to(a, Class::Is(':'))),
        None => seq![],
    }
}

pub fn host_of(url: &str) -> (r: String)
    ensures
        r@ == cookie_host(url@),
{
    match authority_of(url) {
        Some(a) => to_lower(before(a, Class::Is(':'))),
        None => String::new(),
    }
}

/// Whether a character cannot stand in a file name on every system.
pub open spec fn illegal(c: char) -> bool {
    ||| c == '<'
    ||| c == '>'
    ||| c == ':'
    ||| c == '"'
    ||| c == '/'
    ||| c == '\\'
    ||| c == '|'
    ||| c == '?'
    ||| c == '*'
    ||| (c as u32) < 0x20
    ||| c as u32 == 0x7f
}

/// The names of devices on Windows.
pub open spec fn device_names() -> Seq<Seq<char>> {
    seq![
        "CON"@,
        "PRN"@,
        "AUX"@,
        "NUL"@,
        "COM1"@,
        "COM2"@,
        "COM3"@,
        "COM4"@,
        "COM5"@,
        "COM6"@,
        "COM7"@,
        "COM8"@,
        "COM9"@,
        "LPT1"@,
        "LPT2"@,
        "LPT3"@,
        "LPT4"@,
        "LPT5"@,
        "LPT6"@,
        "LPT7"@,
        "LPT8"@,
        "LPT9"@,
    ]
}

/// Whether a name is that of a device, whatever its case and whatever follows
/// its first dot.
pub open spec fn reserved(s: Seq<char>) -> bool {
    device_names().contains(upper(up_to(s, Class::Is('.'))))
}

pub open spec fn blanked(name: Seq<char>) -> Seq<char> {
    name.map_values(
        |c: char|
            if illegal(c) {
                ' '
            } else {
                c
            },
    )
}

/// A name in which nothing illegal is left, in words with single spaces between
/// them, no longer than a file name may be, without a dot or a space at its end.
pub open spec fn tidy(name: Seq<char>) -> Seq<char> {
    cut_end(prefix(joined(words(blanked(name)), " "@), 110), Class::Either('.', ' '))
}

/// A name that every system takes for a file.
pub open spec fn sanitized(name: Seq<char>) -> Seq<char> {
    let s = tidy(name);
    if s.len() == 0 {
        "untitled"@
    } else if reserved(s) {
        "_"@ + s
    } else {
        s
    }
}

fn is_illegal(c: char) -> (r: bool)
    ensures
        r == illegal(c),
{
    let n: u32 = c as u32;
    c == '<' || c == '>' || c == ':' || c == '"' || c == '/' || c == '\\' || c == '|' || c == '?'
        || c == '*' || n < 0x20 || n == 0x7f
}

fn blank(name: &str) -> (r: String)
    ensures
        r@ == blanked(name@),
{
    let cs = chars_of(name);
    let mut out = String::new();
    let mut i: usize = 0;
    while i < cs.len()
        invariant
            cs@ == name@,
            i <= cs@.len(),
            out@ == blanked(name@.take(i as int)),
        decreases cs@.len() - i,
    {
        let c = cs[i];
        let ghost done = out@;
        if is_illegal(c) {
            out.push(' ');
        } else {
            out.push(c);
        }
        proof {
            assert(blanked(name@.take(i + 1)) =~= out@);
        }
        i += 1;
    }
    proof {
        assert(name@.take(i as int) =~= name@);
    }
    out
}

fn devices() -> (r: Vec<String>)
    ensures
        texts(r@) == device_names(),
{
    let mut v: Vec<String> = Vec::new();
    push_text(&mut v, "CON");
    push_text(&mut v, "PRN");
    push_text(&mut v, "AUX");
    push_text(&mut v, "NUL");
    push_text(&mut v, "COM1");
    push_text(&mut v, "COM2");
    push_text(&mut v, "COM3");
    push_text(&mut v, "COM4");
    push_text(&mut v, "COM5");
    push_text(&mut v, "COM6");
    push_text(&mut v, "COM7");
    push_text(&mut v, "COM8");
    push_text(&mut v, "COM9");
    push_text(&mut v, "LPT1");
    push_text(&mut v, "LPT2");
    push_text(&mut v, "LPT3");
    push_text(&mut v, "LPT4");
    push_text(&mut v, "LPT5");
    push_text(&mut v, "LPT6");
    push_text(&mut v, "LPT7");
    push_text(&mut v, "LPT8");
    push_text(&mut v, "LPT9");
    proof {
        assert(texts(v@) =~= device_names());
    }
    v
}

/// Makes a name that every system takes for a file. Names are cut by
/// characters, so that none is cut apart.
pub fn sanitize(name: &str) -> (r: String)
    ensures
        r@ == sanitized(name@),
{
    let clean = blank(name);
    let w = words_of(clean.as_str());
    let line = join(&w, " ");
    let s = trim_class_end(limit(line.as_str(), 110), Class::Either('.', ' '));
    if s.unicode_len() == 0 {
        return "untitled".to_owned();
    }
    let stem = to_upper(before(s, Class::Is('.')));
    let known = devices();
    if listed(known.as_slice(), stem.as_str()) {
        return cat("_", s);
    }
    s.to_owned()
}

/// The name of the `n`th file of the same name.
pub open spec fn numbered(base: Seq<char>, ext: Seq<char>, n: int) -> Seq<char> {
    if n <= 1 {
        base + "."@ + ext
    } else {
        base + " ("@ + decimal(n as nat) + ")."@ + ext
    }
}

/// The first free path for a file, from the `n`th name on. `taken` are the paths
/// that are in use, `pid` makes a last name where all others are.
pub open spec fn free_path(
    platform: Platform,
    dir: Seq<char>,
    base: Seq<char>,
    ext: Seq<char>,
    taken: Seq<Seq<char>>,
    pid: u64,
    n: int,
) -> Seq<char>
    decreases 1000 - n,
{
    let p = paths::joined(platform, dir, numbered(base, ext, n));
    if n >= 1000 {
        paths::joined(platform, dir, base + " "@ + decimal(pid as nat) + "."@ + ext)
    } else if !taken.contains(p) {
        p
    } else {
        free_path(platform, dir, base, ext, taken, pid, n + 1)
    }
}

fn numbered_name(base: &str, ext: &str, n: u64) -> (r: String)
    ensures
        r@ == numbered(base@, ext@, n as int),
{
    if n <= 1 {
        cat3(base, ".", ext)
    } else {
        let front = cat3(base, " (", to_decimal(n).as_str());
        cat3(front.as_str(), ").", ext)
    }
}

/// The paths for a file of that name in their order, as far as they are numbered.
pub fn numbered_paths(platform: Platform, dir: &str, base: &str, ext: &str) -> (r: Vec<String>)
    ensures
        r@.len() == 999,
        forall|i: int|
            0 <= i < 999 ==> (#[trigger] r@[i])@ == paths::joined(
                platform,
                dir@,
                numbered(base@, ext@, i + 1),
            ),
{
    let mut out: Vec<String> = Vec::new();
    let mut n: u64 = 1;
    while n < 1000
        invariant
            1 <= n <= 1000,
            out@.len() == n - 1,
            forall|i: int|
                0 <= i < n - 1 ==> (#[trigger] out@[i])@ == paths::joined(
                    platform,
                    dir@,
                    numbered(base@, ext@, i + 1),
                ),
        decreases 1000 - n,
    {
        out.push(paths::join(platform, dir, numbered_name(base, ext, n).as_str()));
        n += 1;
    }
    out
}

/// A path in `dir` for a file of that name that is not in use yet.
pub fn unique_path(
    platform: Platform,
    dir: &str,
    base: &str,
    ext: &str,
    taken: &Vec<String>,
    pid: u64,
) -> (r: String)
    ensures
        r@ == free_path(platform, dir@, base@, ext@, texts(taken@), pid, 1),
{
    let mut n: u64 = 1;
    while n < 1000
        invariant
            1 <= n <= 1000,
            free_path(platform, dir@, base@, ext@, texts(taken@), pid, n as int) == free_path(
                platform,
                dir@,
                base@,
                ext@,
                texts(taken@),
                pid,
                1,
            ),
        decreases 1000 - n,
    {
        let p = paths::join(platform, dir, numbered_name(base, ext, n).as_str());
        if !listed(taken.as_slice(), p.as_str()) {
            return p;
        }
        n += 1;
    }
    let front = cat3(base, " ", to_decimal(pid).as_str());
    let name = cat3(front.as_str(), ".", ext);
    paths::join(platform, dir, name.as_str())
}

/// A path that is handed out is not in use, unless all the numbered ones are.
pub proof fn law_unique_path_is_free(
    platform: Platform,
    dir: Seq<char>,
    base: Seq<char>,
    ext: Seq<char>,
    taken: Seq<Seq<char>>,
    pid: u64,
    n: int,
)
    requires
        n <= 1000,
        exists|k: int|
            n <= k < 1000 && !taken.contains(#[trigger] paths::joined(platform, dir, numbered(base, ext, k))),
    ensures
        !taken.contains(free_path(platform, dir, base, ext, taken, pid, n)),
    decreases 1000 - n,
{
    let p = paths::joined(platform, dir, numbered(base, ext, n));
    if n < 1000 && taken.contains(p) {
        let k = choose|k: int|
            n <= k < 1000 && !taken.contains(#[trigger] paths::joined(platform, dir, numbered(base, ext, k)));
        assert(k != n);
        assert(n + 1 <= k < 1000 && !taken.contains(paths::joined(platform, dir, numbered(base, ext, k))));
        law_unique_path_is_free(platform, dir, base, ext, taken, pid, n + 1);
    }
}

/// Whether the path with the parts `path` lies at or below the one with the
/// parts `root`.
pub open spec fn within(root: Seq<Seq<char>>, path: Seq<Seq<char>>) -> bool {
    root.len() <= path.len() && path.take(root.len() as int) == root
}

/// Lets a file be opened that lies in the download directory. Both paths come
/// with all links and all `..` resolved, in their parts, or with the reason why
/// they could not be.
pub fn validate_playable(
    root: Result<Vec<String>, String>,
    target: Result<Vec<String>, String>,
    is_file: bool,
) -> (r: Result<Vec<String>, String>)
    ensures
        match (target, root) {
            (Err(e), _) => r matches Err(m) && m@ == "找不到這個檔案："@ + e@,
            (Ok(_), Err(e)) => r matches Err(m) && m@ == "輸出資料夾有問題："@ + e@,
            (Ok(t), Ok(d)) => if !within(texts(d@), texts(t@)) {
                r matches Err(m) && m@ == "這個檔案不在下載資料夾裡"@
            } else if !is_file {
                r matches Err(m) && m@ == "這不是一個檔案"@
            } else {
                r matches Ok(p) && p == t
            },
        },
        r is Ok == (target is Ok && root is Ok && playable(
            texts((root->Ok_0)@),
            texts((target->Ok_0)@),
            is_file,
        )),
{
    let t = match target {
        Ok(t) => t,
        Err(e) => {
            return Err(cat("找不到這個檔案：", e.as_str()));
        },
    };
    let d = match root {
        Ok(d) => d,
        Err(e) => {
            return Err(cat("輸出資料夾有問題：", e.as_str()));
        },
    };
    let n: usize = d.len();
    proof {
        assert(texts(d@).len() == n);
        assert(texts(t@).len() == t@.len());
    }
    if n > t.len() {
        return Err("這個檔案不在下載資料夾裡".to_owned());
    }
    let mut i: usize = 0;
    while i < n && same(t[i].as_str(), d[i].as_str())
        invariant
            n == d@.len(),
            n <= t@.len(),
            i <= n,
            forall|j: int| 0 <= j < i ==> (#[trigger] t@[j])@ == d@[j]@,
        decreases n - i,
    {
        i += 1;
    }
    if i < n {
        proof {
            assert(texts(t@).take(n as int)[i as int] == t@[i as int]@);
            assert(texts(d@)[i as int] == d@[i as int]@);
        }
        return Err("這個檔案不在下載資料夾裡".to_owned());
    }
    proof {
        assert(texts(t@).take(n as int) =~= texts(d@));
    }
    if !is_file {
        return Err("這不是一個檔案".to_owned());
    }
    Ok(t)
}

/// The program that opens a file on the user's system, with the arguments that
/// go before the file.
pub fn opener(platform: Platform) -> (r: Vec<String>)
    ensures
        texts(r@) == (match platform {
            Platform::MacOs => seq!["open"@],
            Platform::Windows => seq!["cmd"@, "/C"@, "start"@, ""@],
            Platform::Linux => seq!["xdg-open"@],
        }),
        texts(r@) == open_line(platform),
{
    let mut v: Vec<String> = Vec::new();
    match platform {
        Platform::MacOs => {
            push_text(&mut v, "open");
            proof {
                assert(texts(v@) =~= seq!["open"@]);
            }
        },
        Platform::Windows => {
            push_text(&mut v, "cmd");
            push_text(&mut v, "/C");
            push_text(&mut v, "start");
            push_text(&mut v, "");
            proof {
                assert(texts(v@) =~= seq!["cmd"@, "/C"@, "start"@, ""@]);
            }
        },
        Platform::Linux => {
            push_text(&mut v, "xdg-open");
            proof {
                assert(texts(v@) =~= seq!["xdg-open"@]);
            }
        },
    }
    v
}

/// Where downloads go by default.
pub fn default_out_dir(platform: Platform, home: &str) -> (r: String)
    ensures
        r@ == paths::joined(platform, paths::joined(platform, home@, "Downloads"@), "Haul"@),
{
    paths::join(platform, paths::join(platform, home, "Downloads").as_str(), "Haul")
}

/// The name under which the program keeps its own files.
pub const APP_ID: &'static str = "com.haul.desktop";

/// Where programs keep their files: where the environment says, on the systems
/// on which it does, else the usual place.
pub open spec fn data_dir(platform: Platform, home: Seq<char>, given: Option<Seq<char>>) -> Seq<char> {
    match platform {
        Platform::MacOs => paths::joined(
            platform,
            paths::joined(platform, home, "Library"@),
            "Application Support"@,
        ),
        Platform::Windows => match given {
            Some(d) => d,
            None => paths::joined(
                platform,
                paths::joined(platform, home, "AppData"@),
                "Roaming"@,
            ),
        },
        Platform::Linux => match given {
            Some(d) => d,
            None => paths::joined(
                platform,
                paths::joined(platform, home, ".local"@),
                "share"@,
            ),
        },
    }
}

/// The program's own directory.
pub fn app_dir(platform: Platform, home: &str, given: Option<&str>) -> (r: String)
    ensures
        r@ == paths::joined(platform, data_dir(platform, home@, str_of(given)), APP_ID@),
{
    let base = match platform {
        Platform::MacOs => paths::join(
            platform,
            paths::join(platform, home, "Library").as_str(),
            "Application Support",
        ),
        Platform::Windows => match given {
            Some(d) => d.to_owned(),
            None => paths::join(platform, paths::join(platform, home, "AppData").as_str(), "Roaming"),
        },
        Platform::Linux => match given {
            Some(d) => d.to_owned(),
            None => paths::join(platform, paths::join(platform, home, ".local").as_str(), "share"),
        },
    };
    paths::join(platform, base.as_str(), APP_ID)
}

/// Where yt-dlp and ffmpeg are kept. Every front end finds the same place, so
/// that they are fetched once. `given` is the data directory that the
/// environment names.
pub fn default_bin_dir(platform: Platform, home: &str, given: Option<&str>) -> (r: String)
    ensures
        r@ == paths::joined(
            platform,
            paths::joined(platform, data_dir(platform, home@, str_of(given)), APP_ID@),
            "bin"@,
        ),
{
    paths::join(platform, app_dir(platform, home, given).as_str(), "bin")
}

/// Where the program's record is kept: beside the programs.
pub fn default_log_dir(platform: Platform, home: &str, given: Option<&str>) -> (r: String)
    ensures
        r@ == paths::joined(
            platform,
            paths::joined(platform, data_dir(platform, home@, str_of(given)), APP_ID@),
            "logs"@,
        ),
{
    paths::join(platform, app_dir(platform, home, given).as_str(), "logs")
}

// What holds of every sanitized name.

pub open spec fn legal(s: Seq<char>) -> bool {
    forall|i: int| 0 <= i < s.len() ==> !illegal(#[trigger] s[i])
}

pub open spec fn all_legal(v: Seq<Seq<char>>) -> bool {
    forall|i: int| 0 <= i < v.len() ==> legal(#[trigger] v[i])
}

proof fn lemma_words_legal(s: Seq<char>)
    requires
        legal(s),
    ensures
        all_legal(words(s)),
    decreases s.len(),
{
    crate::text::lemma_first(s, Class::Space, false);
    let a = first(s, Class::Space, false);
    let t = s.skip(a);
    crate::text::lemma_first(t, Class::Space, true);
    let b = first(t, Class::Space, true);
    assert forall|i: int| 0 <= i < t.len() implies !illegal(#[trigger] t[i]) by {
        assert(t[i] == s[a + i]);
    }
    if 0 <= a < s.len() && 0 < b <= t.len() {
        let rest = t.skip(b);
        assert forall|i: int| 0 <= i < rest.len() implies !illegal(#[trigger] rest[i]) by {
            assert(rest[i] == t[b + i]);
        }
        lemma_words_legal(rest);
        let w = words(s);
        assert(legal(t.take(b)));
        assert forall|i: int| 0 <= i < w.len() implies legal(#[trigger] w[i]) by {
            if i == 0 {
                assert(w[0] == t.take(b));
            } else {
                assert(w[i] == words(rest)[i - 1]);
            }
        }
    }
}

proof fn lemma_joined_legal(v: Seq<Seq<char>>, sep: Seq<char>)
    requires
        all_legal(v),
        legal(sep),
    ensures
        legal(joined(v, sep)),
    decreases v.len(),
{
    if v.len() > 1 {
        let rest = v.skip(1);
        assert forall|i: int| 0 <= i < rest.len() implies legal(#[trigger] rest[i]) by {
            assert(rest[i] == v[i + 1]);
        }
        lemma_joined_legal(rest, sep);
        let s = joined(v, sep);
        let tail = joined(rest, sep);
        assert(legal(v[0]));
        assert forall|i: int| 0 <= i < s.len() implies !illegal(#[trigger] s[i]) by {
            if i < v[0].len() {
                assert(s[i] == v[0][i]);
            } else if i < v[0].len() + sep.len() {
                assert(s[i] == sep[i - v[0].len()]);
            } else {
                assert(s[i] == tail[i - v[0].len() - sep.len()]);
            }
        }
    } else if v.len() == 1 {
        assert(legal(v[0]));
    }
}

proof fn lemma_tidy(name: Seq<char>)
    ensures
        legal(tidy(name)),
        tidy(name).len() <= 110,
        tidy(name).len() > 0 ==> tidy(name).last() != '.' && tidy(name).last() != ' ',
{
    let b = blanked(name);
    assert(legal(b)) by {
        assert forall|i: int| 0 <= i < b.len() implies !illegal(#[trigger] b[i]) by {}
    }
    lemma_words_legal(b);
    reveal_strlit(" ");
    lemma_joined_legal(words(b), " "@);
    let line = joined(words(b), " "@);
    let p = prefix(line, 110);
    assert forall|i: int| 0 <= i < p.len() implies !illegal(#[trigger] p[i]) by {
        assert(p[i] == line[i]);
    }
    let k = Class::Either('.', ' ');
    crate::text::lemma_after_last(p, k, false);
    let t = tidy(name);
    assert forall|i: int| 0 <= i < t.len() implies !illegal(#[trigger] t[i]) by {
        assert(t[i] == p[i]);
    }
    if t.len() > 0 {
        assert(t.last() == p[t.len() - 1]);
    }
}

/// A sanitized name is never empty, holds nothing illegal, is not too long, and
/// ends in neither a dot nor a space.
pub proof fn law_sanitized_is_legal(name: Seq<char>)
    ensures
        sanitized(name).len() > 0,
        legal(sanitized(name)),
        sanitized(name).len() <= 111,
        sanitized(name).last() != '.',
        sanitized(name).last() != ' ',
{
    lemma_tidy(name);
    reveal_strlit("untitled");
    reveal_strlit("_");
    let s = tidy(name);
    let r = sanitized(name);
    if s.len() == 0 {
        assert forall|i: int| 0 <= i < r.len() implies !illegal(#[trigger] r[i]) by {}
    } else if reserved(s) {
        assert forall|i: int| 0 <= i < r.len() implies !illegal(#[trigger] r[i]) by {
            if i > 0 {
                assert(r[i] == s[i - 1]);
            }
        }
        assert(r.last() == s.last());
    }
}

/// No sanitized name is that of a device.
pub proof fn law_sanitized_is_no_device(name: Seq<char>)
    ensures
        !reserved(sanitized(name)),
{
    lemma_tidy(name);
    let s = tidy(name);
    let r = sanitized(name);
    if s.len() == 0 {
        reveal_strlit("untitled");
        lemma_no_dot(r);
        assert(up_to(r, Class::Is('.')) =~= r);
        lemma_not_device(r);
    } else if reserved(s) {
        reveal_strlit("_");
        crate::text::lemma_first(r, Class::Is('.'), true);
        let head = up_to(r, Class::Is('.'));
        assert(r[0] == '_');
        assert(!Class::Is('.').has(r[0]));
        assert(first(r, Class::Is('.'), true) > 0);
        assert(head[0] == '_');
        lemma_not_device(head);
    }
}

proof fn lemma_no_dot(s: Seq<char>)
    requires
        s == "untitled"@,
    ensures
        first(s, Class::Is('.'), true) == s.len(),
{
    reveal_strlit("untitled");
    assert forall|j: int| 0 <= j < s.len() implies Class::Is('.').has(#[trigger] s[j]) != true by {}
    crate::text::lemma_first_is(s, Class::Is('.'), true, s.len() as int);
}

proof fn lemma_not_device(s: Seq<char>)
    requires
        s.len() > 0,
        s[0] == '_' || s[0] == 'u',
    ensures
        !device_names().contains(upper(s)),
{
    reveal_strlit("CON");
    reveal_strlit("PRN");
    reveal_strlit("AUX");
    reveal_strlit("NUL");
    reveal_strlit("COM1");
    reveal_strlit("COM2");
    reveal_strlit("COM3");
    reveal_strlit("COM4");
    reveal_strlit("COM5");
    reveal_strlit("COM6");
    reveal_strlit("COM7");
    reveal_strlit("COM8");
    reveal_strlit("COM9");
    reveal_strlit("LPT1");
    reveal_strlit("LPT2");
    reveal_strlit("LPT3");
    reveal_strlit("LPT4");
    reveal_strlit("LPT5");
    reveal_strlit("LPT6");
    reveal_strlit("LPT7");
    reveal_strlit("LPT8");
    reveal_strlit("LPT9");
    let u = upper(s);
    assert(u[0] == '_' || u[0] == 'U');
    let d = device_names();
    assert forall|i: int| 0 <= i < d.len() implies (#[trigger] d[i]) != u by {
        assert(d[i][0] == 'C' || d[i][0] == 'P' || d[i][0] == 'A' || d[i][0] == 'N' || d[i][0] == 'L');
    }
}

/// Whether a text is made of words with single spaces between them.
pub open spec fn spaced(s: Seq<char>) -> bool {
    &&& s.len() > 0 ==> !white(s[0]) && !white(s.last())
    &&& forall|i: int| 0 <= i < s.len() && white(#[trigger] s[i]) ==> s[i] == ' '
    &&& forall|i: int| 0 <= i < s.len() - 1 && white(#[trigger] s[i]) ==> !white(s[i + 1])
}

/// A text made of words is its words with single spaces between them.
proof fn lemma_spaced_words(s: Seq<char>)
    requires
        spaced(s),
    ensures
        joined(words(s), " "@) == s,
    decreases s.len(),
{
    reveal_strlit(" ");
    let sp = Class::Space;
    if s.len() == 0 {
        assert(words(s) =~= seq![]);
        assert(joined(words(s), " "@) =~= s);
    } else {
        crate::text::lemma_first_is(s, sp, false, 0);
        assert(s.skip(0) =~= s);
        crate::text::lemma_first(s, sp, true);
        let b = first(s, sp, true);
        assert(b > 0);
        let rest = s.skip(b);
        assert(words(s) == seq![s.take(b)] + words(rest));
        if b == s.len() {
            assert(rest.len() == 0);
            assert(words(rest) =~= seq![]);
            assert(words(s) =~= seq![s.take(b)]);
            assert(s.take(b) =~= s);
        } else {
            assert(white(s[b]));
            assert(s[b] == ' ');
            assert(b < s.len() - 1) by {
                assert(!white(s.last()));
            }
            let t = s.skip(b + 1);
            assert(t[0] == s[b + 1]);
            assert(!white(s[b + 1]));
            assert(t.last() == s.last());
            assert forall|i: int| 0 <= i < t.len() && white(#[trigger] t[i]) implies t[i] == ' ' by {
                assert(t[i] == s[b + 1 + i]);
            }
            assert forall|i: int| 0 <= i < t.len() - 1 && white(#[trigger] t[i]) implies !white(
                t[i + 1],
            ) by {
                assert(t[i] == s[b + 1 + i]);
                assert(t[i + 1] == s[b + 1 + i + 1]);
            }
            lemma_spaced_words(t);
            // The rest begins with the space; its words are those behind it.
            crate::text::lemma_first_is(rest, sp, false, 1) ;
            assert(rest.skip(1) =~= t);
            crate::text::lemma_first(t, sp, true);
            lemma_words_behind_space(rest, t);
            assert(words(s) =~= seq![s.take(b)] + words(t));
            assert(words(t).len() > 0) by {
                crate::text::lemma_first_is(t, sp, false, 0);
                assert(t.skip(0) =~= t);
            }
            assert(words(s).skip(1) =~= words(t));
            assert(joined(words(s), " "@) == s.take(b) + " "@ + joined(words(t), " "@));
            assert(s.take(b) + " "@ + t =~= s);
        }
    }
}

proof fn lemma_words_behind_space(rest: Seq<char>, t: Seq<char>)
    requires
        rest.len() > 1,
        rest.skip(1) == t,
        first(rest, Class::Space, false) == 1,
        t.len() > 0,
        !white(t[0]),
    ensures
        words(rest) == words(t),
{
    let sp = Class::Space;
    crate::text::lemma_first_is(t, sp, false, 0);
    assert(t.skip(0) =~= t);
    crate::text::lemma_first(t, sp, true);
}

/// The words of a text are not empty and hold no white space.
proof fn lemma_words_solid(s: Seq<char>)
    ensures
        forall|i: int| 0 <= i < words(s).len() ==> solid(#[trigger] words(s)[i]),
    decreases s.len(),
{
    let sp = Class::Space;
    crate::text::lemma_first(s, sp, false);
    let a = first(s, sp, false);
    let t = s.skip(a);
    crate::text::lemma_first(t, sp, true);
    let b = first(t, sp, true);
    if 0 <= a < s.len() && 0 < b <= t.len() {
        lemma_words_solid(t.skip(b));
        let w = words(s);
        assert forall|i: int| 0 <= i < w.len() implies solid(#[trigger] w[i]) by {
            if i == 0 {
                let first_word = t.take(b);
                assert forall|j: int| 0 <= j < first_word.len() implies !white(
                    #[trigger] first_word[j],
                ) by {
                    assert(first_word[j] == t[j]);
                    assert(sp.has(t[j]) != true);
                }
                assert(w[0] == first_word);
            } else {
                assert(w[i] == words(t.skip(b))[i - 1]);
            }
        }
    }
}

pub open spec fn solid(w: Seq<char>) -> bool {
    w.len() > 0 && forall|j: int| 0 <= j < w.len() ==> !white(#[trigger] w[j])
}

proof fn lemma_joined_spaced(v: Seq<Seq<char>>)
    requires
        forall|i: int| 0 <= i < v.len() ==> solid(#[trigger] v[i]),
    ensures
        spaced(joined(v, " "@)),
        v.len() > 0 ==> joined(v, " "@).len() > 0,
    decreases v.len(),
{
    reveal_strlit(" ");
    if v.len() == 1 {
        assert(solid(v[0]));
    } else if v.len() > 1 {
        let rest = v.skip(1);
        assert forall|i: int| 0 <= i < rest.len() implies solid(#[trigger] rest[i]) by {
            assert(rest[i] == v[i + 1]);
        }
        lemma_joined_spaced(rest);
        let t = joined(rest, " "@);
        let w = v[0];
        assert(solid(w));
        let s = w + " "@ + t;
        assert(joined(v, " "@) == s);
        let n = w.len() as int;
        assert(s[0] == w[0]);
        assert(s.last() == t.last());
        assert forall|i: int| 0 <= i < s.len() && white(#[trigger] s[i]) implies s[i] == ' ' by {
            if i < n {
                assert(s[i] == w[i]);
            } else if i > n {
                assert(s[i] == t[i - n - 1]);
            }
        }
        assert forall|i: int| 0 <= i < s.len() - 1 && white(#[trigger] s[i]) implies !white(s[i + 1]) by {
            if i < n {
                assert(s[i] == w[i]);
            } else if i == n {
                assert(s[i + 1] == t[0]);
            } else {
                assert(s[i] == t[i - n - 1]);
                assert(s[i + 1] == t[i + 1 - n - 1]);
            }
        }
    }
}

proof fn lemma_tidy_spaced(name: Seq<char>)
    ensures
        spaced(tidy(name)),
{
    let line = joined(words(blanked(name)), " "@);
    lemma_words_solid(blanked(name));
    lemma_joined_spaced(words(blanked(name)));
    let t = tidy(name);
    lemma_tidy(name);
    let p = prefix(line, 110);
    crate::text::lemma_after_last(p, Class::Either('.', ' '), false);
    assert forall|i: int| 0 <= i < t.len() implies #[trigger] t[i] == line[i] by {
        assert(t[i] == p[i]);
    }
    if t.len() > 0 {
        assert(t[0] == line[0]);
        assert(t.last() == line[t.len() - 1]);
        if white(t.last()) {
            assert(white(line[t.len() - 1]));
        }
    }
    assert forall|i: int| 0 <= i < t.len() && white(#[trigger] t[i]) implies t[i] == ' ' by {
        assert(white(line[i]));
    }
    assert forall|i: int| 0 <= i < t.len() - 1 && white(#[trigger] t[i]) implies !white(t[i + 1]) by {
        assert(white(line[i]));
        assert(t[i + 1] == line[i + 1]);
    }
}

proof fn lemma_tidy_again(s: Seq<char>)
    requires
        spaced(s),
        legal(s),
        s.len() <= 110,
        s.len() > 0 ==> s.last() != '.' && s.last() != ' ',
    ensures
        tidy(s) == s,
{
    assert(blanked(s) =~= s) by {
        assert forall|i: int| 0 <= i < s.len() implies (#[trigger] blanked(s)[i]) == s[i] by {
            assert(!illegal(s[i]));
        }
    }
    lemma_spaced_words(s);
    let k = Class::Either('.', ' ');
    if s.len() > 0 {
        assert(!k.has(s[s.len() - 1]));
    }
    crate::text::lemma_after_last_is(s, k, false, s.len() as int);
    assert(s.take(s.len() as int) =~= s);
}

/// A sanitized name is made of words with single spaces between them: it begins
/// and ends with none, and no two stand in a row.
pub proof fn law_sanitized_is_spaced(name: Seq<char>)
    ensures
        spaced(sanitized(name)),
{
    lemma_tidy_spaced(name);
    let s = tidy(name);
    let r = sanitized(name);
    reveal_strlit("untitled");
    reveal_strlit("_");
    if s.len() == 0 {
        assert forall|i: int| 0 <= i < r.len() implies !white(#[trigger] r[i]) by {}
    } else if reserved(s) {
        assert(r =~= "_"@ + s);
        assert(r[0] == '_');
        assert(r.last() == s.last());
        assert forall|i: int| 0 <= i < r.len() && white(#[trigger] r[i]) implies r[i] == ' ' by {
            assert(r[i] == s[i - 1]);
        }
        assert forall|i: int| 0 <= i < r.len() - 1 && white(#[trigger] r[i]) implies !white(r[i + 1]) by {
            assert(r[i] == s[i - 1]);
            assert(r[i + 1] == s[i]);
        }
    }
}

/// Sanitizing a sanitized name changes nothing, unless the sign in front of a
/// device's name made it too long.
pub proof fn law_sanitize_twice(name: Seq<char>)
    requires
        sanitized(name).len() <= 110,
    ensures
        sanitized(sanitized(name)) == sanitized(name),
{
    law_sanitized_is_legal(name);
    law_sanitized_is_no_device(name);
    law_sanitized_is_spaced(name);
    lemma_tidy_again(sanitized(name));
}

/// A short name is the last part of the path, whether or not a slash follows it, cut
/// after 28 characters.
pub proof fn law_short_names_are_tails(a: Seq<char>, b: Seq<char>)
    requires
        b.len() > 0,
        !b.contains('/'),
    ensures
        b.len() <= 28 ==> short_name(a + "/"@ + b) == b && short_name(a + "/"@ + b + "/"@) == b,
        b.len() > 28 ==> short_name(a + "/"@ + b) == b.take(28),
{
    reveal_strlit("/");
    let k = Class::Is('/');
    let s = a + "/"@ + b;
    let t = s + "/"@;
    assert(s.last() == b.last() && b.contains(b.last()));
    crate::text::lemma_after_last_is(s, k, false, s.len() as int);
    assert(s.take(s.len() as int) =~= s);
    crate::text::lemma_after_last_is(t, k, false, s.len() as int);
    assert(t.take(s.len() as int) =~= s);
    assert(s =~= a + seq!['/'] + b);
    crate::text::law_end_begins_behind(a, '/', b);
}

/// Which files hold pictures beside the sound shows by the extension, in whatever
/// case.
pub proof fn law_containers_hold_pictures(ext: Seq<char>)
    ensures
        lower(ext) == "mp4"@ ==> video_container(ext),
        lower(ext) == "webm"@ ==> video_container(ext),
        lower(ext) == "mkv"@ ==> video_container(ext),
        lower(ext) == "mov"@ ==> video_container(ext),
        lower(ext) == "avi"@ ==> video_container(ext),
        lower(ext) == "flv"@ ==> video_container(ext),
        lower(ext) == "ts"@ ==> video_container(ext),
        lower(ext) == "mp3"@ || lower(ext) == "m4a"@ || lower(ext) == "jpg"@ ==> !video_container(ext),
{
    reveal_strlit("mp4");
    reveal_strlit("webm");
    reveal_strlit("mkv");
    reveal_strlit("mov");
    reveal_strlit("avi");
    reveal_strlit("flv");
    reveal_strlit("ts");
    reveal_strlit("mp3");
    reveal_strlit("m4a");
    reveal_strlit("jpg");
    assert("mp3"@[2] != "mp4"@[2]);
    assert("mp3"@.len() != "webm"@.len());
    assert("mp3"@[1] != "mkv"@[1]);
    assert("mp3"@[1] != "mov"@[1]);
    assert("mp3"@[0] != "avi"@[0]);
    assert("mp3"@[0] != "flv"@[0]);
    assert("mp3"@.len() != "ts"@.len());
    assert("m4a"@[1] != "mp4"@[1]);
    assert("m4a"@.len() != "webm"@.len());
    assert("m4a"@[1] != "mkv"@[1]);
    assert("m4a"@[1] != "mov"@[1]);
    assert("m4a"@[0] != "avi"@[0]);
    assert("m4a"@[0] != "flv"@[0]);
    assert("m4a"@.len() != "ts"@.len());
    assert("jpg"@[0] != "mp4"@[0]);
    assert("jpg"@.len() != "webm"@.len());
    assert("jpg"@[0] != "mkv"@[0]);
    assert("jpg"@[0] != "mov"@[0]);
    assert("jpg"@[0] != "avi"@[0]);
    assert("jpg"@[0] != "flv"@[0]);
    assert("jpg"@.len() != "ts"@.len());
}

/// The extension of a URL is what follows the last dot of its last part, in lower
/// case, the query aside; without a dot there is none.
#[verifier::rlimit(40)]
pub proof fn law_extension_of_a_url(base: Seq<char>, name: Seq<char>, ext: Seq<char>, query: Seq<char>)
    requires
        !base.contains('?') && !name.contains('?') && !name.contains('/'),
        ext.len() <= 5,
        forall|i: int|
            0 <= i < ext.len() ==> 'a' <= #[trigger] ext[i] <= 'z' || 'A' <= ext[i] <= 'Z' || '0'
                <= ext[i] <= '9',
    ensures
        url_ext(base + "/"@ + name + "."@ + ext) == lower(ext),
        url_ext(base + "/"@ + name + "."@ + ext + "?"@ + query) == lower(ext),
        !name.contains('.') ==> url_ext(base + "/"@ + name) == "bin"@,
{
    let u = base + "/"@ + name + "."@ + ext;
    let v = base + "/"@ + name;
    let file = name + seq!['.'] + ext;
    assert(u =~= base + seq!['/'] + file && v =~= base + seq!['/'] + name && u + "?"@ + query =~= u
        + seq!['?'] + query) by {
        reveal_strlit("/");
        reveal_strlit(".");
        reveal_strlit("?");
    }
    assert(!ext.contains('/') && !ext.contains('.') && !ext.contains('?'));
    assert(!seq!['.'].contains('/') && !seq!['.'].contains('?') && !seq!['/'].contains('?'));
    lemma_cat_without(name, seq!['.'], '/');
    lemma_cat_without(name + seq!['.'], ext, '/');
    lemma_cat_without(name, seq!['.'], '?');
    lemma_cat_without(name + seq!['.'], ext, '?');
    lemma_cat_without(base, seq!['/'], '?');
    lemma_cat_without(base + seq!['/'], file, '?');
    lemma_cat_without(base + seq!['/'], name, '?');
    crate::text::law_front_ends_at(u, '?', query);
    crate::text::law_front_ends_at(v, '?', query);
    crate::text::law_end_begins_behind(base, '/', file);
    crate::text::law_end_begins_behind(base, '/', name);
    crate::text::law_end_begins_behind(name, '.', ext);
    if !name.contains('.') {
        crate::text::law_end_begins_behind(name, '.', name);
    }
    let l = lower(ext);
    assert forall|i: int| 0 <= i < l.len() implies letter(#[trigger] l[i]) || digit(l[i]) by {
        assert('a' <= ext[i] <= 'z' || 'A' <= ext[i] <= 'Z' || '0' <= ext[i] <= '9');
    }
}

/// Sound that is asked for out of a video is kept in an `m4a`; everything else keeps
/// its extension.
pub proof fn law_sound_is_kept_apart(media: Seq<char>)
    ensures
        url_ext(media) == "mp4"@ ==> kept_ext(media, Mode::Audio) == "m4a"@,
        url_ext(media) == "webm"@ ==> kept_ext(media, Mode::Audio) == "m4a"@,
        url_ext(media) == "mkv"@ ==> kept_ext(media, Mode::Audio) == "m4a"@,
        url_ext(media) == "mov"@ ==> kept_ext(media, Mode::Audio) == "m4a"@,
        url_ext(media) == "avi"@ ==> kept_ext(media, Mode::Audio) == "m4a"@,
        url_ext(media) == "flv"@ ==> kept_ext(media, Mode::Audio) == "m4a"@,
        url_ext(media) == "ts"@ ==> kept_ext(media, Mode::Audio) == "m4a"@,
        url_ext(media) == "mp3"@ ==> kept_ext(media, Mode::Audio) == "mp3"@,
        kept_ext(media, Mode::Video) == url_ext(media),
        kept_ext(media, Mode::Image) == url_ext(media),
{
    let e = url_ext(media);
    law_containers_hold_pictures(e);
    assert(lower("mp3"@) =~= "mp3"@) by {
        reveal_strlit("mp3");
    }
    assert(lower("mp4"@) =~= "mp4"@) by {
        reveal_strlit("mp4");
    }
    assert(lower("webm"@) =~= "webm"@) by {
        reveal_strlit("webm");
    }
    assert(lower("mkv"@) =~= "mkv"@) by {
        reveal_strlit("mkv");
    }
    assert(lower("mov"@) =~= "mov"@) by {
        reveal_strlit("mov");
    }
    assert(lower("avi"@) =~= "avi"@) by {
        reveal_strlit("avi");
    }
    assert(lower("flv"@) =~= "flv"@) by {
        reveal_strlit("flv");
    }
    assert(lower("ts"@) =~= "ts"@) by {
        reveal_strlit("ts");
    }
}

/// Cookies know a host by its name in lower case, without the port.
#[verifier::rlimit(40)]
pub proof fn law_port_does_not_count(scheme: Seq<char>, h: Seq<char>, port: Seq<char>, path: Seq<char>)
    requires
        !scheme.contains(':') && !h.contains('/') && !h.contains(':') && !path.contains(':'),
        port.len() > 0,
        forall|i: int| 0 <= i < port.len() ==> '0' <= #[trigger] port[i] <= '9',
    ensures
        cookie_host(scheme + "://"@ + h + "/"@ + path) == lower(h),
        cookie_host(scheme + "://"@ + h + ":"@ + port + "/"@ + path) == lower(h),
        cookie_host(scheme).len() == 0,
{
    crate::direct::law_host_stands_before_the_path(scheme, h, path);
    crate::text::law_front_ends_at(h, ':', port);
    let u = scheme + "://"@ + h + ":"@ + port + "/"@ + path;
    let a = h + seq![':'] + port;
    let rest = a + seq!['/'] + path;
    assert(u =~= scheme + "://"@ + rest) by {
        reveal_strlit(":");
        reveal_strlit("/");
    }
    assert(second(u, "://"@) == Some(rest)) by {
        reveal_strlit("://");
        crate::text::law_found_where_it_stands(scheme, "://"@, rest);
        crate::text::lemma_index_of(rest, "://"@);
        if index_of(rest, "://"@) is Some {
            let j = index_of(rest, "://"@)->0;
            let w = rest.skip(j).take(3);
            assert(w[0] == rest[j] && w[1] == rest[j + 1]);
            if j < h.len() {
                assert(h.contains(h[j]));
            } else if j == h.len() {
                assert(rest[j + 1] == port[0]);
            } else if j < a.len() {
                assert(rest[j] == port[j - h.len() - 1]);
            } else if j > a.len() {
                assert(rest[j] == path[j - a.len() - 1]);
                assert(path.contains(path[j - a.len() - 1]));
            }
        }
    }
    assert(!a.contains('/')) by {
        assert(!port.contains('/'));
        lemma_cat_without(h, seq![':'], '/');
        lemma_cat_without(h + seq![':'], port, '/');
    }
    crate::text::law_front_ends_at(a, '/', path);
    reveal_strlit("://");
    crate::text::law_found_where_it_stands(scheme, "://"@, scheme);
}

/// The signs that no file name may hold, and that letters, digits and common signs may
/// stand in one.
pub proof fn law_illegal_signs(c: char)
    ensures
        illegal('<'),
        illegal('>'),
        illegal(':'),
        illegal('"'),
        illegal('/'),
        illegal('\\'),
        illegal('|'),
        illegal('?'),
        illegal('*'),
        (c as u32) < 32 || c as u32 == 127 ==> illegal(c),
        'a' <= c <= 'z' || 'A' <= c <= 'Z' || '0' <= c <= '9' || c == ' ' || c == '.' || c == '-' || c
            == '_' || c == '(' || c == ')' || c as u32 >= 128 ==> !illegal(c),
{
}

/// A name that is fit for a file is kept as it is.
pub proof fn law_good_names_stay(name: Seq<char>)
    requires
        0 < name.len() <= 110,
        spaced(name),
        forall|i: int| 0 <= i < name.len() ==> !illegal(#[trigger] name[i]),
        name.last() != '.' && name.last() != ' ',
        !reserved(name),
    ensures
        sanitized(name) == name,
{
    lemma_tidy_again(name);
}

/// A sign that no file name may hold parts words as a space does.
#[verifier::rlimit(40)]
pub proof fn law_bad_signs_become_spaces(a: Seq<char>, c: char, b: Seq<char>)
    requires
        a.len() > 0 && b.len() > 0,
        a.len() + b.len() < 110,
        forall|i: int| 0 <= i < a.len() ==> !illegal(#[trigger] a[i]) && !white(a[i]),
        forall|i: int| 0 <= i < b.len() ==> !illegal(#[trigger] b[i]) && !white(b[i]),
        b.last() != '.',
        illegal(c),
        !reserved(a + " "@ + b),
    ensures
        sanitized(a + seq![c] + b) == a + " "@ + b,
{
    reveal_strlit(" ");
    let g = a + " "@ + b;
    let n = a + seq![c] + b;
    assert forall|i: int| 0 <= i < g.len() implies !illegal(#[trigger] g[i]) && (white(g[i]) ==> i
        == a.len()) by {
        if i < a.len() {
            assert(g[i] == a[i]);
        } else if i > a.len() {
            assert(g[i] == b[i - a.len() - 1]);
        }
    }
    assert(g[0] == a[0] && g.last() == b.last());
    assert(!white(b.last())) by {
        assert(!white(b[b.len() - 1]));
    }
    assert(blanked(n) =~= g) by {
        assert forall|i: int| 0 <= i < n.len() implies #[trigger] blanked(n)[i] == g[i] by {
            if i < a.len() {
                assert(n[i] == a[i] && !illegal(a[i]));
            } else if i > a.len() {
                assert(n[i] == b[i - a.len() - 1] && !illegal(b[i - a.len() - 1]));
            }
        }
    }
    assert(blanked(g) =~= g);
    assert(g.last() != ' ');
    lemma_tidy_again(g);
}

/// A name too long for a file is cut after 110 characters.
pub proof fn law_long_names_are_cut(name: Seq<char>)
    requires
        name.len() > 110,
        forall|i: int| 0 <= i < name.len() ==> !illegal(#[trigger] name[i]) && !white(name[i]),
        name[109] != '.',
        !reserved(name.take(110)),
    ensures
        sanitized(name) == name.take(110),
{
    assert(blanked(name) =~= name);
    crate::text::law_words_end_at_blanks(name, seq![]);
    assert(joined(seq![name], " "@) == name);
    let p = name.take(110);
    assert(!white(name[109]));
    crate::text::lemma_after_last_is(p, Class::Either('.', ' '), false, 110);
    assert(p.take(110) =~= p);
}

/// Nothing at all becomes a name that says so.
pub proof fn law_no_name_is_untitled()
    ensures
        sanitized(seq![]) == "untitled"@,
{
    let e = Seq::<char>::empty();
    assert(blanked(e) =~= e);
    assert(words(e) =~= seq![]);
    assert(joined(seq![], " "@) =~= e);
    assert(tidy(e) =~= e);
}

/// The names of devices, in whatever case and with whatever extension, are given a
/// sign in front.
pub proof fn law_devices_are_known(stem: Seq<char>, ext: Seq<char>)
    requires
        !stem.contains('.'),
    ensures
        upper(stem) == "CON"@ ==> reserved(stem) && reserved(stem + "."@ + ext),
        upper(stem) == "PRN"@ ==> reserved(stem) && reserved(stem + "."@ + ext),
        upper(stem) == "AUX"@ ==> reserved(stem) && reserved(stem + "."@ + ext),
        upper(stem) == "NUL"@ ==> reserved(stem) && reserved(stem + "."@ + ext),
        upper(stem) == "COM1"@ ==> reserved(stem) && reserved(stem + "."@ + ext),
        upper(stem) == "COM2"@ ==> reserved(stem) && reserved(stem + "."@ + ext),
        upper(stem) == "COM3"@ ==> reserved(stem) && reserved(stem + "."@ + ext),
        upper(stem) == "COM4"@ ==> reserved(stem) && reserved(stem + "."@ + ext),
        upper(stem) == "COM5"@ ==> reserved(stem) && reserved(stem + "."@ + ext),
        upper(stem) == "COM6"@ ==> reserved(stem) && reserved(stem + "."@ + ext),
        upper(stem) == "COM7"@ ==> reserved(stem) && reserved(stem + "."@ + ext),
        upper(stem) == "COM8"@ ==> reserved(stem) && reserved(stem + "."@ + ext),
        upper(stem) == "COM9"@ ==> reserved(stem) && reserved(stem + "."@ + ext),
        upper(stem) == "LPT1"@ ==> reserved(stem) && reserved(stem + "."@ + ext),
        upper(stem) == "LPT2"@ ==> reserved(stem) && reserved(stem + "."@ + ext),
        upper(stem) == "LPT3"@ ==> reserved(stem) && reserved(stem + "."@ + ext),
        upper(stem) == "LPT4"@ ==> reserved(stem) && reserved(stem + "."@ + ext),
        upper(stem) == "LPT5"@ ==> reserved(stem) && reserved(stem + "."@ + ext),
        upper(stem) == "LPT6"@ ==> reserved(stem) && reserved(stem + "."@ + ext),
        upper(stem) == "LPT7"@ ==> reserved(stem) && reserved(stem + "."@ + ext),
        upper(stem) == "LPT8"@ ==> reserved(stem) && reserved(stem + "."@ + ext),
        upper(stem) == "LPT9"@ ==> reserved(stem) && reserved(stem + "."@ + ext),
        reserved(tidy(stem)) && tidy(stem).len() > 0 ==> sanitized(stem) == "_"@ + tidy(stem),
{
    reveal_strlit(".");
    crate::text::law_front_ends_at(stem, '.', ext);
    assert(stem + "."@ + ext =~= stem + seq!['.'] + ext);
    let d = device_names();
    assert(d[0] == "CON"@);
    assert(d[1] == "PRN"@);
    assert(d[2] == "AUX"@);
    assert(d[3] == "NUL"@);
    assert(d[4] == "COM1"@);
    assert(d[5] == "COM2"@);
    assert(d[6] == "COM3"@);
    assert(d[7] == "COM4"@);
    assert(d[8] == "COM5"@);
    assert(d[9] == "COM6"@);
    assert(d[10] == "COM7"@);
    assert(d[11] == "COM8"@);
    assert(d[12] == "COM9"@);
    assert(d[13] == "LPT1"@);
    assert(d[14] == "LPT2"@);
    assert(d[15] == "LPT3"@);
    assert(d[16] == "LPT4"@);
    assert(d[17] == "LPT5"@);
    assert(d[18] == "LPT6"@);
    assert(d[19] == "LPT7"@);
    assert(d[20] == "LPT8"@);
    assert(d[21] == "LPT9"@);
}

/// A file gets its own name where that is free, else the same with a two behind it
/// where that is free.
#[verifier::rlimit(40)]
pub proof fn law_second_file_is_numbered(
    platform: Platform,
    dir: Seq<char>,
    base: Seq<char>,
    ext: Seq<char>,
    taken: Seq<Seq<char>>,
    pid: u64,
)
    ensures
        !taken.contains(paths::joined(platform, dir, base + "."@ + ext)) ==> free_path(
            platform,
            dir,
            base,
            ext,
            taken,
            pid,
            1,
        ) == paths::joined(platform, dir, base + "."@ + ext),
        taken.contains(paths::joined(platform, dir, base + "."@ + ext)) && !taken.contains(
            paths::joined(platform, dir, base + " (2)."@ + ext),
        ) ==> free_path(platform, dir, base, ext, taken, pid, 1) == paths::joined(
            platform,
            dir,
            base + " (2)."@ + ext,
        ),
{
    reveal_strlit(" (2).");
    reveal_strlit(" (");
    reveal_strlit(").");
    assert(decimal(2) =~= seq!['2']);
    assert(numbered(base, ext, 2) =~= base + " (2)."@ + ext);
    assert(free_path(platform, dir, base, ext, taken, pid, 2) == (if !taken.contains(
        paths::joined(platform, dir, numbered(base, ext, 2)),
    ) {
        paths::joined(platform, dir, numbered(base, ext, 2))
    } else {
        free_path(platform, dir, base, ext, taken, pid, 3)
    }));
}

/// What lies in a directory has the parts of the directory in front, and nothing else
/// does.
pub proof fn law_inside_is_below(root: Seq<Seq<char>>, rest: Seq<Seq<char>>, path: Seq<Seq<char>>)
    ensures
        within(root, root + rest),
        within(root, path) ==> path == root + path.skip(root.len() as int),
{
    assert((root + rest).take(root.len() as int) =~= root);
    if within(root, path) {
        assert(path =~= root + path.skip(root.len() as int));
    }
}

/// The program's own files lie where the system keeps such files.
pub proof fn law_own_files_have_their_place(home: Seq<char>, given: Seq<char>)
    ensures
        data_dir(Platform::MacOs, home, None) == paths::joined(
            Platform::MacOs,
            paths::joined(Platform::MacOs, home, "Library"@),
            "Application Support"@,
        ),
        data_dir(Platform::MacOs, home, Some(given)) == data_dir(Platform::MacOs, home, None),
        data_dir(Platform::Windows, home, Some(given)) == given,
        data_dir(Platform::Linux, home, Some(given)) == given,
        data_dir(Platform::Windows, home, None) == paths::joined(
            Platform::Windows,
            paths::joined(Platform::Windows, home, "AppData"@),
            "Roaming"@,
        ),
        data_dir(Platform::Linux, home, None) == paths::joined(
            Platform::Linux,
            paths::joined(Platform::Linux, home, ".local"@),
            "share"@,
        ),
        APP_ID@ == "com.haul.desktop"@,
{
}

/// No other signs are illegal, no other files hold pictures beside the sound, and no
/// other names are those of devices.
#[verifier::rlimit(40)]
pub proof fn law_nothing_else_is_refused(c: char, ext: Seq<char>, name: Seq<char>)
    ensures
        illegal(c) ==> {
            ||| c == '<'
            ||| c == '>'
            ||| c == ':'
            ||| c == '"'
            ||| c == '/'
            ||| c == '\\'
            ||| c == '|'
            ||| c == '?'
            ||| c == '*'
            ||| (c as u32) < 32
            ||| c as u32 == 127
        },
        video_container(ext) ==> {
            ||| lower(ext) == "mp4"@
            ||| lower(ext) == "webm"@
            ||| lower(ext) == "mkv"@
            ||| lower(ext) == "mov"@
            ||| lower(ext) == "avi"@
            ||| lower(ext) == "flv"@
            ||| lower(ext) == "ts"@
        },
        device_names().len() == 22,
        reserved(name) ==> 3 <= up_to(name, Class::Is('.')).len() <= 4,
{
    if reserved(name) {
        let d = device_names();
        let n = upper(up_to(name, Class::Is('.')));
        let i = d.index_of(n);
        assert(d[i] == n);
        reveal_strlit("CON");
        reveal_strlit("PRN");
        reveal_strlit("AUX");
        reveal_strlit("NUL");
        reveal_strlit("COM1");
        reveal_strlit("COM2");
        reveal_strlit("COM3");
        reveal_strlit("COM4");
        reveal_strlit("COM5");
        reveal_strlit("COM6");
        reveal_strlit("COM7");
        reveal_strlit("COM8");
        reveal_strlit("COM9");
        reveal_strlit("LPT1");
        reveal_strlit("LPT2");
        reveal_strlit("LPT3");
        reveal_strlit("LPT4");
        reveal_strlit("LPT5");
        reveal_strlit("LPT6");
        reveal_strlit("LPT7");
        reveal_strlit("LPT8");
        reveal_strlit("LPT9");
        assert(3 <= d[i].len() <= 4);
    }
}

/// Whether a file may be opened.
pub open spec fn playable(root: Seq<Seq<char>>, target: Seq<Seq<char>>, is_file: bool) -> bool {
    is_file && within(root, target)
}

/// Only files below the download directory may be opened.
pub proof fn law_only_downloads_are_opened(root: Seq<Seq<char>>, target: Seq<Seq<char>>, rest: Seq<Seq<char>>)
    ensures
        !playable(root, target, false),
        playable(root, root + rest, true),
        target.len() < root.len() ==> !playable(root, target, true),
        playable(root, target, true) ==> target.take(root.len() as int) == root,
{
    assert((root + rest).take(root.len() as int) =~= root);
}

/// The program that opens files, with its arguments.
pub open spec fn open_line(platform: Platform) -> Seq<Seq<char>> {
    match platform {
        Platform::MacOs => seq!["open"@],
        Platform::Windows => seq!["cmd"@, "/C"@, "start"@, ""@],
        Platform::Linux => seq!["xdg-open"@],
    }
}

/// Each system opens files its own way.
pub proof fn law_each_system_opens_files()
    ensures
        open_line(Platform::MacOs) == seq!["open"@],
        open_line(Platform::Linux) == seq!["xdg-open"@],
        open_line(Platform::Windows) == seq!["cmd"@, "/C"@, "start"@, ""@],
{
}

} // verus!
