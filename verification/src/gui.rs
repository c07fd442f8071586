//! What the desktop window needs beside the engine.

use vstd::prelude::*;
use crate::codec::{base64_encoded, encode, lossy, utf8_lossy};
use crate::cookies::{is_supported, supported};
use crate::engine::queue::Event;
use crate::text::{
    cat, cut_end, followed, has_prefix, push_text, split, split_text, starts_with, text_of, texts,
    trim, trim_class_end, trimmed, Class,
};

verus! {

/// The largest sound file that is read for the chime.
pub const MAX_CHIME_BYTES: usize = 8_388_608;

/// The links among pieces of text, without the punctuation behind them.
pub open spec fn links(pieces: Seq<Seq<char>>) -> Seq<Seq<char>>
    decreases pieces.len(),
{
    if pieces.len() == 0 {
        seq![]
    } else {
        let front = links(pieces.drop_last());
        let s = trimmed(pieces.last());
        if starts_with(s, "http"@) {
            front.push(cut_end(s, Class::OneOf(")],。")))
        } else {
            front
        }
    }
}

/// The links in what the user pasted. A browser whose session should be used
/// has to be a known one.
pub fn add(text: &str, cookies: &Option<String>) -> (r: Result<Vec<String>, String>)
    ensures
        match r {
            Ok(v) => {
                &&& texts(v@) == links(split(text@, Class::Space))
                &&& v@.len() > 0
                &&& text_of(*cookies) matches Some(b) ==> supported(b)
            },
            Err(e) => if links(split(text@, Class::Space)).len() == 0 {
                e@ == "沒看到網址。貼上影片或音樂的連結，一行一個。"@
            } else {
                text_of(*cookies) matches Some(b) && !supported(b) && e@ == "不認得的瀏覽器："@ + b
            },
        },
{
    let pieces = split_text(text, Class::Space);
    let mut out: Vec<String> = Vec::new();
    let mut i: usize = 0;
    while i < pieces.len()
        invariant
            texts(pieces@) == split(text@, Class::Space),
            i <= pieces@.len(),
            texts(out@) == links(texts(pieces@).take(i as int)),
        decreases pieces@.len() - i,
    {
        proof {
            let t = texts(pieces@).take(i + 1);
            assert(t.drop_last() =~= texts(pieces@).take(i as int));
            assert(t.last() == pieces@[i as int]@);
        }
        let s = trim(pieces[i].as_str());
        if has_prefix(s, "http") {
            push_text(&mut out, trim_class_end(s, Class::OneOf(")],。")));
        }
        i += 1;
    }
    proof {
        assert(texts(pieces@).take(i as int) =~= texts(pieces@));
        assert(texts(out@).len() == out@.len());
    }
    if out.len() == 0 {
        return Err("沒看到網址。貼上影片或音樂的連結，一行一個。".to_owned());
    }
    if let Some(b) = cookies {
        if !is_supported(b.as_str()) {
            return Err(cat("不認得的瀏覽器：", b.as_str()));
        }
    }
    Ok(out)
}

/// The preparation of the programs as the window is told of it.
#[derive(Debug)]
pub struct SetupEvent {
    /// `progress`, `done` or `failed`.
    pub stage: String,
    pub tool: String,
    pub bytes: u64,
    pub total: u64,
    pub error: Option<String>,
}

/// What the window is told of an event of the preparation; nothing of any other
/// event.
pub fn setup_event(e: &Event) -> (r: Option<SetupEvent>)
    ensures
        match e {
            Event::Setup { tool, bytes, total } => r matches Some(s) && s.stage@ == "progress"@
                && s.tool@ == tool@ && s.bytes == bytes && s.total == total && s.error is None,
            Event::SetupDone => r matches Some(s) && s.stage@ == "done"@ && s.tool@.len() == 0
                && s.bytes == 0 && s.total == 0 && s.error is None,
            Event::SetupFailed { error } => r matches Some(s) && s.stage@ == "failed"@ && s.tool@.len()
                == 0 && s.bytes == 0 && s.total == 0 && text_of(s.error) == Some(error@),
            Event::Item(_) => r is None,
        },
{
    match e {
        Event::Setup { tool, bytes, total } => Some(
            SetupEvent {
                stage: "progress".to_owned(),
                tool: tool.as_str().to_owned(),
                bytes: *bytes,
                total: *total,
                error: None,
            },
        ),
        Event::SetupDone => Some(
            SetupEvent {
                stage: "done".to_owned(),
                tool: String::new(),
                bytes: 0,
                total: 0,
                error: None,
            },
        ),
        Event::SetupFailed { error } => Some(
            SetupEvent {
                stage: "failed".to_owned(),
                tool: String::new(),
                bytes: 0,
                total: 0,
                error: Some(error.as_str().to_owned()),
            },
        ),
        Event::Item(_) => None,
    }
}

/// The bytes of a picture for the window.
pub fn thumb(bytes: &[u8]) -> (r: String)
    ensures
        r@ == base64_encoded(bytes@),
        crate::codec::base64_decoded(r@) == Some(bytes@),
{
    encode(bytes)
}

/// The bytes of a sound file for the window, unless it is too large for a chime.
pub fn read_audio(bytes: &[u8]) -> (r: Result<String, String>)
    ensures
        match r {
            Ok(s) => bytes@.len() <= MAX_CHIME_BYTES && s@ == base64_encoded(bytes@)
                && crate::codec::base64_decoded(s@) == Some(bytes@),
            Err(e) => bytes@.len() > MAX_CHIME_BYTES && e@ == "音檔太大（上限 8 MB）"@,
        },
{
    if bytes.len() > MAX_CHIME_BYTES {
        return Err("音檔太大（上限 8 MB）".to_owned());
    }
    Ok(encode(bytes))
}

/// The path that a dialog of the system printed; nothing where it was
/// cancelled.
pub fn picked(stdout: &[u8]) -> (r: Option<String>)
    ensures
        text_of(r) == (if trimmed(utf8_lossy(stdout@)).len() > 0 {
            Some(trimmed(utf8_lossy(stdout@)))
        } else {
            None
        }),
{
    let text = lossy(stdout);
    let path = trim(text.as_str());
    if path.unicode_len() > 0 {
        Some(path.to_owned())
    } else {
        None
    }
}

/// Whether a sound file will do for the chime. `decoded` is what came of
/// decoding it.
pub fn verify_audio(is_file: bool, decoded: Result<(), String>) -> (r: Result<(), String>)
    ensures
        match r {
            Ok(_) => is_file && decoded is Ok,
            Err(e) => if !is_file {
                e@ == "找不到這個檔案"@
            } else {
                decoded matches Err(why) && e@ == "這個檔案不能當提示音："@ + why@
            },
        },
{
    if !is_file {
        return Err("找不到這個檔案".to_owned());
    }
    match decoded {
        Ok(_) => Ok(()),
        Err(why) => Err(cat("這個檔案不能當提示音：", why.as_str())),
    }
}

/// A link that was pasted is taken without the punctuation behind it, in its order;
/// anything else is passed over.
pub proof fn law_pasted_links_are_taken(pieces: Seq<Seq<char>>, s: Seq<char>, mark: char)
    requires
        s.len() > 0,
        forall|i: int| 0 <= i < s.len() ==> !crate::text::white(#[trigger] s[i]),
        s.last() != ')' && s.last() != ']' && s.last() != ',' && s.last() != '。',
        mark == ')' || mark == ']' || mark == ',' || mark == '。',
    ensures
        starts_with(s, "http"@) ==> links(pieces.push(s)) == links(pieces).push(s),
        starts_with(s, "http"@) ==> links(pieces.push(s.push(mark))) == links(pieces).push(s),
        !starts_with(s, "http"@) ==> links(pieces.push(s)) == links(pieces),
{
    reveal_strlit(")],。");
    reveal_strlit("http");
    let k = Class::OneOf(")],。");
    assert(pieces.push(s).drop_last() =~= pieces);
    let t = s.push(mark);
    assert(pieces.push(t).drop_last() =~= pieces);
    crate::text::lemma_trimmed_same(s);
    assert(")],。"@.contains(mark)) by {
        assert(")],。"@[0] == ')' && ")],。"@[1] == ']' && ")],。"@[2] == ',' && ")],。"@[3] == '。');
    }
    crate::text::lemma_after_last_is(s, k, false, s.len() as int);
    assert(s.take(s.len() as int) =~= s);
    assert forall|i: int| 0 <= i < t.len() implies !crate::text::white(#[trigger] t[i]) by {
        if i < s.len() {
            assert(t[i] == s[i]);
        }
    }
    crate::text::lemma_trimmed_same(t);
    crate::text::lemma_after_last_is(t, k, false, s.len() as int);
    assert(t.take(s.len() as int) =~= s);
    if starts_with(s, "http"@) {
        assert(t.take(4) =~= s.take(4));
    }
}

/// A chime may have eight megabytes.
pub proof fn law_chimes_are_small()
    ensures
        MAX_CHIME_BYTES == 8 * 1024 * 1024,
{
}

/// Nothing comes of nothing.
pub proof fn law_no_pieces_give_no_links()
    ensures
        links(seq![]).len() == 0,
{
}

} // verus!
