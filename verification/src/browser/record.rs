//! Recording the picture and the sound of one tab.
//!
//! The tab captures itself: a script put into it calls `getDisplayMedia` with
//! `preferCurrentTab`, and the browser was started so that it agrees without
//! asking. A page that is left kills the recorder, so the script stops on
//! `pagehide` and what has arrived by then is kept.

use vstd::prelude::*;
use crate::browser::cdp::CdpEvent;
use crate::clock::{Duration, Instant};
use crate::codec::{base64_decoded, decode};
use crate::json::{json_read, read, Json, JsonView};
use crate::number::{
    decimal, law_decimal_reads_back, lemma_decimal, parse, parsed, to_decimal, value,
};
use crate::text::{
    cat, cat3, contains, digit, ends_with, find, first, first_line, first_words, followed, has_text,
    head, index_of, lemma_contained_somewhere, lemma_contains_at, lemma_first_is, lemma_index_of,
    lemma_index_of_is, lemma_trimmed_same, lines, listed, push_text, replace, replaced, same,
    starts_with, str_of, tail, text_of, texts, trim, trimmed, white, Class,
};

verus! {

/// Why a recording ended.
#[derive(Debug, Clone, Copy, PartialEq, Eq, Structural)]
pub enum Stop {
    User,
    MediaEnded,
    MaxDuration,
}

/// When a recording ends: the user says so, the limit is reached, or the media
/// has been quiet for a while. Quiet counts only after something has played,
/// since the user may not have pressed play yet.
#[derive(Debug)]
pub struct StopWhen {
    start: Instant,
    max: Duration,
    user: bool,
    ever_played: bool,
    quiet_since: Option<Instant>,
}

/// What is known of a recording that decides its end.
pub struct StopWhenView {
    pub start: Instant,
    pub max: Duration,
    pub user: bool,
    pub ever_played: bool,
    pub quiet_since: Option<Instant>,
}

impl View for StopWhen {
    type V = StopWhenView;

    closed spec fn view(&self) -> StopWhenView {
        StopWhenView {
            start: self.start,
            max: self.max,
            user: self.user,
            ever_played: self.ever_played,
            quiet_since: self.quiet_since,
        }
    }
}

impl StopWhenView {
    /// After a report on whether media is playing.
    pub open spec fn told(self, playing: bool, now: Instant) -> StopWhenView {
        if playing {
            StopWhenView { ever_played: true, quiet_since: None, ..self }
        } else if self.ever_played && self.quiet_since is None {
            StopWhenView { quiet_since: Some(now), ..self }
        } else {
            self
        }
    }

    /// Whether it is time to stop, and why.
    pub open spec fn due(self, now: Instant) -> Option<Stop> {
        if self.user {
            Some(Stop::User)
        } else if now.since(self.start).nanos >= self.max.nanos {
            Some(Stop::MaxDuration)
        } else {
            match self.quiet_since {
                Some(q) => if now.since(q).nanos >= StopWhen::QUIET * 1_000_000_000 {
                    Some(Stop::MediaEnded)
                } else {
                    None
                },
                None => None,
            }
        }
    }
}

impl StopWhen {
    /// The seconds of quiet that end a recording.
    pub const QUIET: u64 = 5;

    pub fn new(now: Instant, max: Duration) -> (r: StopWhen)
        ensures
            r@ == (StopWhenView {
                start: now,
                max,
                user: false,
                ever_played: false,
                quiet_since: None,
            }),
    {
        StopWhen { start: now, max, user: false, ever_played: false, quiet_since: None }
    }

    pub fn user_stopped(&mut self)
        ensures
            final(self)@ == (StopWhenView { user: true, ..old(self)@ }),
    {
        self.user = true;
    }

    /// Takes the page's report on whether media is playing.
    pub fn playing(&mut self, playing: bool, now: Instant)
        ensures
            final(self)@ == old(self)@.told(playing, now),
    {
        if playing {
            self.ever_played = true;
            self.quiet_since = None;
        } else if self.ever_played && self.quiet_since.is_none() {
            self.quiet_since = Some(now);
        }
    }

    pub fn check(&mut self, now: Instant) -> (r: Option<Stop>)
        ensures
            *final(self) == *old(self),
            r == old(self)@.due(now),
    {
        if self.user {
            return Some(Stop::User);
        }
        if now.duration_since(self.start).nanos >= self.max.nanos {
            return Some(Stop::MaxDuration);
        }
        match self.quiet_since {
            Some(q) => if now.duration_since(q).nanos >= StopWhen::QUIET as u128 * 1_000_000_000 {
                Some(Stop::MediaEnded)
            } else {
                None
            },
            None => None,
        }
    }
}

/// The seconds in the unit of that letter.
pub open spec fn unit_secs(c: char) -> Option<nat> {
    if c == 'h' {
        Some(3600)
    } else if c == 'm' {
        Some(60)
    } else if c == 's' {
        Some(1)
    } else {
        None
    }
}

/// The seconds that a row of amounts with units stands for, such as `1h30m`.
pub open spec fn units_total(s: Seq<char>) -> Option<nat>
    decreases s.len(),
{
    let n = first(s, Class::Digit, false);
    if s.len() == 0 {
        Some(0)
    } else if 0 < n < s.len() {
        match (unit_secs(s[n]), units_total(s.skip(n + 1))) {
            (Some(u), Some(rest)) => Some(value(s.take(n)) * u + rest),
            _ => None,
        }
    } else {
        None
    }
}

/// The seconds that a span of time is written for: a bare number, or amounts
/// with units.
pub open spec fn span_secs(s: Seq<char>) -> Option<nat> {
    match parsed(trimmed(s), u64::MAX as nat) {
        Some(n) => Some(n),
        None => units_total(trimmed(s)),
    }
}

/// Reads `90`, `90s`, `30m`, `2h` or `1h30m`. Nothing comes of what cannot be
/// read, of zero, or of more seconds than can be counted.
pub fn parse_duration(s: &str) -> (r: Option<Duration>)
    ensures
        match span_secs(s@) {
            Some(n) => if 0 < n <= u64::MAX {
                r == Some(Duration::secs(n as int))
            } else {
                r is None
            },
            None => r is None,
        },
{
    let t = trim(s);
    if let Some(n) = parse(t, u64::MAX) {
        return if n > 0 {
            Some(Duration::from_secs(n))
        } else {
            None
        };
    }
    let mut total: u64 = 0;
    let mut rest = t;
    while rest.unicode_len() > 0
        invariant
            span_secs(s@) == units_total(t@),
            match units_total(rest@) {
                Some(m) => units_total(t@) == Some((total + m) as nat),
                None => units_total(t@) is None,
            },
        decreases rest@.len(),
    {
        let n: usize = find(rest, Class::Digit, false);
        let len: usize = rest.unicode_len();
        if n == 0 || n == len {
            return None;
        }
        proof {
            crate::text::lemma_first(rest@, Class::Digit, false);
            let d = rest@.take(n as int);
            assert forall|j: int| 0 <= j < d.len() implies crate::text::digit(#[trigger] d[j]) by {
                assert(d[j] == rest@[j]);
            }
            assert(d.len() > 0);
            assert(crate::text::digit(d[0]));
        }
        let c = rest.get_char(n);
        let unit: u64 = if c == 'h' {
            3600
        } else if c == 'm' {
            60
        } else if c == 's' {
            1
        } else {
            return None;
        };
        let ghost whole = rest@;
        let amount = parse(head(rest, n), u64::MAX);
        rest = tail(rest, n + 1);
        match amount {
            Some(a) => {
                let sum: u128 = a as u128 * unit as u128 + total as u128;
                proof {
                    assert(a as u128 * unit as u128 + total as u128 == value(
                        whole.take(n as int),
                    ) * unit_secs(whole[n as int])->0 + total);
                }
                if sum > u64::MAX as u128 {
                    return None;
                }
                total = sum as u64;
            },
            None => {
                proof {
                    assert(value(whole.take(n as int)) > u64::MAX);
                    assert(value(whole.take(n as int)) * unit as nat >= value(whole.take(n as int)))
                        by (nonlinear_arith)
                        requires
                            unit >= 1,
                    ;
                }
                return None;
            },
        }
    }
    if total > 0 {
        Some(Duration::from_secs(total))
    } else {
        None
    }
}

/// The script that records a tab from inside. `{{MIME}}` and `{{AUDIO_ONLY}}`
/// stand for what is filled in before it is used. It leaves two names behind in
/// the page, `haulStop` and `__haulWatch`.
pub const RECORD_JS: &'static str = r#"(async () => {
  const send = o => { try { window.haulRec(JSON.stringify(o)); } catch (_) {} };
  try {
    const stream = await navigator.mediaDevices.getDisplayMedia({
      video: { frameRate: 30 }, audio: true, preferCurrentTab: true,
    });
    const audioOnly = {{AUDIO_ONLY}};
    const src = audioOnly ? new MediaStream(stream.getAudioTracks()) : stream;
    if (audioOnly && src.getAudioTracks().length === 0) throw new Error('分頁沒有聲音軌');
    const rec = new MediaRecorder(src, { mimeType: '{{MIME}}', videoBitsPerSecond: 6e6, audioBitsPerSecond: 160e3 });
    rec.ondataavailable = async e => {
      if (!e.data || !e.data.size) return;
      const buf = new Uint8Array(await e.data.arrayBuffer());
      let bin = '';
      for (let i = 0; i < buf.length; i += 0x8000) bin += String.fromCharCode.apply(null, buf.subarray(i, i + 0x8000));
      send({ type: 'chunk', data: btoa(bin) });
    };
    rec.onstop = () => { clearInterval(window.__haulWatch); stream.getTracks().forEach(t => t.stop()); send({ type: 'stopped' }); };
    rec.onerror = e => send({ type: 'error', message: String(e.error || e) });
    const stop = () => { if (rec.state !== 'inactive') rec.stop(); };
    // Chrome 藍條上的「停止分享」會結束 track；那也是合法的停止
    stream.getVideoTracks()[0].onended = stop;
    // 換頁會殺掉這裡的一切：先停，讓最後一個 chunk 送出去
    window.addEventListener('pagehide', stop);
    window.haulStop = stop;
    // 每秒回報有沒有媒體在播，給「播完自動停」用。
    // 跨網域 iframe 裡的播放器看不到 —— 那種情況只剩使用者停止與上限
    window.__haulWatch = setInterval(() => {
      const m = [...document.querySelectorAll('video,audio')];
      const playing = m.some(x => !x.paused && !x.ended && x.readyState > 2);
      send({ type: 'playing', playing, count: m.length });
    }, 1000);
    rec.start(1000);
    send({ type: 'started' });
  } catch (e) {
    send({ type: 'error', message: String(e && e.message || e) });
  }
})()"#;

/// The recording script with its blanks filled in.
pub open spec fn script(mime: Seq<char>, audio_only: bool) -> Seq<char> {
    replaced(
        replaced(RECORD_JS@, "{{MIME}}"@, mime),
        "{{AUDIO_ONLY}}"@,
        if audio_only {
            "true"@
        } else {
            "false"@
        },
    )
}

pub fn record_js(mime: &str, audio_only: bool) -> (r: String)
    ensures
        r@ == script(mime@, audio_only),
{
    proof {
        reveal_strlit("{{MIME}}");
        reveal_strlit("{{AUDIO_ONLY}}");
    }
    let with_mime = replace(RECORD_JS, "{{MIME}}", mime);
    let flag = if audio_only {
        "true"
    } else {
        "false"
    };
    replace(with_mime.as_str(), "{{AUDIO_ONLY}}", flag)
}

/// The format to record in: the first of the preferred ones that the browser
/// offers. With H.264 the picture needs no second encoding.
pub open spec fn picked(audio_only: bool, supported: Seq<Seq<char>>) -> Option<Seq<char>> {
    if audio_only {
        if supported.contains("audio/webm;codecs=opus"@) {
            Some("audio/webm;codecs=opus"@)
        } else {
            None
        }
    } else if supported.contains("video/webm;codecs=h264,opus"@) {
        Some("video/webm;codecs=h264,opus"@)
    } else if supported.contains("video/webm;codecs=vp9,opus"@) {
        Some("video/webm;codecs=vp9,opus"@)
    } else if supported.contains("video/webm;codecs=vp8,opus"@) {
        Some("video/webm;codecs=vp8,opus"@)
    } else {
        None
    }
}

pub fn pick_mime(audio_only: bool, supported: &[String]) -> (r: Option<String>)
    ensures
        text_of(r) == picked(audio_only, texts(supported@)),
{
    if audio_only {
        if listed(supported, "audio/webm;codecs=opus") {
            return Some("audio/webm;codecs=opus".to_owned());
        }
        return None;
    }
    if listed(supported, "video/webm;codecs=h264,opus") {
        return Some("video/webm;codecs=h264,opus".to_owned());
    }
    if listed(supported, "video/webm;codecs=vp9,opus") {
        return Some("video/webm;codecs=vp9,opus".to_owned());
    }
    if listed(supported, "video/webm;codecs=vp8,opus") {
        return Some("video/webm;codecs=vp8,opus".to_owned());
    }
    None
}

/// The expression that asks the browser which formats it can record. It gives a
/// JSON list as text.
pub const SUPPORTED_JS: &'static str = r#"JSON.stringify(['video/webm;codecs=h264,opus','video/webm;codecs=vp9,opus','video/webm;codecs=vp8,opus','audio/webm;codecs=opus'].filter(m => MediaRecorder.isTypeSupported(m)))"#;

pub open spec fn recorded_ext(audio_only: bool) -> Seq<char> {
    if audio_only {
        "m4a"@
    } else {
        "mp4"@
    }
}

pub fn output_ext(audio_only: bool) -> (r: &'static str)
    ensures
        r@ == recorded_ext(audio_only),
{
    if audio_only {
        "m4a"
    } else {
        "mp4"
    }
}

/// How a recording is put into its final container. H.264 is copied, any other
/// picture is encoded again; the sound always becomes AAC.
pub open spec fn remux_line(audio_only: bool, mime: Seq<char>) -> Seq<Seq<char>> {
    if audio_only {
        seq!["-vn"@, "-c:a"@, "aac"@, "-b:a"@, "192k"@]
    } else {
        (if contains(mime, "h264"@) {
            seq!["-c:v"@, "copy"@]
        } else {
            seq![
                "-c:v"@,
                "libx264"@,
                "-preset"@,
                "veryfast"@,
                "-crf"@,
                "23"@,
                "-pix_fmt"@,
                "yuv420p"@,
            ]
        }) + seq!["-c:a"@, "aac"@, "-b:a"@, "160k"@, "-movflags"@, "+faststart"@]
    }
}

pub fn remux_args(audio_only: bool, mime: &str) -> (r: Vec<String>)
    ensures
        texts(r@) == remux_line(audio_only, mime@),
{
    let mut a: Vec<String> = Vec::new();
    if audio_only {
        push_text(&mut a, "-vn");
        push_text(&mut a, "-c:a");
        push_text(&mut a, "aac");
        push_text(&mut a, "-b:a");
        push_text(&mut a, "192k");
    } else {
        if has_text(mime, "h264") {
            push_text(&mut a, "-c:v");
            push_text(&mut a, "copy");
        } else {
            push_text(&mut a, "-c:v");
            push_text(&mut a, "libx264");
            push_text(&mut a, "-preset");
            push_text(&mut a, "veryfast");
            push_text(&mut a, "-crf");
            push_text(&mut a, "23");
            push_text(&mut a, "-pix_fmt");
            push_text(&mut a, "yuv420p");
        }
        push_text(&mut a, "-c:a");
        push_text(&mut a, "aac");
        push_text(&mut a, "-b:a");
        push_text(&mut a, "160k");
        push_text(&mut a, "-movflags");
        push_text(&mut a, "+faststart");
    }
    proof {
        assert(texts(a@) =~= remux_line(audio_only, mime@));
    }
    a
}

/// The whole command line of the remuxer.
pub fn remux_command(src: &str, dest: &str, audio_only: bool, mime: &str) -> (r: Vec<String>)
    ensures
        texts(r@) == seq!["-v"@, "error"@, "-nostdin"@, "-y"@, "-i"@, src@] + remux_line(
            audio_only,
            mime@,
        ) + seq![dest@],
{
    let mut a: Vec<String> = Vec::new();
    push_text(&mut a, "-v");
    push_text(&mut a, "error");
    push_text(&mut a, "-nostdin");
    push_text(&mut a, "-y");
    push_text(&mut a, "-i");
    push_text(&mut a, src);
    let mut rest = remux_args(audio_only, mime);
    let ghost before = a@;
    a.append(&mut rest);
    proof {
        assert(texts(a@) =~= texts(before) + remux_line(audio_only, mime@));
    }
    push_text(&mut a, dest);
    proof {
        assert(texts(a@) =~= seq!["-v"@, "error"@, "-nostdin"@, "-y"@, "-i"@, src@] + remux_line(
            audio_only,
            mime@,
        ) + seq![dest@]);
    }
    a
}

/// The words for a remuxer that failed, given what it wrote to its error stream.
pub fn remux_error(stderr: &str) -> (r: String)
    ensures
        r@ == "錄製轉檔失敗："@ + first_words(lines(stderr@)),
{
    cat("錄製轉檔失敗：", first_line(stderr).as_str())
}

/// A recording that came to its end.
#[derive(Debug)]
pub struct Recorded {
    pub stop: Stop,
    pub bytes: u64,
    pub secs: u64,
    pub mime: String,
    pub title: String,
}

/// The milliseconds that a page gets before the script is put into it. A page
/// with a live stream never finishes loading, so it is not waited for.
pub const SETTLE: u64 = 1500;

/// The seconds within which the page has to report that the capture began.
pub const START_TIMEOUT: u64 = 15;

/// What to do next while a recording runs.
#[derive(Debug, Clone, Copy, PartialEq, Eq, Structural)]
pub enum Turn {
    /// The capture never began.
    TimedOut,
    /// Tell the page to stop; its last data and its farewell follow.
    TellPage,
    /// Wait for what happens next.
    Wait,
}

/// What an event asks for.
#[derive(Debug)]
pub enum Act {
    Nothing,
    /// Write these bytes to the file.
    Write(Vec<u8>),
    /// The recording is over.
    Finish,
    Fail(String),
}

/// What an act says.
#[verifier::ext_equal]
pub enum ActView {
    Nothing,
    Write(Seq<u8>),
    Finish,
    Fail(Seq<char>),
}

impl View for Act {
    type V = ActView;

    open spec fn view(&self) -> ActView {
        match self {
            Act::Nothing => ActView::Nothing,
            Act::Write(v) => ActView::Write(v@),
            Act::Finish => ActView::Finish,
            Act::Fail(s) => ActView::Fail(s@),
        }
    }
}

/// A recording while it runs.
pub struct Recording {
    when: StopWhen,
    start: Instant,
    bytes: u64,
    started: bool,
    outcome: Option<Stop>,
    told_page: bool,
}

/// What is known of a running recording.
#[verifier::ext_equal]
pub struct RecordingView {
    pub when: StopWhenView,
    pub start: Instant,
    pub bytes: u64,
    pub started: bool,
    pub outcome: Option<Stop>,
    pub told_page: bool,
}

impl View for Recording {
    type V = RecordingView;

    closed spec fn view(&self) -> RecordingView {
        RecordingView {
            when: self.when@,
            start: self.start,
            bytes: self.bytes,
            started: self.started,
            outcome: self.outcome,
            told_page: self.told_page,
        }
    }
}

/// A byte count after `n` more bytes, as far as it can be counted.
pub open spec fn counted(bytes: u64, n: nat) -> u64 {
    if bytes + n <= u64::MAX {
        (bytes + n) as u64
    } else {
        u64::MAX
    }
}

impl RecordingView {
    /// The reason to stop at `now`: the first one that ever held.
    pub open spec fn reason(self, now: Instant) -> Option<Stop> {
        match self.outcome {
            Some(s) => Some(s),
            None => self.when.due(now),
        }
    }

    pub open spec fn timed_out(self, now: Instant) -> bool {
        !self.started && now.since(self.start).nanos > START_TIMEOUT * 1_000_000_000
    }

    /// What comes next at `now`, and the recording after it.
    pub open spec fn turned(self, now: Instant) -> (Turn, RecordingView) {
        let s = RecordingView { outcome: self.reason(now), ..self };
        if s.timed_out(now) {
            (Turn::TimedOut, s)
        } else if s.outcome is Some && !s.told_page {
            (Turn::TellPage, RecordingView { told_page: true, ..s })
        } else {
            (Turn::Wait, s)
        }
    }

    /// The end of a recording that was not ordered to end: someone else
    /// stopped it.
    pub open spec fn ended(self) -> RecordingView {
        RecordingView {
            outcome: match self.outcome {
                Some(s) => Some(s),
                None => Some(Stop::User),
            },
            ..self
        }
    }

    /// What a message of the page's script asks for, and the recording after it.
    pub open spec fn heard(self, msg: JsonView, now: Instant) -> (ActView, RecordingView) {
        match msg.text_at("type"@) {
            Some(t) => if t == "started"@ {
                (ActView::Nothing, RecordingView { started: true, ..self })
            } else if t == "chunk"@ {
                self.fed(chunk(msg))
            } else if t == "playing"@ {
                (
                    ActView::Nothing,
                    RecordingView {
                        when: self.when.told(msg.at("playing"@) == JsonView::Bool(true), now),
                        ..self
                    },
                )
            } else if t == "stopped"@ {
                (ActView::Finish, self.ended())
            } else if t == "error"@ {
                (
                    ActView::Fail(
                        "錄製失敗："@ + match msg.text_at("message"@) {
                            Some(m) => m,
                            None => "?"@,
                        },
                    ),
                    self,
                )
            } else {
                (ActView::Nothing, self)
            },
            None => (ActView::Nothing, self),
        }
    }

    /// After a piece of the recording has arrived.
    pub open spec fn fed(self, data: Seq<u8>) -> (ActView, RecordingView) {
        (
            ActView::Write(data),
            RecordingView { bytes: counted(self.bytes, data.len()), ..self },
        )
    }

    /// What an event of the browser asks for, and the recording after it.
    pub open spec fn saw(
        self,
        event: CdpEvent,
        session: Seq<char>,
        target: Seq<char>,
        now: Instant,
    ) -> (ActView, RecordingView) {
        if event.method@ == "Runtime.bindingCalled"@ && text_of(event.session_id) == Some(session) {
            match json_read(payload(event.params@)) {
                Ok(msg) => self.heard(msg, now),
                Err(_) => (ActView::Nothing, self),
            }
        } else if event.method@ == "Target.targetDestroyed"@ && event.params@.text_at("targetId"@)
            == Some(target) {
            (ActView::Finish, self.ended())
        } else {
            (ActView::Nothing, self)
        }
    }
}

/// What the page's script sent, as text.
pub open spec fn payload(params: JsonView) -> Seq<char> {
    match params.text_at("payload"@) {
        Some(p) => p,
        None => ""@,
    }
}

/// The bytes that a message carries; none where they cannot be read.
pub open spec fn chunk(msg: JsonView) -> Seq<u8> {
    match base64_decoded(
        match msg.text_at("data"@) {
            Some(d) => d,
            None => ""@,
        },
    ) {
        Some(b) => b,
        None => seq![],
    }
}

impl Recording {
    pub fn new(now: Instant, max: Duration) -> (r: Recording)
        ensures
            r@ == (RecordingView {
                when: StopWhenView {
                    start: now,
                    max,
                    user: false,
                    ever_played: false,
                    quiet_since: None,
                },
                start: now,
                bytes: 0,
                started: false,
                outcome: None,
                told_page: false,
            }),
    {
        Recording {
            when: StopWhen::new(now, max),
            start: now,
            bytes: 0,
            started: false,
            outcome: None,
            told_page: false,
        }
    }

    /// What comes next at `now`.
    pub fn turn(&mut self, now: Instant) -> (r: Turn)
        ensures
            (r, final(self)@) == old(self)@.turned(now),
    {
        if self.outcome.is_none() {
            self.outcome = self.when.check(now);
        }
        if !self.started && now.duration_since(self.start).nanos > START_TIMEOUT as u128
            * 1_000_000_000 {
            return Turn::TimedOut;
        }
        if self.outcome.is_some() && !self.told_page {
            self.told_page = true;
            return Turn::TellPage;
        }
        Turn::Wait
    }

    /// Takes the user's wish to stop.
    pub fn user_stopped(&mut self)
        ensures
            final(self)@ == (RecordingView {
                when: StopWhenView { user: true, ..old(self)@.when },
                ..old(self)@
            }),
    {
        self.when.user_stopped();
    }

    /// Takes a piece of the recording in.
    pub fn feed(&mut self, data: Vec<u8>) -> (r: Act)
        ensures
            (r@, final(self)@) == old(self)@.fed(data@),
    {
        let n: u64 = data.len() as u64;
        if self.bytes <= u64::MAX - n {
            self.bytes += n;
        } else {
            self.bytes = u64::MAX;
        }
        Act::Write(data)
    }

    /// Takes a parsed message of the page's script in.
    pub fn hear(&mut self, msg: &Json, now: Instant) -> (r: Act)
        ensures
            (r@, final(self)@) == old(self)@.heard(msg@, now),
    {
        let kind = match msg.text_at("type") {
            Some(t) => t,
            None => {
                return Act::Nothing;
            },
        };
        if same(kind, "started") {
            self.started = true;
            return Act::Nothing;
        }
        if same(kind, "chunk") {
            let text = match msg.text_at("data") {
                Some(d) => d,
                None => "",
            };
            let data = match decode(text) {
                Some(b) => b,
                None => Vec::new(),
            };
            proof {
                assert(data@ =~= chunk(msg@));
            }
            return self.feed(data);
        }
        if same(kind, "playing") {
            let playing = match msg.get("playing") {
                Some(Json::Bool(b)) => *b,
                _ => false,
            };
            self.when.playing(playing, now);
            return Act::Nothing;
        }
        if same(kind, "stopped") {
            return self.end();
        }
        if same(kind, "error") {
            let words = match msg.text_at("message") {
                Some(m) => m,
                None => "?",
            };
            return Act::Fail(cat("錄製失敗：", words));
        }
        Act::Nothing
    }

    fn end(&mut self) -> (r: Act)
        ensures
            r@ == ActView::Finish,
            final(self)@ == old(self)@.ended(),
    {
        if self.outcome.is_none() {
            self.outcome = Some(Stop::User);
        }
        Act::Finish
    }

    /// Takes an event of the browser in. `session` and `target` are the tab's.
    pub fn see(&mut self, event: &CdpEvent, session: &str, target: &str, now: Instant) -> (r: Act)
        ensures
            (r@, final(self)@) == old(self)@.saw(*event, session@, target@, now),
    {
        let own = match &event.session_id {
            Some(s) => same(s.as_str(), session),
            None => false,
        };
        if same(event.method.as_str(), "Runtime.bindingCalled") && own {
            let text = match event.params.text_at("payload") {
                Some(p) => p,
                None => "",
            };
            return match read(text) {
                Ok(msg) => self.hear(&msg, now),
                Err(_) => Act::Nothing,
            };
        }
        if same(event.method.as_str(), "Target.targetDestroyed") {
            if let Some(id) = event.params.text_at("targetId") {
                if same(id, target) {
                    return self.end();
                }
            }
        }
        Act::Nothing
    }

    /// The bytes so far and the whole seconds that the recording has lasted.
    pub fn progress(&self, now: Instant) -> (r: (u64, u64))
        ensures
            r.0 == self@.bytes,
            r.1 == now.since(self@.start).whole_secs(),
    {
        (self.bytes, now.duration_since(self.start).as_secs())
    }

    /// The result of a recording that is over. One without a single byte has
    /// failed.
    pub fn finish(self, now: Instant, mime: String, title: String) -> (r: Result<Recorded, String>)
        ensures
            match r {
                Ok(done) => {
                    &&& self@.bytes > 0
                    &&& done.stop == (match self@.outcome {
                        Some(s) => s,
                        None => Stop::User,
                    })
                    &&& done.bytes == self@.bytes
                    &&& done.secs == now.since(self@.start).whole_secs()
                    &&& done.mime@ == mime@
                    &&& done.title@ == title@
                },
                Err(e) => self@.bytes == 0 && e@ == "什麼都沒錄到"@,
            },
    {
        if self.bytes == 0 {
            return Err("什麼都沒錄到".to_owned());
        }
        let stop = match self.outcome {
            Some(s) => s,
            None => Stop::User,
        };
        Ok(
            Recorded {
                stop,
                bytes: self.bytes,
                secs: now.duration_since(self.start).as_secs(),
                mime,
                title,
            },
        )
    }
}

/// The words for a capture that never began.
pub fn start_error() -> (r: String)
    ensures
        r@ == "錄製沒有開始（"@ + decimal(START_TIMEOUT as nat) + "秒內沒收到擷取成功的回報）"@,
{
    cat3(
        "錄製沒有開始（",
        to_decimal(START_TIMEOUT).as_str(),
        "秒內沒收到擷取成功的回報）",
    )
}

/// The identifier of that name in a reply, or the words for a reply without it.
pub fn reply_id(reply: &Json, key: &str) -> (r: Result<String, String>)
    ensures
        match (r, reply@.text_at(key@)) {
            (Ok(s), Some(t)) => s@ == t,
            (Err(e), None) => e@ == "沒有 "@ + key@,
            _ => false,
        },
{
    match reply.text_at(key) {
        Some(s) => Ok(s.to_owned()),
        None => Err(cat("沒有 ", key)),
    }
}

/// The text that an evaluated expression gave.
pub open spec fn evaluated(reply: JsonView) -> Option<Seq<char>> {
    reply.at("result"@).text_at("value"@)
}

pub fn eval_text(reply: &Json) -> (r: Option<String>)
    ensures
        text_of(r) == evaluated(reply@),
{
    match reply.get("result") {
        Some(inner) => match inner.text_at("value") {
            Some(s) => Some(s.to_owned()),
            None => None,
        },
        None => None,
    }
}

/// The formats in the browser's answer to `SUPPORTED_JS`: the members of a JSON
/// list of texts, none where it is anything else.
pub fn supported_formats(text: Option<&str>) -> (r: Vec<String>)
    ensures
        match str_of(text) {
            Some(t) => match json_read(t) {
                Ok(j) => if j.is_texts() {
                    &&& r@.len() == j->List_0.len()
                    &&& forall|i: int|
                        0 <= i < r@.len() ==> j->List_0[i] == JsonView::Text(#[trigger] texts(r@)[i])
                } else {
                    r@.len() == 0
                },
                Err(_) => r@.len() == 0,
            },
            None => r@.len() == 0,
        },
{
    if let Some(t) = text {
        if let Ok(j) = read(t) {
            if let Some(v) = j.texts() {
                return v;
            }
        }
    }
    Vec::new()
}

/// A wish of the user ends a recording at once, whatever else holds.
pub proof fn law_user_wins(s: StopWhenView, now: Instant)
    requires
        s.user,
    ensures
        s.due(now) == Some(Stop::User),
{
}

/// Silence ends nothing before something has played: from a fresh start, and
/// with any number of reports of silence, only the limit can be the reason.
pub proof fn law_silence_alone_never_ends(s: StopWhenView, reports: Seq<Instant>, now: Instant)
    requires
        !s.user,
        !s.ever_played,
        s.quiet_since is None,
    ensures
        silent(s, reports).due(now) != Some(Stop::MediaEnded),
        silent(s, reports).due(now) != Some(Stop::User),
{
    lemma_silent(s, reports);
}

/// After reports of silence at the given times.
pub open spec fn silent(s: StopWhenView, reports: Seq<Instant>) -> StopWhenView
    decreases reports.len(),
{
    if reports.len() == 0 {
        s
    } else {
        silent(s, reports.drop_last()).told(false, reports.last())
    }
}

proof fn lemma_silent(s: StopWhenView, reports: Seq<Instant>)
    requires
        !s.ever_played,
        s.quiet_since is None,
    ensures
        silent(s, reports) == s,
    decreases reports.len(),
{
    if reports.len() > 0 {
        lemma_silent(s, reports.drop_last());
    }
}

/// Media that plays again takes the quiet spell back.
pub proof fn law_playing_resets_quiet(s: StopWhenView, now: Instant, later: Instant)
    requires
        !s.user,
    ensures
        s.told(true, now).due(later) != Some(Stop::MediaEnded),
{
}

/// The first reason to stop is kept: no later turn changes it.
pub proof fn law_first_reason_stays(r: RecordingView, now: Instant)
    requires
        r.outcome is Some,
    ensures
        r.turned(now).1.outcome == r.outcome,
        r.ended().outcome == r.outcome,
{
}

/// The page is told to stop once at most.
pub proof fn law_page_is_told_once(r: RecordingView, now: Instant, later: Instant)
    requires
        r.turned(now).0 == Turn::TellPage,
    ensures
        r.turned(now).1.turned(later).0 != Turn::TellPage,
{
}

// What holds of the script. It is read once, character by character: where its
// two blanks are, and where it gives `audioOnly` its value.

/// Whether two braces open at a position of the script.
spec fn braces_at(j: int) -> bool {
    0 <= j < 1865 && RECORD_JS@[j] == '{' && RECORD_JS@[j + 1] == '{'
}

/// Whether a name that ends in `y` is given a value at a position of the script.
spec fn given_at(j: int) -> bool {
    0 <= j < 1863 && RECORD_JS@[j] == 'y' && RECORD_JS@[j + 1] == ' ' && RECORD_JS@[j + 2] == '='
        && RECORD_JS@[j + 3] == ' '
}

#[verifier::rlimit(40)]
proof fn lemma_script_text(j: int)
    ensures
        RECORD_JS@.len() == 1866,
        RECORD_JS@.subrange(251, 269) == "const audioOnly = "@,
        RECORD_JS@.subrange(269, 283) == "{{AUDIO_ONLY}}"@,
        RECORD_JS@[283] == ';',
        RECORD_JS@.subrange(489, 500) == "mimeType: '"@,
        RECORD_JS@.subrange(500, 508) == "{{MIME}}"@,
        RECORD_JS@[508] == '\'',
        braces_at(j) ==> j == 269 || j == 500,
        given_at(j) ==> j == 265,
{
    reveal_strlit(
        r#"(async () => {
  const send = o => { try { window.haulRec(JSON.stringify(o)); } catch (_) {} };
  try {
    const stream = await navigator.mediaDevices.getDisplayMedia({
      video: { frameRate: 30 }, audio: true, preferCurrentTab: true,
    });
    const audioOnly = {{AUDIO_ONLY}};
    const src = audioOnly ? new MediaStream(stream.getAudioTracks()) : stream;
    if (audioOnly && src.getAudioTracks().length === 0) throw new Error('分頁沒有聲音軌');
    const rec = new MediaRecorder(src, { mimeType: '{{MIME}}', videoBitsPerSecond: 6e6, audioBitsPerSecond: 160e3 });
    rec.ondataavailable = async e => {
      if (!e.data || !e.data.size) return;
      const buf = new Uint8Array(await e.data.arrayBuffer());
      let bin = '';
      for (let i = 0; i < buf.length; i += 0x8000) bin += String.fromCharCode.apply(null, buf.subarray(i, i + 0x8000));
      send({ type: 'chunk', data: btoa(bin) });
    };
    rec.onstop = () => { clearInterval(window.__haulWatch); stream.getTracks().forEach(t => t.stop()); send({ type: 'stopped' }); };
    rec.onerror = e => send({ type: 'error', message: String(e.error || e) });
    const stop = () => { if (rec.state !== 'inactive') rec.stop(); };
    // Chrome 藍條上的「停止分享」會結束 track；那也是合法的停止
    stream.getVideoTracks()[0].onended = stop;
    // 換頁會殺掉這裡的一切：先停，讓最後一個 chunk 送出去
    window.addEventListener('pagehide', stop);
    window.haulStop = stop;
    // 每秒回報有沒有媒體在播，給「播完自動停」用。
    // 跨網域 iframe 裡的播放器看不到 —— 那種情況只剩使用者停止與上限
    window.__haulWatch = setInterval(() => {
      const m = [...document.querySelectorAll('video,audio')];
      const playing = m.some(x => !x.paused && !x.ended && x.readyState > 2);
      send({ type: 'playing', playing, count: m.length });
    }, 1000);
    rec.start(1000);
    send({ type: 'started' });
  } catch (e) {
    send({ type: 'error', message: String(e && e.message || e) });
  }
})()"#,
    );
    reveal_strlit("const audioOnly = ");
    reveal_strlit("{{AUDIO_ONLY}}");
    reveal_strlit("mimeType: '");
    reveal_strlit("{{MIME}}");
    assert(RECORD_JS@.subrange(251, 269) =~= "const audioOnly = "@);
    assert(RECORD_JS@.subrange(269, 283) =~= "{{AUDIO_ONLY}}"@);
    assert(RECORD_JS@.subrange(489, 500) =~= "mimeType: '"@);
    assert(RECORD_JS@.subrange(500, 508) =~= "{{MIME}}"@);
}

proof fn lemma_blank_at(j: int, p: Seq<char>)
    requires
        0 <= j < 1866,
        p.len() >= 2,
        p[0] == '{',
        p[1] == '{',
        starts_with(RECORD_JS@.skip(j), p),
    ensures
        j == 269 || j == 500,
        p.len() > 2 ==> RECORD_JS@[j + 2] == p[2],
{
    let t = RECORD_JS@.skip(j);
    lemma_script_text(j);
    assert(t.take(p.len() as int)[0] == p[0] && t.take(p.len() as int)[1] == p[1]);
    assert(RECORD_JS@[j] == t[0] && RECORD_JS@[j + 1] == t[1]);
    assert(braces_at(j));
    if p.len() > 2 {
        assert(t.take(p.len() as int)[2] == p[2]);
        assert(RECORD_JS@[j + 2] == t[2]);
    }
}

proof fn lemma_mime_filled(mime: Seq<char>)
    ensures
        replaced(RECORD_JS@, "{{MIME}}"@, mime) == RECORD_JS@.take(500) + mime + RECORD_JS@.skip(508),
{
    let js = RECORD_JS@;
    let p = "{{MIME}}"@;
    lemma_script_text(0);
    reveal_strlit("{{MIME}}");
    reveal_strlit("{{AUDIO_ONLY}}");
    assert(js.skip(500).take(8) =~= p);
    assert forall|j: int| 0 <= j < 500 implies !starts_with(#[trigger] js.skip(j), p) by {
        if starts_with(js.skip(j), p) {
            lemma_blank_at(j, p);
            assert(js[271] == js.subrange(269, 283)[2]);
        }
    }
    lemma_index_of_is(js, p, 500);
    let rest = js.skip(508);
    lemma_index_of(rest, p);
    if index_of(rest, p) is Some {
        let i = index_of(rest, p)->0;
        assert(rest.skip(i) =~= js.skip(508 + i));
        lemma_blank_at(508 + i, p);
    }
    assert(replaced(rest, p, mime) == rest);
}

proof fn lemma_kept_front(x: Seq<char>, p: Seq<char>, w: Seq<char>)
    requires
        x.len() > 0,
        p.len() > 0,
        x[0] != p[0],
    ensures
        replaced(x, p, w).len() > 0,
        replaced(x, p, w)[0] == x[0],
{
    lemma_index_of(x, p);
    if index_of(x, p) is Some {
        let i = index_of(x, p)->0;
        if i == 0 {
            assert(x.skip(0).take(p.len() as int)[0] == p[0]);
        }
        assert(x.take(i)[0] == x[0]);
    }
}

/// The script begins as it is written, up to the value of `audioOnly` and the
/// sign behind it.
#[verifier::rlimit(40)]
proof fn lemma_script_front(mime: Seq<char>, audio_only: bool)
    ensures
        ({
            let s = script(mime, audio_only);
            let w = if audio_only {
                "true"@
            } else {
                "false"@
            };
            let t = RECORD_JS@.take(500) + mime + RECORD_JS@.skip(508);
            &&& s == RECORD_JS@.take(269) + w + replaced(t.skip(283), "{{AUDIO_ONLY}}"@, w)
            &&& s.len() > 269 + w.len()
            &&& s[269 + w.len() as int] == ';'
        }),
{
    let w = if audio_only {
        "true"@
    } else {
        "false"@
    };
    let p = "{{AUDIO_ONLY}}"@;
    let js = RECORD_JS@;
    let t = js.take(500) + mime + js.skip(508);
    lemma_mime_filled(mime);
    lemma_script_text(0);
    reveal_strlit("{{AUDIO_ONLY}}");
    assert(t.skip(269).take(14) =~= js.subrange(269, 283));
    assert forall|j: int| 0 <= j < 269 implies !starts_with(#[trigger] t.skip(j), p) by {
        if starts_with(t.skip(j), p) {
            assert(js.skip(j).take(14) =~= t.skip(j).take(14));
            lemma_blank_at(j, p);
        }
    }
    lemma_index_of_is(t, p, 269);
    assert(t.take(269) =~= js.take(269));
    assert(t.skip(283)[0] == js[283]);
    lemma_kept_front(t.skip(283), p, w);
}

/// The script says whether the picture is recorded: it declares `audioOnly` with
/// the value that was asked for, whatever the format.
pub proof fn law_script_records_what_was_asked(mime: Seq<char>)
    ensures
        contains(script(mime, true), "const audioOnly = true;"@),
        contains(script(mime, false), "const audioOnly = false;"@),
{
    reveal_strlit("const audioOnly = ");
    reveal_strlit("const audioOnly = true;");
    reveal_strlit("const audioOnly = false;");
    reveal_strlit("true");
    reveal_strlit("false");
    lemma_script_text(0);
    lemma_script_front(mime, true);
    lemma_script_front(mime, false);
    let front = RECORD_JS@.subrange(251, 269);
    let a = script(mime, true);
    let b = script(mime, false);
    assert forall|i: int| 251 <= i < 269 implies a[i] == front[i - 251] && b[i] == front[i - 251] by {
        assert(RECORD_JS@.take(269)[i] == front[i - 251]);
    }
    assert(a.subrange(251, 274) =~= "const audioOnly = true;"@);
    assert(b.subrange(251, 275) =~= "const audioOnly = false;"@);
    lemma_contains_at(a, "const audioOnly = true;"@, 251);
    lemma_contains_at(b, "const audioOnly = false;"@, 251);
}

/// No script records both ways: one for the sound alone is never one for the
/// picture, whatever the formats.
pub proof fn law_scripts_differ(mime: Seq<char>, other: Seq<char>)
    ensures
        script(mime, true) != script(other, false),
{
    reveal_strlit("true");
    reveal_strlit("false");
    lemma_script_text(0);
    lemma_script_front(mime, true);
    lemma_script_front(other, false);
    assert(script(mime, true)[269] == 't');
    assert(script(other, false)[269] == 'f');
}

/// The whole script for a format in which no blank can hide.
#[verifier::rlimit(40)]
proof fn lemma_script_whole(mime: Seq<char>, audio_only: bool)
    requires
        !mime.contains('{'),
    ensures
        script(mime, audio_only) == RECORD_JS@.take(269) + (if audio_only {
            "true"@
        } else {
            "false"@
        }) + RECORD_JS@.subrange(283, 500) + mime + RECORD_JS@.skip(508),
{
    let js = RECORD_JS@;
    let p = "{{AUDIO_ONLY}}"@;
    let t = js.take(500) + mime + js.skip(508);
    let x = t.skip(283);
    lemma_script_front(mime, audio_only);
    lemma_script_text(0);
    reveal_strlit("{{AUDIO_ONLY}}");
    assert(x =~= js.subrange(283, 500) + mime + js.skip(508));
    lemma_index_of(x, p);
    if index_of(x, p) is Some {
        let i = index_of(x, p)->0;
        let w = x.skip(i).take(14);
        assert(w[0] == x[i] && w[1] == x[i + 1]);
        let n = mime.len() as int;
        if 217 <= i < 217 + n {
            assert(mime.contains(mime[i - 217]));
        } else if 217 <= i + 1 < 217 + n {
            assert(mime.contains(mime[i + 1 - 217]));
        } else if i + 1 < 217 {
            lemma_script_text(i + 283);
            assert(braces_at(i + 283));
        } else if i == 216 {
            assert(x[216] == js[499]);
            assert(js[499] == js.subrange(489, 500)[10]);
            reveal_strlit("mimeType: '");
        } else {
            lemma_script_text(i - 217 - n + 508);
            assert(braces_at(i - 217 - n + 508));
        }
    }
}

/// Of the two declarations of `audioOnly` the script holds exactly the one that
/// was asked for, and it records in the given format. A format holds no space
/// and no brace.
#[verifier::rlimit(40)]
pub proof fn law_script_holds_one_declaration(mime: Seq<char>, audio_only: bool)
    requires
        !mime.contains(' '),
        !mime.contains('{'),
    ensures
        contains(script(mime, audio_only), "const audioOnly = true;"@) <==> audio_only,
        contains(script(mime, audio_only), "const audioOnly = false;"@) <==> !audio_only,
        contains(script(mime, audio_only), "mimeType: '"@ + mime + "'"@),
{
    let js = RECORD_JS@;
    let s = script(mime, audio_only);
    let f = if audio_only {
        "true"@
    } else {
        "false"@
    };
    let n = f.len() as int;
    let m = mime.len() as int;
    law_script_records_what_was_asked(mime);
    lemma_script_whole(mime, audio_only);
    lemma_script_text(0);
    reveal_strlit("const audioOnly = true;");
    reveal_strlit("const audioOnly = false;");
    reveal_strlit("const audioOnly = ");
    reveal_strlit("true");
    reveal_strlit("false");
    reveal_strlit("mimeType: '");
    reveal_strlit("'");
    let wrong = if audio_only {
        "const audioOnly = false;"@
    } else {
        "const audioOnly = true;"@
    };
    if contains(s, wrong) {
        let i = lemma_contained_somewhere(s, wrong);
        let w = s.subrange(i, i + wrong.len());
        let q = i + 14;
        assert(w[14] == 'y' && w[15] == ' ' && w[16] == '=' && w[17] == ' ');
        assert(s[q] == 'y' && s[q + 1] == ' ' && s[q + 2] == '=' && s[q + 3] == ' ');
        lemma_given_once(mime, f, q);
        assert(w[18] == s[269]);
    }
    let at = 269 + n + 206;
    let whole = "mimeType: '"@ + mime + "'"@;
    assert forall|i: int| 0 <= i < whole.len() implies s[at + i] == whole[i] by {
        if i < 11 {
            assert(js.subrange(489, 500)[i] == js[489 + i]);
        }
    }
    assert(s.subrange(at, at + whole.len()) =~= whole);
    lemma_contains_at(s, whole, at);
}

#[verifier::rlimit(40)]
proof fn lemma_given_once(mime: Seq<char>, f: Seq<char>, q: int)
    requires
        !mime.contains(' '),
        f == "true"@ || f == "false"@,
        ({
            let s = RECORD_JS@.take(269) + f + RECORD_JS@.subrange(283, 500) + mime + RECORD_JS@.skip(
                508,
            );
            &&& 0 <= q < s.len() - 3
            &&& s[q] == 'y'
            &&& s[q + 1] == ' '
            &&& s[q + 2] == '='
            &&& s[q + 3] == ' '
        }),
    ensures
        q == 265,
{
    let js = RECORD_JS@;
    let n = f.len() as int;
    let m = mime.len() as int;
    let s = js.take(269) + f + js.subrange(283, 500) + mime + js.skip(508);
    let mid = 269 + n;
    lemma_script_text(0);
    reveal_strlit("const audioOnly = ");
    reveal_strlit("true");
    reveal_strlit("false");
    reveal_strlit("mimeType: '");
    assert(js.subrange(251, 269)[15] == js[266] && js.subrange(251, 269)[16] == js[267]
        && js.subrange(251, 269)[17] == js[268]);
    assert(js.subrange(489, 500)[10] == js[499]);
    if q + 3 < 269 {
        lemma_script_text(q);
        assert(given_at(q));
    } else if q < mid {
        assert(q < 269 ==> s[q] == js[q]);
    } else if q + 3 < mid + 217 {
        lemma_script_text(q - mid + 283);
        assert(given_at(q - mid + 283));
    } else if q < mid + 217 {
        assert(s[mid + 216] == js[499]);
    } else if q < mid + 217 + m {
        if q + 1 < mid + 217 + m {
            assert(mime.contains(mime[q + 1 - mid - 217]));
        } else {
            assert(s[q + 1] == js[508]);
        }
    } else {
        lemma_script_text(q - mid - 217 - m + 508);
        assert(given_at(q - mid - 217 - m + 508));
    }
}

// What holds of the end of a recording.

/// Without a wish of the user, a recording ends at its limit and not before, but
/// for a quiet spell of five seconds.
pub proof fn law_limit_and_quiet_end(s: StopWhenView, now: Instant)
    requires
        !s.user,
        s.start.nanos <= now.nanos,
    ensures
        s.due(now) == Some(Stop::MaxDuration) <==> now.nanos - s.start.nanos >= s.max.nanos,
        s.due(now) == Some(Stop::MediaEnded) <==> {
            &&& now.nanos - s.start.nanos < s.max.nanos
            &&& s.quiet_since matches Some(q) && now.nanos - q.nanos >= 5_000_000_000
        },
        s.due(now) != Some(Stop::User),
{
}

/// The quiet spell begins with the first report of silence after something
/// played; later reports of silence do not put it off.
pub proof fn law_quiet_counts_from_the_first_silence(
    s: StopWhenView,
    a: Instant,
    b: Instant,
    c: Instant,
    now: Instant,
)
    requires
        !s.user,
        s.start.nanos <= now.nanos,
        now.nanos - s.start.nanos < s.max.nanos,
        b.nanos <= c.nanos <= now.nanos,
    ensures
        s.told(true, a).told(false, b).told(false, c).due(now) == (if now.nanos - b.nanos
            >= 5_000_000_000 {
            Some(Stop::MediaEnded)
        } else {
            None
        }),
{
}

/// A page that does not report the capture within fifteen seconds has timed out;
/// one that did never has.
pub proof fn law_start_is_awaited(r: RecordingView, now: Instant)
    requires
        r.start.nanos <= now.nanos,
    ensures
        r.turned(now).0 == Turn::TimedOut <==> !r.started && now.nanos - r.start.nanos
            > 15_000_000_000,
        r.turned(now).0 == Turn::TellPage ==> r.turned(now).1.outcome is Some,
        r.started && r.outcome is None && r.when.due(now) is Some && !r.told_page ==> r.turned(now).0
            == Turn::TellPage,
        r.turned(now).1.bytes == r.bytes,
        r.turned(now).1.started == r.started,
{
}

/// What arrives of a recording is written as it is, and counted.
pub proof fn law_pieces_are_written(r: RecordingView, msg: JsonView, data: Seq<u8>, now: Instant)
    requires
        msg.text_at("type"@) == Some("chunk"@),
        msg.text_at("data"@) matches Some(t) && base64_decoded(t) == Some(data),
        r.bytes + data.len() <= u64::MAX,
    ensures
        r.heard(msg, now).0 == ActView::Write(data),
        r.heard(msg, now).1.bytes == r.bytes + data.len(),
        r.heard(msg, now).1.outcome == r.outcome,
{
    reveal_strlit("chunk");
    reveal_strlit("started");
    assert("chunk"@.len() != "started"@.len());
}

/// What the page's script reports is heeded: the start, whether media plays, the
/// end, and an error with its words.
pub proof fn law_reports_are_heeded(r: RecordingView, msg: JsonView, now: Instant)
    ensures
        msg.text_at("type"@) == Some("started"@) ==> {
            &&& r.heard(msg, now).0 is Nothing
            &&& r.heard(msg, now).1.started
            &&& r.heard(msg, now).1.bytes == r.bytes
        },
        msg.text_at("type"@) == Some("playing"@) ==> {
            &&& r.heard(msg, now).0 is Nothing
            &&& r.heard(msg, now).1.when == r.when.told(
                msg.get("playing"@) == Some(JsonView::Bool(true)),
                now,
            )
        },
        msg.text_at("type"@) == Some("stopped"@) ==> {
            &&& r.heard(msg, now).0 is Finish
            &&& r.heard(msg, now).1.outcome is Some
            &&& r.outcome is None ==> r.heard(msg, now).1.outcome == Some(Stop::User)
        },
        msg.text_at("type"@) == Some("error"@) ==> {
            &&& r.heard(msg, now).0 matches ActView::Fail(w) && (msg.text_at(
                "message"@,
            ) matches Some(m) ==> ends_with(w, m) && starts_with(w, "錄製失敗："@))
        },
{
    reveal_strlit("started");
    reveal_strlit("chunk");
    reveal_strlit("playing");
    reveal_strlit("stopped");
    reveal_strlit("error");
    assert("started"@[0] == 's' && "started"@[2] == 'a' && "chunk"@[0] == 'c');
    assert("playing"@[0] == 'p' && "stopped"@[0] == 's' && "stopped"@[2] == 'o' && "error"@[0] == 'e');
    if msg.text_at("message"@) is Some {
        let m = msg.text_at("message"@)->0;
        let w = "錄製失敗："@ + m;
        assert(w.skip("錄製失敗："@.len() as int) =~= m);
        assert(w.take("錄製失敗："@.len() as int) =~= "錄製失敗："@);
    }
}

/// The tab that is closed ends the recording, and nothing else that happens
/// outside the tab's own session does anything.
pub proof fn law_only_the_own_tab_counts(
    r: RecordingView,
    event: CdpEvent,
    session: Seq<char>,
    target: Seq<char>,
    now: Instant,
)
    requires
        text_of(event.session_id) != Some(session),
    ensures
        event.method@ == "Target.targetDestroyed"@ && event.params@.text_at("targetId"@) == Some(target)
            ==> r.saw(event, session, target, now).0 is Finish,
        event.method@ != "Target.targetDestroyed"@ || event.params@.text_at("targetId"@) != Some(target)
            ==> r.saw(event, session, target, now) == (ActView::Nothing, r),
{
}

// What holds of spans of time as they are written.

proof fn lemma_amount(n: nat, rest: Seq<char>)
    requires
        rest.len() > 0,
        !digit(rest[0]),
    ensures
        first(decimal(n) + rest, Class::Digit, false) == decimal(n).len(),
        (decimal(n) + rest).take(decimal(n).len() as int) == decimal(n),
        (decimal(n) + rest).skip(decimal(n).len() as int + 1) == rest.skip(1),
        (decimal(n) + rest)[decimal(n).len() as int] == rest[0],
        value(decimal(n)) == n,
        decimal(n).len() > 0,
{
    let d = decimal(n);
    let s = d + rest;
    lemma_decimal(n);
    assert forall|j: int| 0 <= j < d.len() implies Class::Digit.has(#[trigger] s[j]) != false by {
        assert(digit(d[j]));
    }
    lemma_first_is(s, Class::Digit, false, d.len() as int);
    assert(s.take(d.len() as int) =~= d);
    assert(s.skip(d.len() as int + 1) =~= rest.skip(1));
}

/// Amounts add up: an hour is 3600 seconds, a minute 60, and what follows is
/// counted in. No other unit is known.
pub proof fn law_amounts_add_up(n: nat, unit: char, rest: Seq<char>)
    requires
        !digit(unit),
    ensures
        ({
            let s = decimal(n) + seq![unit] + rest;
            match units_total(rest) {
                Some(m) => units_total(s) == (if unit == 'h' {
                    Some((3600 * n + m) as nat)
                } else if unit == 'm' {
                    Some((60 * n + m) as nat)
                } else if unit == 's' {
                    Some((n + m) as nat)
                } else {
                    None
                }),
                None => units_total(s) is None,
            }
        }),
{
    let tail = seq![unit] + rest;
    let s = decimal(n) + seq![unit] + rest;
    assert(s =~= decimal(n) + tail);
    lemma_amount(n, tail);
    assert(tail.skip(1) =~= rest);
    if unit_secs(unit) is Some {
        let u = unit_secs(unit)->0;
        assert(n * u == (if u == 3600 {
            3600 * n
        } else if u == 60 {
            60 * n
        } else {
            n
        })) by (nonlinear_arith)
            requires
                u == 3600 || u == 60 || u == 1,
        ;
    }
}

/// A bare number is that many seconds; with white space around it, it is the same.
pub proof fn law_bare_numbers_are_seconds(n: nat)
    requires
        n <= u64::MAX,
    ensures
        span_secs(decimal(n)) == Some(n),
{
    lemma_decimal(n);
    let d = decimal(n);
    assert forall|i: int| 0 <= i < d.len() implies !white(#[trigger] d[i]) by {
        assert(digit(d[i]));
    }
    lemma_trimmed_same(d);
    law_decimal_reads_back(n, u64::MAX as nat);
}

// What holds of the formats.

/// The format is one that the browser offers, of the kind that was asked for, and
/// there is one wherever the browser offers a known one. H.264 comes first, since
/// it needs no second encoding.
pub proof fn law_offered_format_is_picked(supported: Seq<Seq<char>>)
    ensures
        picked(true, supported) matches Some(m) ==> supported.contains(m) && starts_with(m, "audio/"@),
        picked(false, supported) matches Some(m) ==> supported.contains(m) && starts_with(
            m,
            "video/"@,
        ),
        picked(true, supported) is Some <==> supported.contains("audio/webm;codecs=opus"@),
        picked(false, supported) is Some <==> {
            ||| supported.contains("video/webm;codecs=h264,opus"@)
            ||| supported.contains("video/webm;codecs=vp9,opus"@)
            ||| supported.contains("video/webm;codecs=vp8,opus"@)
        },
        supported.contains("video/webm;codecs=h264,opus"@) ==> picked(false, supported) == Some(
            "video/webm;codecs=h264,opus"@,
        ),
        supported.contains("video/webm;codecs=vp9,opus"@) ==> picked(false, supported) != Some(
            "video/webm;codecs=vp8,opus"@,
        ),
{
    reveal_strlit("audio/");
    reveal_strlit("video/");
    reveal_strlit("audio/webm;codecs=opus");
    reveal_strlit("video/webm;codecs=h264,opus");
    reveal_strlit("video/webm;codecs=vp9,opus");
    reveal_strlit("video/webm;codecs=vp8,opus");
    assert("audio/webm;codecs=opus"@.take(6) =~= "audio/"@);
    assert("video/webm;codecs=h264,opus"@.take(6) =~= "video/"@);
    assert("video/webm;codecs=vp9,opus"@.take(6) =~= "video/"@);
    assert("video/webm;codecs=vp8,opus"@.take(6) =~= "video/"@);
    assert("video/webm;codecs=vp9,opus"@[20] == '9');
    assert("video/webm;codecs=vp8,opus"@[20] == '8');
    assert("video/webm;codecs=h264,opus"@[18] == 'h');
    assert("video/webm;codecs=vp8,opus"@[18] == 'v');
}

/// A recording of the sound alone has no picture in it and ends up in an `m4a`,
/// one of the picture in an `mp4`. The sound becomes AAC; an H.264 picture is
/// copied, any other is encoded again.
pub proof fn law_recordings_get_their_container(mime: Seq<char>)
    ensures
        recorded_ext(true) == "m4a"@,
        recorded_ext(false) == "mp4"@,
        remux_line(true, mime).contains("-vn"@),
        !remux_line(false, mime).contains("-vn"@),
        followed(remux_line(true, mime), "-c:a"@, "aac"@),
        followed(remux_line(false, mime), "-c:a"@, "aac"@),
        contains(mime, "h264"@) ==> followed(remux_line(false, mime), "-c:v"@, "copy"@),
        !contains(mime, "h264"@) ==> followed(remux_line(false, mime), "-c:v"@, "libx264"@),
        followed(remux_line(false, mime), "-movflags"@, "+faststart"@),
{
    let a = remux_line(true, mime);
    let b = remux_line(false, mime);
    assert(a[0] == "-vn"@ && a[1] == "-c:a"@ && a[2] == "aac"@);
    assert(a.contains("-vn"@));
    let n = b.len() - 6;
    assert(b[n] == "-c:a"@ && b[n + 1] == "aac"@ && b[n + 4] == "-movflags"@ && b[n + 5]
        == "+faststart"@);
    assert(b[0] == "-c:v"@);
    if contains(mime, "h264"@) {
        assert(b[1] == "copy"@);
    } else {
        assert(b[1] == "libx264"@);
    }
    if b.contains("-vn"@) {
        lemma_not_without_picture(mime, b.index_of("-vn"@));
    }
}

proof fn lemma_not_without_picture(mime: Seq<char>, i: int)
    requires
        0 <= i < remux_line(false, mime).len(),
    ensures
        remux_line(false, mime)[i] != "-vn"@,
{
    reveal_strlit("-vn");
    reveal_strlit("-c:v");
    reveal_strlit("copy");
    reveal_strlit("libx264");
    reveal_strlit("-preset");
    reveal_strlit("veryfast");
    reveal_strlit("-crf");
    reveal_strlit("23");
    reveal_strlit("-pix_fmt");
    reveal_strlit("yuv420p");
    reveal_strlit("-c:a");
    reveal_strlit("aac");
    reveal_strlit("-b:a");
    reveal_strlit("160k");
    reveal_strlit("-movflags");
    reveal_strlit("+faststart");
    assert("-vn"@.len() == 3 && "aac"@[0] == 'a' && "-vn"@[0] == '-');
    let s = remux_line(false, mime)[i];
    assert(s.len() == 3 ==> s == "aac"@);
}

/// Sound alone is encoded at 192 kilobits; with a picture it is at 160, and a picture
/// that is not H.264 is encoded anew.
pub proof fn law_recordings_are_encoded(mime: Seq<char>)
    ensures
        remux_line(true, mime) == seq!["-vn"@, "-c:a"@, "aac"@, "-b:a"@, "192k"@],
        contains(mime, "h264"@) ==> remux_line(false, mime) == seq![
            "-c:v"@,
            "copy"@,
            "-c:a"@,
            "aac"@,
            "-b:a"@,
            "160k"@,
            "-movflags"@,
            "+faststart"@,
        ],
        !contains(mime, "h264"@) ==> remux_line(false, mime) == seq![
            "-c:v"@,
            "libx264"@,
            "-preset"@,
            "veryfast"@,
            "-crf"@,
            "23"@,
            "-pix_fmt"@,
            "yuv420p"@,
            "-c:a"@,
            "aac"@,
            "-b:a"@,
            "160k"@,
            "-movflags"@,
            "+faststart"@,
        ],
{
}

/// What the script of the page sends comes in the event of its binding, from the page's
/// own session; what is no JSON is not heard, and neither is any other session.
pub proof fn law_script_is_heard(
    v: RecordingView,
    event: CdpEvent,
    session: Seq<char>,
    target: Seq<char>,
    now: Instant,
    text: Seq<char>,
)
    requires
        event.method@ == "Runtime.bindingCalled"@,
        event.params@.text_at("payload"@) == Some(text),
    ensures
        text_of(event.session_id) == Some(session) && json_read(text) is Ok ==> v.saw(
            event,
            session,
            target,
            now,
        ) == v.heard(json_read(text)->Ok_0, now),
        text_of(event.session_id) == Some(session) && json_read(text) is Err ==> v.saw(
            event,
            session,
            target,
            now,
        ) == (ActView::Nothing, v),
        text_of(event.session_id) != Some(session) ==> v.saw(event, session, target, now) == (
            ActView::Nothing,
            v,
        ),
{
    reveal_strlit("Runtime.bindingCalled");
    reveal_strlit("Target.targetDestroyed");
    assert("Runtime.bindingCalled"@[0] != "Target.targetDestroyed"@[0]);
}

/// What an expression gave is the value of its result.
pub proof fn law_value_is_the_result(reply: JsonView, r: JsonView, text: Seq<char>)
    requires
        reply.get("result"@) == Some(r),
        r.text_at("value"@) == Some(text),
    ensures
        evaluated(reply) == Some(text),
{
}

/// What an act is taken to say is what it holds.
pub proof fn law_said_of_act(x: Act)
    ensures
        match x {
            Act::Nothing => x@ == (ActView::Nothing),
            Act::Write(v) => x@ == (ActView::Write(v@)),
            Act::Finish => x@ == (ActView::Finish),
            Act::Fail(s) => x@ == (ActView::Fail(s@)),
        },
{
}

/// A span of one unit or of two is read: hours, minutes and seconds, and nothing is
/// added to them.
pub proof fn law_spans_are_read(a: nat, b: nat)
    ensures
        span_secs(decimal(a) + seq!['h']) == Some((3600 * a) as nat),
        span_secs(decimal(a) + seq!['m']) == Some((60 * a) as nat),
        span_secs(decimal(a) + seq!['s']) == Some(a),
        span_secs(decimal(a) + seq!['h'] + (decimal(b) + seq!['m'])) == Some((3600 * a + 60 * b) as nat),
        units_total(seq![]) == Some(0nat),
{
    let e = Seq::<char>::empty();
    law_amounts_add_up(a, 'h', e);
    law_amounts_add_up(a, 'm', e);
    law_amounts_add_up(a, 's', e);
    law_amounts_add_up(b, 'm', e);
    assert(decimal(a) + seq!['h'] + e =~= decimal(a) + seq!['h']);
    assert(decimal(a) + seq!['m'] + e =~= decimal(a) + seq!['m']);
    assert(decimal(a) + seq!['s'] + e =~= decimal(a) + seq!['s']);
    assert(decimal(b) + seq!['m'] + e =~= decimal(b) + seq!['m']);
    law_amounts_add_up(a, 'h', decimal(b) + seq!['m']);
    lemma_span_is_units(a, seq!['h']);
    lemma_span_is_units(a, seq!['m']);
    lemma_span_is_units(a, seq!['s']);
    let rest = seq!['h'] + (decimal(b) + seq!['m']);
    lemma_decimal(b);
    assert forall|i: int| 0 <= i < rest.len() implies !white(#[trigger] rest[i]) by {
        if 0 < i < rest.len() - 1 {
            assert(digit(decimal(b)[i - 1]));
        }
    }
    lemma_span_is_units(a, rest);
    assert(decimal(a) + rest =~= decimal(a) + seq!['h'] + (decimal(b) + seq!['m']));
}

proof fn lemma_span_is_units(a: nat, rest: Seq<char>)
    requires
        rest.len() > 0,
        !digit(rest[0]),
        forall|i: int| 0 <= i < rest.len() ==> !white(#[trigger] rest[i]),
    ensures
        span_secs(decimal(a) + rest) == units_total(decimal(a) + rest),
{
    lemma_decimal(a);
    let d = decimal(a);
    let s = d + rest;
    assert forall|i: int| 0 <= i < s.len() implies !white(#[trigger] s[i]) by {
        if i < d.len() {
            assert(digit(d[i]));
        } else {
            assert(s[i] == rest[i - d.len()]);
        }
    }
    lemma_trimmed_same(s);
    assert(s[d.len() as int] == rest[0]);
    crate::number::law_numbers_are_read(a, u64::MAX as nat, s, d.len() as int);
}

} // verus!
