//! The command line: what is asked for, what is shown, and the exit code that
//! says whether all of it worked.

use vstd::prelude::*;
use crate::browser::record::{parse_duration, span_secs};
use crate::clock::Duration;
use crate::cookies::{browsers, is_supported, supported, unknown_browser};
use crate::engine::queue::{Item, ItemView};
use crate::extract::Mode;
use crate::log::{Entry, EntryView};
use crate::number::{decimal, parse, parsed, to_decimal};
use crate::text::{
    cat, cat3, cut_end, has_prefix, join, lower, push_text, same, starts_with, str_of, text_of,
    texts, to_lower, trim_class_end, Class,
};

verus! {

/// What `--help` shows.
pub const HELP: &'static str = r#"haul — 萬用媒體下載器

用法
  haul <網址>...            下載並驗證，全部成功才回傳 0
  haul record <網址>        錄製：分頁的畫面＋聲音（沒有檔案可抓時用）
  haul record -a <網址>     只錄聲音
  haul status               列出歷史紀錄
  haul logs                 看執行紀錄（診斷失敗用）
  haul update               更新 yt-dlp（站點改版後用）

選項
  -a, --audio               只要聲音（抽出原始音軌，不重新編碼）
  -i, --image               只要圖片：影片封面、圖片網址、或一般網頁上的所有圖
  -q, --quality <N|best>    影片畫質上限，例如 1080（預設不設限）
      --any                 連網頁本身也存下來（預設拒絕，避免假成功）
      --browser             前三層抓不到時，開一個 Chrome 把頁面跑起來攔截媒體請求
      --max <時長>          錄製上限，例如 30m、2h（預設 3h）
      --overwrite           目標檔案已存在時照樣重抓（預設跳過）
      --cookies <瀏覽器>    用該瀏覽器的登入狀態（chrome/firefox/safari/edge…）
                            需要登入的內容用這個。Haul 不碰帳密，只讀 cookie。
  -o, --out <資料夾>        輸出位置（預設 ~/Downloads/Haul）
  -c, --concurrency <N>     同時下載幾個（預設 3）
  -n, --lines <N>           logs 要看幾則（預設 50）
      --json                每個事件一行 NDJSON 到 stdout
  -h, --help                顯示這則說明

按 Ctrl-C 停止錄製，會等轉檔與驗證做完才結束。

離開碼
  0  全部下載完成且通過驗證
  1  有項目失敗
  2  用法錯誤，或準備 yt-dlp / ffmpeg 失敗

範例
  haul https://example.com/watch/abc
  haul -a --json https://example.com/playlist/xyz
  haul status --json | jq 'select(.status == "done") | .path'
  haul logs --json | jq 'select(.level == "error")'
  haul --cookies chrome https://example.com/private/video
  haul --browser https://example.com/player/123
"#;

/// What to do.
#[derive(Clone, Copy, Debug, PartialEq, Eq, Structural)]
pub enum Cmd {
    Get,
    Record,
    Status,
    Logs,
    Update,
    Help,
}

/// What was asked for.
#[derive(Debug)]
pub struct Args {
    pub cmd: Cmd,
    pub urls: Vec<String>,
    pub mode: Mode,
    pub any: bool,
    pub overwrite: bool,
    pub browser: bool,
    pub cookies_from: Option<String>,
    pub max_height: Option<u32>,
    /// The limit of a recording.
    pub max: Duration,
    pub out: String,
    pub json: bool,
    pub concurrency: usize,
    pub lines: usize,
}

/// What the arguments say.
#[verifier::ext_equal]
pub struct ArgsView {
    pub cmd: Cmd,
    pub urls: Seq<Seq<char>>,
    pub mode: Mode,
    pub any: bool,
    pub overwrite: bool,
    pub browser: bool,
    pub cookies_from: Option<Seq<char>>,
    pub max_height: Option<u32>,
    pub max: Duration,
    pub out: Seq<char>,
    pub json: bool,
    pub concurrency: usize,
    pub lines: usize,
}

impl View for Args {
    type V = ArgsView;

    open spec fn view(&self) -> ArgsView {
        ArgsView {
            cmd: self.cmd,
            urls: texts(self.urls@),
            mode: self.mode,
            any: self.any,
            overwrite: self.overwrite,
            browser: self.browser,
            cookies_from: text_of(self.cookies_from),
            max_height: self.max_height,
            max: self.max,
            out: self.out@,
            json: self.json,
            concurrency: self.concurrency,
            lines: self.lines,
        }
    }
}

/// What is asked for by no arguments at all.
pub open spec fn defaults(out: Seq<char>) -> ArgsView {
    ArgsView {
        cmd: Cmd::Get,
        urls: seq![],
        mode: Mode::Video,
        any: false,
        overwrite: false,
        browser: false,
        cookies_from: None,
        max_height: None,
        max: Duration::secs(10_800),
        out,
        json: false,
        concurrency: 3,
        lines: 50,
    }
}

/// What a flag that stands alone changes.
pub open spec fn flag(a: ArgsView, s: Seq<char>) -> Option<ArgsView> {
    if s == "-h"@ || s == "--help"@ {
        Some(ArgsView { cmd: Cmd::Help, ..a })
    } else if s == "-a"@ || s == "--audio"@ {
        Some(ArgsView { mode: Mode::Audio, ..a })
    } else if s == "-i"@ || s == "--image"@ {
        Some(ArgsView { mode: Mode::Image, ..a })
    } else if s == "--any"@ {
        Some(ArgsView { any: true, ..a })
    } else if s == "--overwrite"@ {
        Some(ArgsView { overwrite: true, ..a })
    } else if s == "--browser"@ {
        Some(ArgsView { browser: true, ..a })
    } else if s == "--json"@ {
        Some(ArgsView { json: true, ..a })
    } else {
        None
    }
}

/// A flag that takes a value.
#[derive(Clone, Copy, Debug, PartialEq, Eq, Structural)]
pub enum Wants {
    Cookies,
    Quality,
    Max,
    Out,
    Concurrency,
    Lines,
}

/// Which flag that takes a value this is.
pub open spec fn wants(s: Seq<char>) -> Option<Wants> {
    if s == "--cookies"@ {
        Some(Wants::Cookies)
    } else if s == "-q"@ || s == "--quality"@ {
        Some(Wants::Quality)
    } else if s == "--max"@ {
        Some(Wants::Max)
    } else if s == "-o"@ || s == "--out"@ {
        Some(Wants::Out)
    } else if s == "-c"@ || s == "--concurrency"@ {
        Some(Wants::Concurrency)
    } else if s == "-n"@ || s == "--lines"@ {
        Some(Wants::Lines)
    } else {
        None
    }
}

/// The words for a flag without its value.
pub open spec fn missing(w: Wants) -> Seq<char> {
    match w {
        Wants::Cookies => "--cookies 後面要接瀏覽器名稱"@,
        Wants::Quality => "--quality 後面要接數字或 best"@,
        Wants::Max => "--max 後面要接時長"@,
        Wants::Out => "--out 後面要接資料夾路徑"@,
        Wants::Concurrency => "--concurrency 後面要接數字"@,
        Wants::Lines => "--lines 後面要接數字"@,
    }
}

/// What a flag with its value changes.
pub open spec fn valued(a: ArgsView, w: Wants, v: Seq<char>) -> Result<ArgsView, Seq<char>> {
    match w {
        Wants::Cookies => if supported(v) {
            Ok(ArgsView { cookies_from: Some(v), ..a })
        } else {
            Err(unknown_browser(v))
        },
        Wants::Quality => if lower(v) == "best"@ {
            Ok(ArgsView { max_height: None, ..a })
        } else {
            match parsed(cut_end(v, Class::Is('p')), u32::MAX as nat) {
                Some(n) => Ok(ArgsView { max_height: Some(n as u32), ..a }),
                None => Err("--quality 要接數字（例如 1080）或 best"@),
            }
        },
        Wants::Max => match span_secs(v) {
            Some(n) => if 0 < n <= u64::MAX {
                Ok(ArgsView { max: Duration::secs(n as int), ..a })
            } else {
                Err("--max 要接時長（例如 30m、2h）"@)
            },
            None => Err("--max 要接時長（例如 30m、2h）"@),
        },
        Wants::Out => Ok(ArgsView { out: v, ..a }),
        Wants::Concurrency => match parsed(v, usize::MAX as nat) {
            Some(n) => if n == 0 {
                Err("--concurrency 至少要是 1"@)
            } else {
                Ok(ArgsView { concurrency: n as usize, ..a })
            },
            None => Err("--concurrency 要接數字"@),
        },
        Wants::Lines => match parsed(v, usize::MAX as nat) {
            Some(n) => Ok(ArgsView { lines: n as usize, ..a }),
            None => Err("--lines 要接數字"@),
        },
    }
}

/// What a word that is no flag changes: a command, where it comes first, or a
/// link.
pub open spec fn word(a: ArgsView, s: Seq<char>, first: bool) -> Result<ArgsView, Seq<char>> {
    if first && s == "status"@ {
        Ok(ArgsView { cmd: Cmd::Status, ..a })
    } else if first && s == "logs"@ {
        Ok(ArgsView { cmd: Cmd::Logs, ..a })
    } else if first && s == "update"@ {
        Ok(ArgsView { cmd: Cmd::Update, ..a })
    } else if first && s == "record"@ {
        Ok(ArgsView { cmd: Cmd::Record, ..a })
    } else if starts_with(s, "http"@) {
        Ok(ArgsView { urls: a.urls.push(s), ..a })
    } else {
        Err("看不懂的參數："@ + s)
    }
}

/// What is asked for by the arguments from the `i`th on, after what came before
/// them.
pub open spec fn asked(args: Seq<Seq<char>>, i: int, a: ArgsView) -> Result<ArgsView, Seq<char>>
    decreases args.len() - i,
{
    if i < 0 || i >= args.len() {
        Ok(a)
    } else if flag(a, args[i]) is Some {
        asked(args, i + 1, flag(a, args[i])->0)
    } else if wants(args[i]) is Some {
        if i + 1 >= args.len() {
            Err(missing(wants(args[i])->0))
        } else {
            match valued(a, wants(args[i])->0, args[i + 1]) {
                Ok(b) => asked(args, i + 2, b),
                Err(e) => Err(e),
            }
        }
    } else {
        match word(a, args[i], i == 0) {
            Ok(b) => asked(args, i + 1, b),
            Err(e) => Err(e),
        }
    }
}

pub open spec fn args_outcome(r: Result<Args, String>) -> Result<ArgsView, Seq<char>> {
    match r {
        Ok(a) => Ok(a@),
        Err(e) => Err(e@),
    }
}

fn take_flag(a: &mut Args, s: &str) -> (r: bool)
    ensures
        match flag(old(a)@, s@) {
            Some(b) => r && final(a)@ == b,
            None => !r && *final(a) == *old(a),
        },
{
    if same(s, "-h") || same(s, "--help") {
        a.cmd = Cmd::Help;
    } else if same(s, "-a") || same(s, "--audio") {
        a.mode = Mode::Audio;
    } else if same(s, "-i") || same(s, "--image") {
        a.mode = Mode::Image;
    } else if same(s, "--any") {
        a.any = true;
    } else if same(s, "--overwrite") {
        a.overwrite = true;
    } else if same(s, "--browser") {
        a.browser = true;
    } else if same(s, "--json") {
        a.json = true;
    } else {
        return false;
    }
    true
}

fn which_wants(s: &str) -> (r: Option<Wants>)
    ensures
        r == wants(s@),
{
    if same(s, "--cookies") {
        Some(Wants::Cookies)
    } else if same(s, "-q") || same(s, "--quality") {
        Some(Wants::Quality)
    } else if same(s, "--max") {
        Some(Wants::Max)
    } else if same(s, "-o") || same(s, "--out") {
        Some(Wants::Out)
    } else if same(s, "-c") || same(s, "--concurrency") {
        Some(Wants::Concurrency)
    } else if same(s, "-n") || same(s, "--lines") {
        Some(Wants::Lines)
    } else {
        None
    }
}

fn missing_value(w: Wants) -> (r: String)
    ensures
        r@ == missing(w),
{
    match w {
        Wants::Cookies => "--cookies 後面要接瀏覽器名稱".to_owned(),
        Wants::Quality => "--quality 後面要接數字或 best".to_owned(),
        Wants::Max => "--max 後面要接時長".to_owned(),
        Wants::Out => "--out 後面要接資料夾路徑".to_owned(),
        Wants::Concurrency => "--concurrency 後面要接數字".to_owned(),
        Wants::Lines => "--lines 後面要接數字".to_owned(),
    }
}

/// The arguments after a step, or the words for one that failed.
pub open spec fn step(args: ArgsView, r: Result<(), String>) -> Result<ArgsView, Seq<char>> {
    match r {
        Ok(_) => Ok(args),
        Err(e) => Err(e@),
    }
}

fn take_value(a: &mut Args, w: Wants, v: &str) -> (r: Result<(), String>)
    ensures
        step(final(a)@, r) == valued(old(a)@, w, v@),
{
    match w {
        Wants::Cookies => {
            if !is_supported(v) {
                let known = browsers();
                let names = join(&known, "、");
                let front = cat3("不認得的瀏覽器：", v, "（支援 ");
                return Err(cat3(front.as_str(), names.as_str(), "）"));
            }
            a.cookies_from = Some(v.to_owned());
        },
        Wants::Quality => {
            if same(to_lower(v).as_str(), "best") {
                a.max_height = None;
            } else {
                match parse(trim_class_end(v, Class::Is('p')), u32::MAX as u64) {
                    Some(n) => {
                        a.max_height = Some(n as u32);
                    },
                    None => {
                        return Err("--quality 要接數字（例如 1080）或 best".to_owned());
                    },
                }
            }
        },
        Wants::Max => match parse_duration(v) {
            Some(d) => {
                a.max = d;
            },
            None => {
                return Err("--max 要接時長（例如 30m、2h）".to_owned());
            },
        },
        Wants::Out => {
            a.out = v.to_owned();
        },
        Wants::Concurrency => match parse(v, usize::MAX as u64) {
            Some(n) => {
                if n == 0 {
                    return Err("--concurrency 至少要是 1".to_owned());
                }
                a.concurrency = n as usize;
            },
            None => {
                return Err("--concurrency 要接數字".to_owned());
            },
        },
        Wants::Lines => match parse(v, usize::MAX as u64) {
            Some(n) => {
                a.lines = n as usize;
            },
            None => {
                return Err("--lines 要接數字".to_owned());
            },
        },
    }
    Ok(())
}

fn take_word(a: &mut Args, s: &str, first: bool) -> (r: Result<(), String>)
    ensures
        step(final(a)@, r) == word(old(a)@, s@, first),
{
    if first && same(s, "status") {
        a.cmd = Cmd::Status;
    } else if first && same(s, "logs") {
        a.cmd = Cmd::Logs;
    } else if first && same(s, "update") {
        a.cmd = Cmd::Update;
    } else if first && same(s, "record") {
        a.cmd = Cmd::Record;
    } else if has_prefix(s, "http") {
        push_text(&mut a.urls, s);
    } else {
        return Err(cat("看不懂的參數：", s));
    }
    Ok(())
}

/// Reads the arguments behind the program's name. `out` is where downloads go
/// by default.
pub fn parse_args(args: &Vec<String>, out: &str) -> (r: Result<Args, String>)
    ensures
        args_outcome(r) == asked(texts(args@), 0, defaults(out@)),
{
    let mut a = Args {
        cmd: Cmd::Get,
        urls: Vec::new(),
        mode: Mode::Video,
        any: false,
        overwrite: false,
        browser: false,
        cookies_from: None,
        max_height: None,
        max: Duration::from_secs(3 * 3600),
        out: out.to_owned(),
        json: false,
        concurrency: 3,
        lines: 50,
    };
    let ghost all = texts(args@);
    let n: usize = args.len();
    let mut i: usize = 0;
    proof {
        assert(a@.urls =~= seq![]);
        assert(a@ =~= defaults(out@));
    }
    while i < n
        invariant
            n == args@.len(),
            all == texts(args@),
            i <= n,
            asked(all, i as int, a@) == asked(all, 0, defaults(out@)),
        decreases n - i,
    {
        let s = args[i].as_str();
        proof {
            assert(all[i as int] == s@);
            assert(all.len() == n);
        }
        if take_flag(&mut a, s) {
            i += 1;
        } else if let Some(w) = which_wants(s) {
            if i + 1 >= n {
                return Err(missing_value(w));
            }
            proof {
                assert(all[i + 1] == args@[i + 1]@);
            }
            match take_value(&mut a, w, args[i + 1].as_str()) {
                Ok(_) => {},
                Err(e) => {
                    return Err(e);
                },
            }
            i += 2;
        } else {
            match take_word(&mut a, s, i == 0) {
                Ok(_) => {},
                Err(e) => {
                    return Err(e);
                },
            }
            i += 1;
        }
    }
    Ok(a)
}

/// What is shown of an item, given its sizes and its duration as they are to be
/// shown. What is waiting, and what is fetched without a known size, is not
/// worth a line.
pub open spec fn description(
    i: ItemView,
    bytes: Seq<char>,
    total: Seq<char>,
    secs: Option<Seq<char>>,
) -> Option<Seq<char>> {
    let front = "["@ + decimal(i.id as nat) + "] "@;
    if i.status == "resolving"@ {
        Some(front + "解析中 "@ + i.title)
    } else if i.status == "downloading"@ && i.total > 0 {
        Some(front + "下載中 "@ + i.title + " — "@ + bytes + " / "@ + total)
    } else if i.status == "verifying"@ {
        Some(front + "驗證中 "@ + i.title)
    } else if i.status == "done"@ {
        let name = match i.file {
            Some(f) => f,
            None => i.title,
        };
        let lasts = match secs {
            Some(s) => "  "@ + s + "s"@,
            None => ""@,
        };
        let level = match i.verified {
            Some(v) => v,
            None => "?"@,
        };
        Some(front + "✓ "@ + name + lasts + "  ["@ + level + "]"@)
    } else if i.status == "failed"@ {
        let why = match i.error {
            Some(e) => e,
            None => ""@,
        };
        Some(front + "✗ "@ + i.title + " — "@ + why)
    } else {
        None
    }
}

/// The line that is shown for an item.
pub fn describe(i: &Item, bytes: &str, total: &str, secs: Option<&str>) -> (r: Option<String>)
    ensures
        text_of(r) == description(i@, bytes@, total@, str_of(secs)),
{
    let number = to_decimal(i.id);
    let front = cat3("[", number.as_str(), "] ");
    let f = front.as_str();
    let status = i.status.as_str();
    let title = i.title.as_str();
    if same(status, "resolving") {
        return Some(cat3(f, "解析中 ", title));
    }
    if same(status, "downloading") && i.total > 0 {
        let a = cat3(f, "下載中 ", title);
        let b = cat3(a.as_str(), " — ", bytes);
        return Some(cat3(b.as_str(), " / ", total));
    }
    if same(status, "verifying") {
        return Some(cat3(f, "驗證中 ", title));
    }
    if same(status, "done") {
        let name = match &i.file {
            Some(n) => n.as_str(),
            None => title,
        };
        let lasts = match secs {
            Some(s) => cat3("  ", s, "s"),
            None => "".to_owned(),
        };
        let level = match &i.verified {
            Some(v) => v.as_str(),
            None => "?",
        };
        let a = cat3(f, "✓ ", name);
        let b = cat3(a.as_str(), lasts.as_str(), "  [");
        return Some(cat3(b.as_str(), level, "]"));
    }
    if same(status, "failed") {
        let why = match &i.error {
            Some(e) => e.as_str(),
            None => "",
        };
        let a = cat3(f, "✗ ", title);
        return Some(cat3(a.as_str(), " — ", why));
    }
    None
}

/// How many items have been reported as done and as failed.
#[derive(Debug)]
pub struct Tally {
    done: u64,
    failed: u64,
}

impl View for Tally {
    type V = (u64, u64);

    /// The numbers of items that are done and that failed.
    closed spec fn view(&self) -> (u64, u64) {
        (self.done, self.failed)
    }
}

/// One more, as far as it can be counted.
pub open spec fn one_more(n: u64) -> u64 {
    if n < u64::MAX {
        (n + 1) as u64
    } else {
        n
    }
}

/// The tally after an item with that status was reported.
pub open spec fn counted(t: (u64, u64), status: Seq<char>) -> (u64, u64) {
    if status == "done"@ {
        (one_more(t.0), t.1)
    } else if status == "failed"@ {
        (t.0, one_more(t.1))
    } else {
        t
    }
}

/// The tally after items with those statuses were reported.
pub open spec fn counted_all(statuses: Seq<Seq<char>>) -> (u64, u64)
    decreases statuses.len(),
{
    if statuses.len() == 0 {
        (0, 0)
    } else {
        counted(counted_all(statuses.drop_last()), statuses.last())
    }
}

/// The exit code after a tally: zero means that every item is there and passed.
pub open spec fn code(t: (u64, u64)) -> u8 {
    if t.1 > 0 {
        1
    } else {
        0
    }
}

impl Tally {
    pub fn new() -> (r: Tally)
        ensures
            r@ == (0u64, 0u64),
    {
        Tally { done: 0, failed: 0 }
    }

    /// Takes a report in, however it is shown.
    pub fn observe(&mut self, i: &Item)
        ensures
            final(self)@ == counted(old(self)@, i.status@),
    {
        if same(i.status.as_str(), "done") {
            if self.done < u64::MAX {
                self.done += 1;
            }
        } else if same(i.status.as_str(), "failed") {
            if self.failed < u64::MAX {
                self.failed += 1;
            }
        }
    }

    pub fn totals(&self) -> (r: (u64, u64))
        ensures
            r == self@,
    {
        (self.done, self.failed)
    }

    pub fn exit_code(&self) -> (r: u8)
        ensures
            r == code(self@),
    {
        if self.failed > 0 {
            1
        } else {
            0
        }
    }
}

/// The exit code is zero exactly where no item was reported as failed.
pub proof fn law_exit_code_is_the_answer(statuses: Seq<Seq<char>>)
    ensures
        code(counted_all(statuses)) == 0 <==> !statuses.contains("failed"@),
    decreases statuses.len(),
{
    if statuses.len() > 0 {
        let t = statuses.drop_last();
        law_exit_code_is_the_answer(t);
        reveal_strlit("done");
        reveal_strlit("failed");
        assert("done"@.len() != "failed"@.len());
        if t.contains("failed"@) {
            let k = t.index_of("failed"@);
            assert(statuses[k] == "failed"@);
        }
        if statuses.contains("failed"@) {
            let k = statuses.index_of("failed"@);
            assert(statuses[k] == "failed"@);
            if k < t.len() {
                assert(t[k] == "failed"@);
            }
        }
        if statuses.last() == "failed"@ {
            assert(statuses[statuses.len() - 1] == "failed"@);
        }
    }
}

/// A text with spaces behind it up to the given width.
pub open spec fn widened(s: Seq<char>, width: nat) -> Seq<char> {
    if s.len() < width {
        s + Seq::new((width - s.len()) as nat, |i: int| ' ')
    } else {
        s
    }
}

fn widen(s: &str, width: usize) -> (r: String)
    ensures
        r@ == widened(s@, width as nat),
{
    let n: usize = s.unicode_len();
    let mut out = s.to_owned();
    let mut k: usize = n;
    while k < width
        invariant
            n == s@.len(),
            n <= k,
            k <= width || k == n,
            out@ == s@ + Seq::new((k - n) as nat, |i: int| ' '),
        decreases width - k,
    {
        out.push(' ');
        k += 1;
        proof {
            assert(out@ =~= s@ + Seq::new((k - n) as nat, |i: int| ' '));
        }
    }
    proof {
        assert(out@ =~= widened(s@, width as nat));
    }
    out
}

/// The line that is shown for an entry of the record. `null` is no data.
pub open spec fn log_text(e: EntryView) -> Seq<char> {
    e.time + "  "@ + widened(e.level, 5) + " "@ + e.event + (if e.data == "null"@ {
        ""@
    } else {
        "  "@ + e.data
    })
}

pub fn log_line(e: &Entry) -> (r: String)
    ensures
        r@ == log_text(e@),
{
    let detail = if same(e.data.as_str(), "null") {
        "".to_owned()
    } else {
        cat("  ", e.data.as_str())
    };
    let a = cat3(e.time.as_str(), "  ", widen(e.level.as_str(), 5).as_str());
    let b = cat3(a.as_str(), " ", e.event.as_str());
    cat(b.as_str(), detail.as_str())
}

/// How many of the items are done.
pub open spec fn done_among(items: Seq<Item>) -> nat
    decreases items.len(),
{
    if items.len() == 0 {
        0
    } else if items.last().status@ == "done"@ {
        done_among(items.drop_last()) + 1
    } else {
        done_among(items.drop_last())
    }
}

/// The last line that is shown for the history.
pub fn status_line(items: &Vec<Item>) -> (r: String)
    ensures
        r@ == "共 "@ + decimal(items@.len()) + " 筆，其中 "@ + decimal(done_among(items@)) + " 筆可播"@,
{
    let mut n: u64 = 0;
    let mut i: usize = 0;
    while i < items.len()
        invariant
            i <= items@.len(),
            n == done_among(items@.take(i as int)),
            n <= i,
        decreases items@.len() - i,
    {
        proof {
            assert(items@.take(i + 1).drop_last() =~= items@.take(i as int));
            assert(items@.take(i + 1).last() == items@[i as int]);
        }
        if same(items[i].status.as_str(), "done") {
            n += 1;
        }
        i += 1;
    }
    proof {
        assert(items@.take(i as int) =~= items@);
    }
    let a = cat3("共 ", to_decimal(items.len() as u64).as_str(), " 筆，其中 ");
    cat3(a.as_str(), to_decimal(n).as_str(), " 筆可播")
}

/// What is shown for a finished update of yt-dlp.
pub fn update_line(said: &str) -> (r: String)
    ensures
        r@ == (if said@.len() == 0 {
            "yt-dlp 已是最新版"@
        } else {
            said@
        }),
{
    if said.unicode_len() == 0 {
        "yt-dlp 已是最新版".to_owned()
    } else {
        said.to_owned()
    }
}

#[verifier::rlimit(40)]
proof fn lemma_flags_differ(a: ArgsView)
    ensures
        flag(a, "-h"@) == Some(ArgsView { cmd: Cmd::Help, ..a }),
        flag(a, "--help"@) == Some(ArgsView { cmd: Cmd::Help, ..a }),
        flag(a, "-a"@) == Some(ArgsView { mode: Mode::Audio, ..a }),
        flag(a, "--audio"@) == Some(ArgsView { mode: Mode::Audio, ..a }),
        flag(a, "-i"@) == Some(ArgsView { mode: Mode::Image, ..a }),
        flag(a, "--image"@) == Some(ArgsView { mode: Mode::Image, ..a }),
        flag(a, "--any"@) == Some(ArgsView { any: true, ..a }),
        flag(a, "--overwrite"@) == Some(ArgsView { overwrite: true, ..a }),
        flag(a, "--browser"@) == Some(ArgsView { browser: true, ..a }),
        flag(a, "--json"@) == Some(ArgsView { json: true, ..a }),
        flag(a, "--cookies"@) is None && wants("--cookies"@) == Some(Wants::Cookies),
        flag(a, "-q"@) is None && wants("-q"@) == Some(Wants::Quality),
        flag(a, "--quality"@) is None && wants("--quality"@) == Some(Wants::Quality),
        flag(a, "--max"@) is None && wants("--max"@) == Some(Wants::Max),
        flag(a, "-o"@) is None && wants("-o"@) == Some(Wants::Out),
        flag(a, "--out"@) is None && wants("--out"@) == Some(Wants::Out),
        flag(a, "-c"@) is None && wants("-c"@) == Some(Wants::Concurrency),
        flag(a, "--concurrency"@) is None && wants("--concurrency"@) == Some(Wants::Concurrency),
        flag(a, "-n"@) is None && wants("-n"@) == Some(Wants::Lines),
        flag(a, "--lines"@) is None && wants("--lines"@) == Some(Wants::Lines),
        flag(a, "status"@) is None && wants("status"@) is None,
        flag(a, "logs"@) is None && wants("logs"@) is None,
        flag(a, "update"@) is None && wants("update"@) is None,
        flag(a, "record"@) is None && wants("record"@) is None,
{
    reveal_strlit("-h");
    reveal_strlit("--help");
    reveal_strlit("-a");
    reveal_strlit("--audio");
    reveal_strlit("-i");
    reveal_strlit("--image");
    reveal_strlit("--any");
    reveal_strlit("--overwrite");
    reveal_strlit("--browser");
    reveal_strlit("--json");
    reveal_strlit("--cookies");
    reveal_strlit("-q");
    reveal_strlit("--quality");
    reveal_strlit("--max");
    reveal_strlit("-o");
    reveal_strlit("--out");
    reveal_strlit("-c");
    reveal_strlit("--concurrency");
    reveal_strlit("-n");
    reveal_strlit("--lines");
    reveal_strlit("status");
    reveal_strlit("logs");
    reveal_strlit("update");
    reveal_strlit("record");
    assert("-a"@[1] != "-h"@[1]);
    assert("-a"@.len() != "--help"@.len());
    assert("--audio"@.len() != "-h"@.len());
    assert("--audio"@.len() != "--help"@.len());
    assert("-i"@[1] != "-h"@[1]);
    assert("-i"@.len() != "--help"@.len());
    assert("-i"@[1] != "-a"@[1]);
    assert("-i"@.len() != "--audio"@.len());
    assert("--image"@.len() != "-h"@.len());
    assert("--image"@.len() != "--help"@.len());
    assert("--image"@.len() != "-a"@.len());
    assert("--image"@[2] != "--audio"@[2]);
    assert("--any"@.len() != "-h"@.len());
    assert("--any"@.len() != "--help"@.len());
    assert("--any"@.len() != "-a"@.len());
    assert("--any"@.len() != "--audio"@.len());
    assert("--any"@.len() != "-i"@.len());
    assert("--any"@.len() != "--image"@.len());
    assert("--overwrite"@.len() != "-h"@.len());
    assert("--overwrite"@.len() != "--help"@.len());
    assert("--overwrite"@.len() != "-a"@.len());
    assert("--overwrite"@.len() != "--audio"@.len());
    assert("--overwrite"@.len() != "-i"@.len());
    assert("--overwrite"@.len() != "--image"@.len());
    assert("--overwrite"@.len() != "--any"@.len());
    assert("--browser"@.len() != "-h"@.len());
    assert("--browser"@.len() != "--help"@.len());
    assert("--browser"@.len() != "-a"@.len());
    assert("--browser"@.len() != "--audio"@.len());
    assert("--browser"@.len() != "-i"@.len());
    assert("--browser"@.len() != "--image"@.len());
    assert("--browser"@.len() != "--any"@.len());
    assert("--browser"@.len() != "--overwrite"@.len());
    assert("--json"@.len() != "-h"@.len());
    assert("--json"@[2] != "--help"@[2]);
    assert("--json"@.len() != "-a"@.len());
    assert("--json"@.len() != "--audio"@.len());
    assert("--json"@.len() != "-i"@.len());
    assert("--json"@.len() != "--image"@.len());
    assert("--json"@.len() != "--any"@.len());
    assert("--json"@.len() != "--overwrite"@.len());
    assert("--json"@.len() != "--browser"@.len());
    assert("--cookies"@.len() != "-h"@.len());
    assert("--cookies"@.len() != "--help"@.len());
    assert("--cookies"@.len() != "-a"@.len());
    assert("--cookies"@.len() != "--audio"@.len());
    assert("--cookies"@.len() != "-i"@.len());
    assert("--cookies"@.len() != "--image"@.len());
    assert("--cookies"@.len() != "--any"@.len());
    assert("--cookies"@.len() != "--overwrite"@.len());
    assert("--cookies"@[2] != "--browser"@[2]);
    assert("--cookies"@.len() != "--json"@.len());
    assert("-q"@[1] != "-h"@[1]);
    assert("-q"@.len() != "--help"@.len());
    assert("-q"@[1] != "-a"@[1]);
    assert("-q"@.len() != "--audio"@.len());
    assert("-q"@[1] != "-i"@[1]);
    assert("-q"@.len() != "--image"@.len());
    assert("-q"@.len() != "--any"@.len());
    assert("-q"@.len() != "--overwrite"@.len());
    assert("-q"@.len() != "--browser"@.len());
    assert("-q"@.len() != "--json"@.len());
    assert("-q"@.len() != "--cookies"@.len());
    assert("--quality"@.len() != "-h"@.len());
    assert("--quality"@.len() != "--help"@.len());
    assert("--quality"@.len() != "-a"@.len());
    assert("--quality"@.len() != "--audio"@.len());
    assert("--quality"@.len() != "-i"@.len());
    assert("--quality"@.len() != "--image"@.len());
    assert("--quality"@.len() != "--any"@.len());
    assert("--quality"@.len() != "--overwrite"@.len());
    assert("--quality"@[2] != "--browser"@[2]);
    assert("--quality"@.len() != "--json"@.len());
    assert("--quality"@[2] != "--cookies"@[2]);
    assert("--max"@.len() != "-h"@.len());
    assert("--max"@.len() != "--help"@.len());
    assert("--max"@.len() != "-a"@.len());
    assert("--max"@.len() != "--audio"@.len());
    assert("--max"@.len() != "-i"@.len());
    assert("--max"@.len() != "--image"@.len());
    assert("--max"@[2] != "--any"@[2]);
    assert("--max"@.len() != "--overwrite"@.len());
    assert("--max"@.len() != "--browser"@.len());
    assert("--max"@.len() != "--json"@.len());
    assert("--max"@.len() != "--cookies"@.len());
    assert("--max"@.len() != "-q"@.len());
    assert("--max"@.len() != "--quality"@.len());
    assert("-o"@[1] != "-h"@[1]);
    assert("-o"@.len() != "--help"@.len());
    assert("-o"@[1] != "-a"@[1]);
    assert("-o"@.len() != "--audio"@.len());
    assert("-o"@[1] != "-i"@[1]);
    assert("-o"@.len() != "--image"@.len());
    assert("-o"@.len() != "--any"@.len());
    assert("-o"@.len() != "--overwrite"@.len());
    assert("-o"@.len() != "--browser"@.len());
    assert("-o"@.len() != "--json"@.len());
    assert("-o"@.len() != "--cookies"@.len());
    assert("-o"@[1] != "-q"@[1]);
    assert("-o"@.len() != "--quality"@.len());
    assert("-o"@.len() != "--max"@.len());
    assert("--out"@.len() != "-h"@.len());
    assert("--out"@.len() != "--help"@.len());
    assert("--out"@.len() != "-a"@.len());
    assert("--out"@.len() != "--audio"@.len());
    assert("--out"@.len() != "-i"@.len());
    assert("--out"@.len() != "--image"@.len());
    assert("--out"@[2] != "--any"@[2]);
    assert("--out"@.len() != "--overwrite"@.len());
    assert("--out"@.len() != "--browser"@.len());
    assert("--out"@.len() != "--json"@.len());
    assert("--out"@.len() != "--cookies"@.len());
    assert("--out"@.len() != "-q"@.len());
    assert("--out"@.len() != "--quality"@.len());
    assert("--out"@[2] != "--max"@[2]);
    assert("-c"@[1] != "-h"@[1]);
    assert("-c"@.len() != "--help"@.len());
    assert("-c"@[1] != "-a"@[1]);
    assert("-c"@.len() != "--audio"@.len());
    assert("-c"@[1] != "-i"@[1]);
    assert("-c"@.len() != "--image"@.len());
    assert("-c"@.len() != "--any"@.len());
    assert("-c"@.len() != "--overwrite"@.len());
    assert("-c"@.len() != "--browser"@.len());
    assert("-c"@.len() != "--json"@.len());
    assert("-c"@.len() != "--cookies"@.len());
    assert("-c"@[1] != "-q"@[1]);
    assert("-c"@.len() != "--quality"@.len());
    assert("-c"@.len() != "--max"@.len());
    assert("-c"@[1] != "-o"@[1]);
    assert("-c"@.len() != "--out"@.len());
    assert("--concurrency"@.len() != "-h"@.len());
    assert("--concurrency"@.len() != "--help"@.len());
    assert("--concurrency"@.len() != "-a"@.len());
    assert("--concurrency"@.len() != "--audio"@.len());
    assert("--concurrency"@.len() != "-i"@.len());
    assert("--concurrency"@.len() != "--image"@.len());
    assert("--concurrency"@.len() != "--any"@.len());
    assert("--concurrency"@.len() != "--overwrite"@.len());
    assert("--concurrency"@.len() != "--browser"@.len());
    assert("--concurrency"@.len() != "--json"@.len());
    assert("--concurrency"@.len() != "--cookies"@.len());
    assert("--concurrency"@.len() != "-q"@.len());
    assert("--concurrency"@.len() != "--quality"@.len());
    assert("--concurrency"@.len() != "--max"@.len());
    assert("--concurrency"@.len() != "-o"@.len());
    assert("--concurrency"@.len() != "--out"@.len());
    assert("-n"@[1] != "-h"@[1]);
    assert("-n"@.len() != "--help"@.len());
    assert("-n"@[1] != "-a"@[1]);
    assert("-n"@.len() != "--audio"@.len());
    assert("-n"@[1] != "-i"@[1]);
    assert("-n"@.len() != "--image"@.len());
    assert("-n"@.len() != "--any"@.len());
    assert("-n"@.len() != "--overwrite"@.len());
    assert("-n"@.len() != "--browser"@.len());
    assert("-n"@.len() != "--json"@.len());
    assert("-n"@.len() != "--cookies"@.len());
    assert("-n"@[1] != "-q"@[1]);
    assert("-n"@.len() != "--quality"@.len());
    assert("-n"@.len() != "--max"@.len());
    assert("-n"@[1] != "-o"@[1]);
    assert("-n"@.len() != "--out"@.len());
    assert("-n"@[1] != "-c"@[1]);
    assert("-n"@.len() != "--concurrency"@.len());
    assert("--lines"@.len() != "-h"@.len());
    assert("--lines"@.len() != "--help"@.len());
    assert("--lines"@.len() != "-a"@.len());
    assert("--lines"@[2] != "--audio"@[2]);
    assert("--lines"@.len() != "-i"@.len());
    assert("--lines"@[2] != "--image"@[2]);
    assert("--lines"@.len() != "--any"@.len());
    assert("--lines"@.len() != "--overwrite"@.len());
    assert("--lines"@.len() != "--browser"@.len());
    assert("--lines"@.len() != "--json"@.len());
    assert("--lines"@.len() != "--cookies"@.len());
    assert("--lines"@.len() != "-q"@.len());
    assert("--lines"@.len() != "--quality"@.len());
    assert("--lines"@.len() != "--max"@.len());
    assert("--lines"@.len() != "-o"@.len());
    assert("--lines"@.len() != "--out"@.len());
    assert("--lines"@.len() != "-c"@.len());
    assert("--lines"@.len() != "--concurrency"@.len());
    assert("status"@.len() != "-h"@.len());
    assert("status"@[0] != "--help"@[0]);
    assert("status"@.len() != "-a"@.len());
    assert("status"@.len() != "--audio"@.len());
    assert("status"@.len() != "-i"@.len());
    assert("status"@.len() != "--image"@.len());
    assert("status"@.len() != "--any"@.len());
    assert("status"@.len() != "--overwrite"@.len());
    assert("status"@.len() != "--browser"@.len());
    assert("status"@[0] != "--json"@[0]);
    assert("status"@.len() != "--cookies"@.len());
    assert("status"@.len() != "-q"@.len());
    assert("status"@.len() != "--quality"@.len());
    assert("status"@.len() != "--max"@.len());
    assert("status"@.len() != "-o"@.len());
    assert("status"@.len() != "--out"@.len());
    assert("status"@.len() != "-c"@.len());
    assert("status"@.len() != "--concurrency"@.len());
    assert("status"@.len() != "-n"@.len());
    assert("status"@.len() != "--lines"@.len());
    assert("logs"@.len() != "-h"@.len());
    assert("logs"@.len() != "--help"@.len());
    assert("logs"@.len() != "-a"@.len());
    assert("logs"@.len() != "--audio"@.len());
    assert("logs"@.len() != "-i"@.len());
    assert("logs"@.len() != "--image"@.len());
    assert("logs"@.len() != "--any"@.len());
    assert("logs"@.len() != "--overwrite"@.len());
    assert("logs"@.len() != "--browser"@.len());
    assert("logs"@.len() != "--json"@.len());
    assert("logs"@.len() != "--cookies"@.len());
    assert("logs"@.len() != "-q"@.len());
    assert("logs"@.len() != "--quality"@.len());
    assert("logs"@.len() != "--max"@.len());
    assert("logs"@.len() != "-o"@.len());
    assert("logs"@.len() != "--out"@.len());
    assert("logs"@.len() != "-c"@.len());
    assert("logs"@.len() != "--concurrency"@.len());
    assert("logs"@.len() != "-n"@.len());
    assert("logs"@.len() != "--lines"@.len());
    assert("update"@.len() != "-h"@.len());
    assert("update"@[0] != "--help"@[0]);
    assert("update"@.len() != "-a"@.len());
    assert("update"@.len() != "--audio"@.len());
    assert("update"@.len() != "-i"@.len());
    assert("update"@.len() != "--image"@.len());
    assert("update"@.len() != "--any"@.len());
    assert("update"@.len() != "--overwrite"@.len());
    assert("update"@.len() != "--browser"@.len());
    assert("update"@[0] != "--json"@[0]);
    assert("update"@.len() != "--cookies"@.len());
    assert("update"@.len() != "-q"@.len());
    assert("update"@.len() != "--quality"@.len());
    assert("update"@.len() != "--max"@.len());
    assert("update"@.len() != "-o"@.len());
    assert("update"@.len() != "--out"@.len());
    assert("update"@.len() != "-c"@.len());
    assert("update"@.len() != "--concurrency"@.len());
    assert("update"@.len() != "-n"@.len());
    assert("update"@.len() != "--lines"@.len());
    assert("record"@.len() != "-h"@.len());
    assert("record"@[0] != "--help"@[0]);
    assert("record"@.len() != "-a"@.len());
    assert("record"@.len() != "--audio"@.len());
    assert("record"@.len() != "-i"@.len());
    assert("record"@.len() != "--image"@.len());
    assert("record"@.len() != "--any"@.len());
    assert("record"@.len() != "--overwrite"@.len());
    assert("record"@.len() != "--browser"@.len());
    assert("record"@[0] != "--json"@[0]);
    assert("record"@.len() != "--cookies"@.len());
    assert("record"@.len() != "-q"@.len());
    assert("record"@.len() != "--quality"@.len());
    assert("record"@.len() != "--max"@.len());
    assert("record"@.len() != "-o"@.len());
    assert("record"@.len() != "--out"@.len());
    assert("record"@.len() != "-c"@.len());
    assert("record"@.len() != "--concurrency"@.len());
    assert("record"@.len() != "-n"@.len());
    assert("record"@.len() != "--lines"@.len());
}

/// A flag that stands alone changes what it names, and the next argument follows.
#[verifier::rlimit(40)]
pub proof fn law_flags_are_heeded(args: Seq<Seq<char>>, i: int, a: ArgsView)
    requires
        0 <= i < args.len(),
    ensures
        args[i] == "-h"@ ==> asked(args, i, a) == asked(args, i + 1, ArgsView { cmd: Cmd::Help, ..a }),
        args[i] == "--help"@ ==> asked(args, i, a) == asked(args, i + 1, ArgsView { cmd: Cmd::Help, ..a }),
        args[i] == "-a"@ ==> asked(args, i, a) == asked(args, i + 1, ArgsView { mode: Mode::Audio, ..a }),
        args[i] == "--audio"@ ==> asked(args, i, a) == asked(args, i + 1, ArgsView { mode: Mode::Audio, ..a }),
        args[i] == "-i"@ ==> asked(args, i, a) == asked(args, i + 1, ArgsView { mode: Mode::Image, ..a }),
        args[i] == "--image"@ ==> asked(args, i, a) == asked(args, i + 1, ArgsView { mode: Mode::Image, ..a }),
        args[i] == "--any"@ ==> asked(args, i, a) == asked(args, i + 1, ArgsView { any: true, ..a }),
        args[i] == "--overwrite"@ ==> asked(args, i, a) == asked(args, i + 1, ArgsView { overwrite: true, ..a }),
        args[i] == "--browser"@ ==> asked(args, i, a) == asked(args, i + 1, ArgsView { browser: true, ..a }),
        args[i] == "--json"@ ==> asked(args, i, a) == asked(args, i + 1, ArgsView { json: true, ..a }),
{
    lemma_flags_differ(a);
}

/// A flag that takes a value takes the next argument for it, and there has to be
/// one.
#[verifier::rlimit(40)]
pub proof fn law_values_are_heeded(args: Seq<Seq<char>>, i: int, a: ArgsView, n: u32)
    requires
        0 <= i < args.len(),
    ensures
        (args[i] == "-o"@ || args[i] == "--out"@) && i + 1 < args.len() ==> asked(args, i, a) == asked(
            args,
            i + 2,
            ArgsView { out: args[i + 1], ..a },
        ),
        args[i] == "--cookies"@ && i + 1 < args.len() && supported(args[i + 1]) ==> asked(args, i, a)
            == asked(args, i + 2, ArgsView { cookies_from: Some(args[i + 1]), ..a }),
        args[i] == "--cookies"@ && i + 1 < args.len() && !supported(args[i + 1]) ==> asked(args, i, a)
            is Err,
        (args[i] == "-q"@ || args[i] == "--quality"@) && i + 1 < args.len() && (args[i + 1] == decimal(
            n as nat,
        ) || args[i + 1] == decimal(n as nat) + "p"@) ==> asked(args, i, a) == asked(
            args,
            i + 2,
            ArgsView { max_height: Some(n), ..a },
        ),
        (args[i] == "-q"@ || args[i] == "--quality"@) && i + 1 < args.len() && lower(args[i + 1])
            == "best"@ ==> asked(args, i, a) == asked(args, i + 2, ArgsView { max_height: None, ..a }),
        (args[i] == "-c"@ || args[i] == "--concurrency"@) && i + 1 < args.len() && args[i + 1]
            == decimal(n as nat) && n > 0 ==> asked(args, i, a) == asked(
            args,
            i + 2,
            ArgsView { concurrency: n as usize, ..a },
        ),
        (args[i] == "-c"@ || args[i] == "--concurrency"@) && i + 1 < args.len() && args[i + 1]
            == decimal(0) ==> asked(args, i, a) is Err,
        (args[i] == "-n"@ || args[i] == "--lines"@) && i + 1 < args.len() && args[i + 1] == decimal(
            n as nat,
        ) ==> asked(args, i, a) == asked(args, i + 2, ArgsView { lines: n as usize, ..a }),
        args[i] == "--max"@ && i + 1 < args.len() && span_secs(args[i + 1]) == Some(n as nat) && n > 0
            ==> asked(args, i, a) == asked(
            args,
            i + 2,
            ArgsView { max: Duration { nanos: (n * 1_000_000_000) as u128 }, ..a },
        ),
        args[i] == "--max"@ && i + 1 < args.len() && span_secs(args[i + 1]) is None ==> asked(args, i, a)
            is Err,
        wants(args[i]) is Some && flag(a, args[i]) is None && i + 1 >= args.len() ==> asked(args, i, a)
            is Err,
{
    lemma_flags_differ(a);
    crate::number::law_decimal_reads_back(n as nat, u32::MAX as nat);
    crate::number::law_decimal_reads_back(n as nat, usize::MAX as nat);
    crate::number::law_decimal_reads_back(0, usize::MAX as nat);
    crate::number::lemma_decimal(n as nat);
    let d = decimal(n as nat);
    reveal_strlit("p");
    reveal_strlit("best");
    let k = Class::Is('p');
    assert(d.len() > 0 && crate::text::digit(d[0]) && crate::text::digit(d.last()));
    crate::text::lemma_after_last_is(d, k, false, d.len() as int);
    assert(d.take(d.len() as int) =~= d);
    let e = d + "p"@;
    crate::text::lemma_after_last_is(e, k, false, d.len() as int);
    assert(e.take(d.len() as int) =~= d);
    assert(e[0] == d[0]);
    assert(lower(d)[0] == d[0] && lower(e)[0] == d[0]);
}

/// A link is added to the links. The commands are commands only in front; every other
/// word is refused.
#[verifier::rlimit(40)]
pub proof fn law_words_are_heeded(args: Seq<Seq<char>>, i: int, a: ArgsView)
    requires
        0 <= i < args.len(),
    ensures
        starts_with(args[i], "http"@) ==> asked(args, i, a) == asked(
            args,
            i + 1,
            ArgsView { urls: a.urls.push(args[i]), ..a },
        ),
        i == 0 && args[i] == "status"@ ==> asked(args, i, a) == asked(
            args,
            1,
            ArgsView { cmd: Cmd::Status, ..a },
        ),
        i == 0 && args[i] == "logs"@ ==> asked(args, i, a) == asked(
            args,
            1,
            ArgsView { cmd: Cmd::Logs, ..a },
        ),
        i == 0 && args[i] == "update"@ ==> asked(args, i, a) == asked(
            args,
            1,
            ArgsView { cmd: Cmd::Update, ..a },
        ),
        i == 0 && args[i] == "record"@ ==> asked(args, i, a) == asked(
            args,
            1,
            ArgsView { cmd: Cmd::Record, ..a },
        ),
        i > 0 && (args[i] == "status"@ || args[i] == "record"@) ==> asked(args, i, a) is Err,
        flag(a, args[i]) is None && wants(args[i]) is None && !starts_with(args[i], "http"@) && i > 0
            ==> asked(args, i, a) == Err::<ArgsView, Seq<char>>("看不懂的參數："@ + args[i]),
{
    lemma_flags_differ(a);
    reveal_strlit("http");
    reveal_strlit("-h");
    reveal_strlit("--help");
    reveal_strlit("-a");
    reveal_strlit("--audio");
    reveal_strlit("-i");
    reveal_strlit("--image");
    reveal_strlit("--any");
    reveal_strlit("--overwrite");
    reveal_strlit("--browser");
    reveal_strlit("--json");
    reveal_strlit("--cookies");
    reveal_strlit("-q");
    reveal_strlit("--quality");
    reveal_strlit("--max");
    reveal_strlit("-o");
    reveal_strlit("--out");
    reveal_strlit("-c");
    reveal_strlit("--concurrency");
    reveal_strlit("-n");
    reveal_strlit("--lines");
    reveal_strlit("status");
    reveal_strlit("logs");
    reveal_strlit("update");
    reveal_strlit("record");
    let s = args[i];
    if starts_with(s, "http"@) {
        assert("http"@.len() == 4 && "http"@[0] == 'h');
        assert(s.take(4)[0] == s[0]);
        assert(flag(a, s) is None && wants(s) is None);
    }
    assert("logs"@.len() != "status"@.len());
    assert("update"@[0] != "status"@[0]);
    assert("update"@.len() != "logs"@.len());
    assert("record"@[0] != "status"@[0]);
    assert("record"@.len() != "logs"@.len());
    assert("record"@[0] != "update"@[0]);
    if s == "status"@ || s == "record"@ {
        assert(s.take(4)[0] == s[0]);
    }
}

/// Without arguments links are fetched as videos of any height, three at a time, pages
/// are refused, what is there is kept, and a recording ends after three hours.
pub proof fn law_defaults(out: Seq<char>)
    ensures
        asked(seq![], 0, defaults(out)) == Ok::<ArgsView, Seq<char>>(defaults(out)),
        defaults(out).cmd == Cmd::Get && defaults(out).urls.len() == 0 && defaults(out).mode
            == Mode::Video,
        !defaults(out).any && !defaults(out).overwrite && !defaults(out).browser && !defaults(out).json,
        defaults(out).cookies_from is None && defaults(out).max_height is None && defaults(out).out
            == out,
        defaults(out).max.nanos == 10_800_000_000_000 && defaults(out).concurrency == 3 && defaults(
            out,
        ).lines == 50,
{
}

/// What is shown of an item says where it stands: its number, a word for its state,
/// its title or file, and what belongs to the state.
#[verifier::rlimit(40)]
pub proof fn law_states_are_described(i: ItemView, bytes: Seq<char>, total: Seq<char>, secs: Option<Seq<char>>)
    ensures
        i.status == "resolving"@ ==> description(i, bytes, total, secs) == Some(
            "["@ + decimal(i.id as nat) + "] 解析中 "@ + i.title,
        ),
        i.status == "verifying"@ ==> description(i, bytes, total, secs) == Some(
            "["@ + decimal(i.id as nat) + "] 驗證中 "@ + i.title,
        ),
        i.status == "downloading"@ && i.total > 0 ==> description(i, bytes, total, secs) == Some(
            "["@ + decimal(i.id as nat) + "] 下載中 "@ + i.title + " — "@ + bytes + " / "@ + total,
        ),
        i.status == "downloading"@ && i.total == 0 ==> description(i, bytes, total, secs) is None,
        i.status == "queued"@ ==> description(i, bytes, total, secs) is None,
        i.status == "failed"@ && i.error is Some ==> description(i, bytes, total, secs) == Some(
            "["@ + decimal(i.id as nat) + "] ✗ "@ + i.title + " — "@ + i.error->0,
        ),
        i.status == "done"@ && i.file is Some && i.verified is Some && secs is Some ==> description(
            i,
            bytes,
            total,
            secs,
        ) == Some(
            "["@ + decimal(i.id as nat) + "] ✓ "@ + i.file->0 + "  "@ + secs->0 + "s  ["@ + i.verified->0
                + "]"@,
        ),
        i.status == "done"@ && i.file is None && i.verified is None && secs is None ==> description(
            i,
            bytes,
            total,
            secs,
        ) == Some("["@ + decimal(i.id as nat) + "] ✓ "@ + i.title + "  [?]"@),
{
    reveal_strlit("resolving");
    reveal_strlit("downloading");
    reveal_strlit("verifying");
    reveal_strlit("done");
    reveal_strlit("failed");
    reveal_strlit("queued");
    reveal_strlit("] ");
    reveal_strlit("] 解析中 ");
    reveal_strlit("解析中 ");
    reveal_strlit("] 驗證中 ");
    reveal_strlit("驗證中 ");
    reveal_strlit("] 下載中 ");
    reveal_strlit("下載中 ");
    reveal_strlit("] ✗ ");
    reveal_strlit("✗ ");
    reveal_strlit("] ✓ ");
    reveal_strlit("✓ ");
    reveal_strlit("s");
    reveal_strlit("s  [");
    reveal_strlit("  [");
    reveal_strlit("  [?]");
    reveal_strlit("?");
    reveal_strlit("]");
    reveal_strlit("");
    assert("downloading"@.len() != "resolving"@.len());
    assert("verifying"@[0] != "resolving"@[0]);
    assert("verifying"@.len() != "downloading"@.len());
    assert("done"@.len() != "resolving"@.len());
    assert("done"@.len() != "downloading"@.len());
    assert("done"@.len() != "verifying"@.len());
    assert("failed"@.len() != "resolving"@.len());
    assert("failed"@.len() != "downloading"@.len());
    assert("failed"@.len() != "verifying"@.len());
    assert("failed"@.len() != "done"@.len());
    assert("queued"@.len() != "resolving"@.len());
    assert("queued"@.len() != "downloading"@.len());
    assert("queued"@.len() != "verifying"@.len());
    assert("queued"@.len() != "done"@.len());
    assert("queued"@[0] != "failed"@[0]);
    let front = "["@ + decimal(i.id as nat) + "] "@;
    let n = "["@ + decimal(i.id as nat);
    assert(front + "解析中 "@ + i.title =~= n + "] 解析中 "@ + i.title);
    assert(front + "驗證中 "@ + i.title =~= n + "] 驗證中 "@ + i.title);
    assert(front + "下載中 "@ + i.title + " — "@ + bytes + " / "@ + total =~= n + "] 下載中 "@ + i.title
        + " — "@ + bytes + " / "@ + total);
    if i.error is Some {
        assert(front + "✗ "@ + i.title + " — "@ + i.error->0 =~= n + "] ✗ "@ + i.title + " — "@
            + i.error->0);
    }
    if i.file is Some && i.verified is Some && secs is Some {
        assert(front + "✓ "@ + i.file->0 + ("  "@ + secs->0 + "s"@) + "  ["@ + i.verified->0 + "]"@
            =~= n + "] ✓ "@ + i.file->0 + "  "@ + secs->0 + "s  ["@ + i.verified->0 + "]"@);
    }
    assert(front + "✓ "@ + i.title + ""@ + "  ["@ + "?"@ + "]"@ =~= n + "] ✓ "@ + i.title + "  [?]"@);
}

/// Each report of an end is counted once, under the end that it reports.
pub proof fn law_ends_are_counted(t: (u64, u64), status: Seq<char>)
    requires
        t.0 < u64::MAX && t.1 < u64::MAX,
    ensures
        status == "done"@ ==> counted(t, status) == ((t.0 + 1) as u64, t.1),
        status == "failed"@ ==> counted(t, status) == (t.0, (t.1 + 1) as u64),
        status != "done"@ && status != "failed"@ ==> counted(t, status) == t,
        code(t) == (if t.1 > 0 {
            1u8
        } else {
            0u8
        }),
{
    reveal_strlit("done");
    reveal_strlit("failed");
    assert("done"@.len() != "failed"@.len());
}

/// A line of the record shows when, how grave, what, and the data where there are any.
pub proof fn law_entries_are_shown(e: EntryView)
    ensures
        e.level.len() == 5 && e.data == "null"@ ==> log_text(e) == e.time + "  "@ + e.level + " "@
            + e.event,
        e.level.len() == 4 && e.data == "null"@ ==> log_text(e) == e.time + "  "@ + e.level + "  "@
            + e.event,
        e.level.len() == 5 && e.data != "null"@ ==> log_text(e) == e.time + "  "@ + e.level + " "@
            + e.event + "  "@ + e.data,
{
    reveal_strlit(" ");
    reveal_strlit("  ");
    reveal_strlit("");
    if e.data == "null"@ {
        if e.level.len() == 5 {
            assert(log_text(e) =~= e.time + "  "@ + e.level + " "@ + e.event);
        }
        if e.level.len() == 4 {
            assert(log_text(e) =~= e.time + "  "@ + e.level + "  "@ + e.event);
        }
    } else if e.level.len() == 5 {
        assert(log_text(e) =~= e.time + "  "@ + e.level + " "@ + e.event + "  "@ + e.data);
    }
}

/// What is done among the items is counted one by one.
pub proof fn law_done_is_counted(items: Seq<Item>, i: Item)
    ensures
        i.status@ == "done"@ ==> done_among(items.push(i)) == done_among(items) + 1,
        i.status@ != "done"@ ==> done_among(items.push(i)) == done_among(items),
        done_among(seq![]) == 0,
{
    assert(items.push(i).drop_last() =~= items);
}

/// A flag without its value is refused with the words for what is missing.
pub proof fn law_missing_values_are_told(args: Seq<Seq<char>>, a: ArgsView)
    requires
        args.len() > 0,
    ensures
        args.last() == "--cookies"@ ==> asked(args, args.len() - 1, a) == Err::<ArgsView, Seq<char>>(
            "--cookies 後面要接瀏覽器名稱"@,
        ),
        args.last() == "-q"@ ==> asked(args, args.len() - 1, a) == Err::<ArgsView, Seq<char>>(
            "--quality 後面要接數字或 best"@,
        ),
        args.last() == "--quality"@ ==> asked(args, args.len() - 1, a) == Err::<ArgsView, Seq<char>>(
            "--quality 後面要接數字或 best"@,
        ),
        args.last() == "--max"@ ==> asked(args, args.len() - 1, a) == Err::<ArgsView, Seq<char>>(
            "--max 後面要接時長"@,
        ),
        args.last() == "-o"@ ==> asked(args, args.len() - 1, a) == Err::<ArgsView, Seq<char>>(
            "--out 後面要接資料夾路徑"@,
        ),
        args.last() == "--out"@ ==> asked(args, args.len() - 1, a) == Err::<ArgsView, Seq<char>>(
            "--out 後面要接資料夾路徑"@,
        ),
        args.last() == "-c"@ ==> asked(args, args.len() - 1, a) == Err::<ArgsView, Seq<char>>(
            "--concurrency 後面要接數字"@,
        ),
        args.last() == "--concurrency"@ ==> asked(args, args.len() - 1, a) == Err::<ArgsView, Seq<char>>(
            "--concurrency 後面要接數字"@,
        ),
        args.last() == "-n"@ ==> asked(args, args.len() - 1, a) == Err::<ArgsView, Seq<char>>(
            "--lines 後面要接數字"@,
        ),
        args.last() == "--lines"@ ==> asked(args, args.len() - 1, a) == Err::<ArgsView, Seq<char>>(
            "--lines 後面要接數字"@,
        ),
{
    lemma_flags_differ(a);
}

/// A value that cannot be one is refused with the words for what it should be.
pub proof fn law_bad_values_are_told(args: Seq<Seq<char>>, i: int, a: ArgsView)
    requires
        0 <= i,
        i + 1 < args.len(),
    ensures
        (args[i] == "-q"@ || args[i] == "--quality"@) && lower(args[i + 1]) != "best"@ && parsed(
            cut_end(args[i + 1], Class::Is('p')),
            u32::MAX as nat,
        ) is None ==> asked(args, i, a) == Err::<ArgsView, Seq<char>>(
            "--quality 要接數字（例如 1080）或 best"@,
        ),
        args[i] == "--max"@ && (span_secs(args[i + 1]) is None || span_secs(args[i + 1]) == Some(0nat))
            ==> asked(args, i, a) == Err::<ArgsView, Seq<char>>("--max 要接時長（例如 30m、2h）"@),
        (args[i] == "-c"@ || args[i] == "--concurrency"@) && parsed(args[i + 1], usize::MAX as nat)
            == Some(0nat) ==> asked(args, i, a) == Err::<ArgsView, Seq<char>>(
            "--concurrency 至少要是 1"@,
        ),
        (args[i] == "-c"@ || args[i] == "--concurrency"@) && parsed(args[i + 1], usize::MAX as nat)
            is None ==> asked(args, i, a) == Err::<ArgsView, Seq<char>>("--concurrency 要接數字"@),
        (args[i] == "-n"@ || args[i] == "--lines"@) && parsed(args[i + 1], usize::MAX as nat) is None
            ==> asked(args, i, a) == Err::<ArgsView, Seq<char>>("--lines 要接數字"@),
        args[i] == "--cookies"@ && !supported(args[i + 1]) ==> asked(args, i, a) == Err::<
            ArgsView,
            Seq<char>,
        >(unknown_browser(args[i + 1])),
{
    lemma_flags_differ(a);
}

/// What an args is taken to say is what it holds.
pub proof fn law_said_of_args(x: Args)
    ensures
        x@.cmd == x.cmd,
        x@.urls == texts(x.urls@),
        x@.mode == x.mode,
        x@.any == x.any,
        x@.overwrite == x.overwrite,
        x@.browser == x.browser,
        x@.cookies_from == text_of(x.cookies_from),
        x@.max_height == x.max_height,
        x@.max == x.max,
        x@.out == x.out@,
        x@.json == x.json,
        x@.concurrency == x.concurrency,
        x@.lines == x.lines,
{
}

/// What came of reading arguments is what was read, or the words why not.
pub proof fn law_said_of_reading(a: Args, v: ArgsView, e: String)
    ensures
        args_outcome(Ok(a)) == Ok::<ArgsView, Seq<char>>(a@),
        args_outcome(Err(e)) == Err::<ArgsView, Seq<char>>(e@),
        step(v, Ok(())) == Ok::<ArgsView, Seq<char>>(v),
        step(v, Err(e)) == Err::<ArgsView, Seq<char>>(e@),
{
}

/// There are no other flags.
pub proof fn law_no_other_flags(a: ArgsView, s: Seq<char>)
    ensures
        flag(a, s) is Some ==> {
            ||| s == "-h"@
            ||| s == "--help"@
            ||| s == "-a"@
            ||| s == "--audio"@
            ||| s == "-i"@
            ||| s == "--image"@
            ||| s == "--any"@
            ||| s == "--overwrite"@
            ||| s == "--browser"@
            ||| s == "--json"@
        },
        wants(s) is Some ==> {
            ||| s == "--cookies"@
            ||| s == "-q"@
            ||| s == "--quality"@
            ||| s == "--max"@
            ||| s == "-o"@
            ||| s == "--out"@
            ||| s == "-c"@
            ||| s == "--concurrency"@
            ||| s == "-n"@
            ||| s == "--lines"@
        },
{
}

/// A limit of any number of seconds but none is taken.
pub proof fn law_any_limit_is_taken(args: Seq<Seq<char>>, i: int, a: ArgsView, n: u64)
    requires
        0 <= i,
        i + 1 < args.len(),
        args[i] == "--max"@,
        span_secs(args[i + 1]) == Some(n as nat),
        n > 0,
    ensures
        asked(args, i, a) == asked(
            args,
            i + 2,
            ArgsView { max: Duration { nanos: (n * 1_000_000_000) as u128 }, ..a },
        ),
{
    lemma_flags_differ(a);
}

/// Without reports nothing is counted.
pub proof fn law_count_begins_at_zero(statuses: Seq<Seq<char>>, s: Seq<char>)
    ensures
        counted_all(seq![]) == (0u64, 0u64),
        counted_all(statuses.push(s)) == counted(counted_all(statuses), s),
{
    assert(statuses.push(s).drop_last() =~= statuses);
}

} // verus!
