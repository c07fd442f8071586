//! The program's own record: one entry per line, files that are pushed back
//! when they are full, and the last entries read back from all of them.

use vstd::prelude::*;
use crate::calendar::{
    civil_from_days, date_of, law_number_names_one_date, law_numbers_follow_the_dates,
    lemma_date_exists, lemma_four_digit_years, Date,
};
use crate::number::{
    decimal, lemma_four_digits, lemma_padded, lemma_padded_less, lemma_two_digits, padded,
    to_decimal, to_padded,
};
use crate::paths::{self, Platform};
use crate::text::{
    cat, cat3, digit, lemma_field_less, lemma_field_same, push_text, text_less, texts,
};

verus! {

/// The size at which a file is pushed back.
pub const MAX_BYTES: u64 = 4_194_304;

/// How many pushed-back files are kept.
pub const KEEP: usize = 3;

/// One entry.
#[derive(Clone, Debug)]
pub struct Entry {
    /// The time for people.
    pub time: String,
    /// The time for sorting, in milliseconds since 1970.
    pub ts: u64,
    pub level: String,
    pub event: String,
    /// What belongs to the event, as JSON.
    pub data: String,
}

/// What an entry says.
#[verifier::ext_equal]
pub struct EntryView {
    pub time: Seq<char>,
    pub ts: u64,
    pub level: Seq<char>,
    pub event: Seq<char>,
    pub data: Seq<char>,
}

impl View for Entry {
    type V = EntryView;

    open spec fn view(&self) -> EntryView {
        EntryView {
            time: self.time@,
            ts: self.ts,
            level: self.level@,
            event: self.event@,
            data: self.data@,
        }
    }
}

/// A date and the seconds of its day as `YYYY-MM-DDTHH:MM:SSZ`.
pub open spec fn stamp(d: Date, secs: nat) -> Seq<char> {
    padded(d.year as nat, 4) + "-"@ + padded(d.month as nat, 2) + "-"@ + padded(d.day as nat, 2)
        + "T"@ + padded(secs / 3600, 2) + ":"@ + padded((secs % 3600) / 60, 2) + ":"@ + padded(
        secs % 60,
        2,
    ) + "Z"@
}

/// The time that lies that many seconds after the start of 1970, in UTC.
pub open spec fn timestamp(secs: u64) -> Seq<char> {
    stamp(date_of((secs / 86_400) as int), (secs % 86_400) as nat)
}

/// Writes a time, given in seconds since 1970, as `YYYY-MM-DDTHH:MM:SSZ`.
pub fn iso8601(secs: u64) -> (r: String)
    ensures
        r@ == timestamp(secs),
{
    let d = civil_from_days(secs / 86_400);
    let rem: u64 = secs % 86_400;
    let date = cat3(to_padded(d.year as u64, 4).as_str(), "-", to_padded(d.month as u64, 2).as_str());
    let date = cat3(date.as_str(), "-", to_padded(d.day as u64, 2).as_str());
    let time = cat3(date.as_str(), "T", to_padded(rem / 3600, 2).as_str());
    let time = cat3(time.as_str(), ":", to_padded((rem % 3600) / 60, 2).as_str());
    let time = cat3(time.as_str(), ":", to_padded(rem % 60, 2).as_str());
    cat(time.as_str(), "Z")
}

/// The path of the `n`th pushed-back file.
pub open spec fn numbered_path(path: Seq<char>, n: nat) -> Seq<char> {
    path + "."@ + decimal(n)
}

pub fn numbered(path: &str, n: usize) -> (r: String)
    ensures
        r@ == numbered_path(path@, n as nat),
{
    cat3(path, ".", to_decimal(n as u64).as_str())
}

/// The steps that push the files back when the current one, which is number
/// zero, is full: each takes the place of the next, the oldest first.
pub open spec fn push_back(keep: nat) -> Seq<(nat, nat)>
    decreases keep,
{
    if keep == 0 {
        seq![]
    } else if keep == 1 {
        seq![(0, 1)]
    } else {
        seq![((keep - 1) as nat, keep)] + push_back((keep - 1) as nat)
    }
}

pub open spec fn steps_of(v: Seq<(usize, usize)>) -> Seq<(nat, nat)> {
    v.map_values(|p: (usize, usize)| (p.0 as nat, p.1 as nat))
}

/// Files by their numbers after the file `a`, if it is there, has been renamed
/// to `b`.
pub open spec fn renamed<T>(files: Map<nat, T>, step: (nat, nat)) -> Map<nat, T> {
    if files.contains_key(step.0) {
        files.remove(step.0).insert(step.1, files[step.0])
    } else {
        files
    }
}

pub open spec fn all_renamed<T>(files: Map<nat, T>, steps: Seq<(nat, nat)>) -> Map<nat, T>
    decreases steps.len(),
{
    if steps.len() == 0 {
        files
    } else {
        all_renamed(renamed(files, steps[0]), steps.skip(1))
    }
}

/// Pushing back loses the oldest file alone: every other one, the current one
/// among them, moves on by one place with what it holds, and the place of the
/// current one is free.
pub proof fn law_push_back_keeps_the_newest<T>(files: Map<nat, T>, keep: nat, n: nat)
    requires
        keep > 0,
        n < keep,
        files.contains_key(n),
    ensures
        all_renamed(files, push_back(keep)).contains_key(n + 1),
        all_renamed(files, push_back(keep))[n + 1] == files[n],
        !all_renamed(files, push_back(keep)).contains_key(0),
    decreases keep,
{
    let steps = push_back(keep);
    let next = renamed(files, steps[0]);
    if keep == 1 {
        assert(steps.skip(1) =~= seq![]);
        assert(all_renamed(next, steps.skip(1)) == next);
    } else {
        assert(steps.skip(1) =~= push_back((keep - 1) as nat));
        if n < keep - 1 {
            assert(next.contains_key(n) && next[n] == files[n]);
            law_push_back_keeps_the_newest(next, (keep - 1) as nat, n);
        } else {
            lemma_push_back_frees_zero(next, (keep - 1) as nat);
            lemma_push_back_spares(next, (keep - 1) as nat, keep);
        }
    }
}

proof fn lemma_push_back_spares<T>(files: Map<nat, T>, keep: nat, n: nat)
    requires
        n > keep,
    ensures
        all_renamed(files, push_back(keep)).contains_key(n) == files.contains_key(n),
        files.contains_key(n) ==> all_renamed(files, push_back(keep))[n] == files[n],
    decreases keep,
{
    let steps = push_back(keep);
    if keep == 1 {
        assert(steps.skip(1) =~= seq![]);
        assert(all_renamed(renamed(files, steps[0]), steps.skip(1)) == renamed(files, steps[0]));
    } else if keep > 1 {
        assert(steps.skip(1) =~= push_back((keep - 1) as nat));
        lemma_push_back_spares(renamed(files, steps[0]), (keep - 1) as nat, n);
    }
}

proof fn lemma_push_back_frees_zero<T>(files: Map<nat, T>, keep: nat)
    requires
        keep > 0,
    ensures
        !all_renamed(files, push_back(keep)).contains_key(0),
    decreases keep,
{
    let steps = push_back(keep);
    if keep == 1 {
        assert(steps.skip(1) =~= seq![]);
        assert(all_renamed(renamed(files, steps[0]), steps.skip(1)) == renamed(files, steps[0]));
    } else {
        assert(steps.skip(1) =~= push_back((keep - 1) as nat));
        lemma_push_back_frees_zero(renamed(files, steps[0]), (keep - 1) as nat);
    }
}

/// Where the record is kept, and how much of it.
pub struct Logger {
    path: String,
    max_bytes: u64,
    keep: usize,
}

/// What is known of a record.
#[verifier::ext_equal]
pub struct LoggerView {
    pub path: Seq<char>,
    pub max_bytes: u64,
    pub keep: usize,
}

impl View for Logger {
    type V = LoggerView;

    closed spec fn view(&self) -> LoggerView {
        LoggerView { path: self.path@, max_bytes: self.max_bytes, keep: self.keep }
    }
}

impl Logger {
    /// The record in the given directory.
    pub fn new(platform: Platform, dir: &str) -> (r: Logger)
        ensures
            r@ == (LoggerView {
                path: paths::joined(platform, dir@, "haul.log"@),
                max_bytes: MAX_BYTES,
                keep: KEEP,
            }),
    {
        Logger { path: paths::join(platform, dir, "haul.log"), max_bytes: MAX_BYTES, keep: KEEP }
    }

    pub fn path(&self) -> (r: &str)
        ensures
            r@ == self@.path,
    {
        self.path.as_str()
    }

    /// An entry of the level `info`. The time is given in milliseconds since
    /// 1970, `data` as JSON.
    pub fn info(&self, event: &str, data: &str, millis: u64) -> (r: Entry)
        ensures
            r@ == entry("info"@, event@, data@, millis),
    {
        self.write("info", event, data, millis)
    }

    /// An entry of the level `warn`.
    pub fn warn(&self, event: &str, data: &str, millis: u64) -> (r: Entry)
        ensures
            r@ == entry("warn"@, event@, data@, millis),
    {
        self.write("warn", event, data, millis)
    }

    /// An entry of the level `error`.
    pub fn error(&self, event: &str, data: &str, millis: u64) -> (r: Entry)
        ensures
            r@ == entry("error"@, event@, data@, millis),
    {
        self.write("error", event, data, millis)
    }

    fn write(&self, level: &str, event: &str, data: &str, millis: u64) -> (r: Entry)
        ensures
            r@ == entry(level@, event@, data@, millis),
    {
        Entry {
            time: iso8601(millis / 1000),
            ts: millis,
            level: level.to_owned(),
            event: event.to_owned(),
            data: data.to_owned(),
        }
    }

    /// The renamings to make before the next entry is written, given the size
    /// of the current file, if there is one. The current file is number zero.
    pub fn rotate_if_needed(&self, size: Option<u64>) -> (r: Vec<(usize, usize)>)
        requires
            self@.keep > 0,
        ensures
            steps_of(r@) == (if size matches Some(n) && n >= self@.max_bytes {
                push_back(self@.keep as nat)
            } else {
                seq![]
            }),
    {
        let mut out: Vec<(usize, usize)> = Vec::new();
        let full = match size {
            Some(n) => n >= self.max_bytes,
            None => false,
        };
        if !full {
            proof {
                assert(steps_of(out@) =~= seq![]);
            }
            return out;
        }
        let mut n: usize = self.keep;
        proof {
            assert(steps_of(out@) + push_back(n as nat) =~= push_back(n as nat));
        }
        while n > 1
            invariant
                n >= 1,
                steps_of(out@) + push_back(n as nat) == push_back(self.keep as nat),
            decreases n,
        {
            let ghost done = steps_of(out@);
            out.push((n - 1, n));
            proof {
                assert(steps_of(out@) =~= done.push(((n - 1) as nat, n as nat)));
                assert(steps_of(out@) + push_back((n - 1) as nat) =~= done + push_back(n as nat));
            }
            n -= 1;
        }
        let ghost done = steps_of(out@);
        out.push((0, 1));
        proof {
            assert(steps_of(out@) =~= done + push_back(1));
        }
        out
    }
}

/// An entry made at the given time.
pub open spec fn entry(level: Seq<char>, event: Seq<char>, data: Seq<char>, millis: u64) -> EntryView {
    EntryView { time: timestamp(millis / 1000), ts: millis, level, event, data }
}

/// The files to read back, the oldest first, the current one last.
pub open spec fn tail_line(path: Seq<char>, n: nat) -> Seq<Seq<char>>
    decreases n,
{
    if n == 0 {
        seq![path]
    } else {
        seq![numbered_path(path, n)] + tail_line(path, (n - 1) as nat)
    }
}

pub fn tail_files(path: &str) -> (r: Vec<String>)
    ensures
        texts(r@) == tail_line(path@, KEEP as nat),
{
    let mut out: Vec<String> = Vec::new();
    let mut n: usize = KEEP;
    proof {
        assert(texts(out@) + tail_line(path@, n as nat) =~= tail_line(path@, n as nat));
    }
    while n > 0
        invariant
            texts(out@) + tail_line(path@, n as nat) == tail_line(path@, KEEP as nat),
        decreases n,
    {
        let ghost done = texts(out@);
        push_text(&mut out, numbered(path, n).as_str());
        proof {
            assert(texts(out@) + tail_line(path@, (n - 1) as nat) =~= done + tail_line(path@, n as nat));
        }
        n -= 1;
    }
    let ghost done = texts(out@);
    push_text(&mut out, path);
    proof {
        assert(texts(out@) =~= done + tail_line(path@, 0));
    }
    out
}

/// A list in the order of time with one more entry put in, after those of the
/// same time.
pub open spec fn placed(s: Seq<EntryView>, e: EntryView) -> Seq<EntryView>
    decreases s.len(),
{
    if s.len() == 0 || s.last().ts <= e.ts {
        s.push(e)
    } else {
        placed(s.drop_last(), e).push(s.last())
    }
}

/// The entries in the order of time, those of the same time in the order in
/// which they came.
pub open spec fn in_order(s: Seq<EntryView>) -> Seq<EntryView>
    decreases s.len(),
{
    if s.len() == 0 {
        s
    } else {
        placed(in_order(s.drop_last()), s.last())
    }
}

/// The last entries, at most `limit` of them.
pub open spec fn latest(s: Seq<EntryView>, limit: nat) -> Seq<EntryView> {
    let o = in_order(s);
    if o.len() > limit {
        o.skip(o.len() - limit)
    } else {
        o
    }
}

pub open spec fn entry_views(v: Seq<Entry>) -> Seq<EntryView> {
    v.map_values(|e: Entry| e@)
}

proof fn lemma_placed_at(s: Seq<EntryView>, e: EntryView, i: int)
    requires
        0 <= i <= s.len(),
        i > 0 ==> s[i - 1].ts <= e.ts,
        forall|j: int| i <= j < s.len() ==> (#[trigger] s[j]).ts > e.ts,
    ensures
        placed(s, e) == s.insert(i, e),
    decreases s.len(),
{
    if i == s.len() {
        assert(s.insert(i, e) =~= s.push(e));
    } else {
        let t = s.drop_last();
        assert(s.last() == s[s.len() - 1]);
        assert forall|j: int| i <= j < t.len() implies (#[trigger] t[j]).ts > e.ts by {
            assert(t[j] == s[j]);
        }
        lemma_placed_at(t, e, i);
        assert(t.insert(i, e).push(s.last()) =~= s.insert(i, e));
    }
}

/// The last entries of the record, at most `limit` of them, in the order of
/// time.
pub fn tail(entries: Vec<Entry>, limit: usize) -> (r: Vec<Entry>)
    ensures
        entry_views(r@) == latest(entry_views(entries@), limit as nat),
{
    let ghost all = entry_views(entries@);
    let mut rest = entries;
    let n: usize = rest.len();
    let mut out: Vec<Entry> = Vec::new();
    let mut k: usize = 0;
    proof {
        assert(entry_views(out@) =~= in_order(all.take(0)));
        assert(entry_views(rest@) =~= all.skip(0));
    }
    while k < n
        invariant
            n == all.len(),
            k <= n,
            rest@.len() == n - k,
            entry_views(rest@) == all.skip(k as int),
            entry_views(out@) == in_order(all.take(k as int)),
        decreases n - k,
    {
        let ghost before = rest@;
        let e = rest.remove(0);
        let ghost ev = e@;
        proof {
            assert(ev == all[k as int]) by {
                assert(entry_views(before)[0] == ev);
                assert(all.skip(k as int)[0] == all[k as int]);
            }
            assert(entry_views(rest@) =~= all.skip(k + 1)) by {
                assert forall|j: int| 0 <= j < rest@.len() implies (#[trigger] entry_views(rest@)[j])
                    == all.skip(k + 1)[j] by {
                    assert(rest@[j] == before[j + 1]);
                    assert(entry_views(before)[j + 1] == all.skip(k as int)[j + 1]);
                }
            }
            assert(all.take(k + 1).drop_last() =~= all.take(k as int));
            assert(all.take(k + 1).last() == ev);
        }
        let ghost sorted = entry_views(out@);
        let mut i: usize = out.len();
        while i > 0 && out[i - 1].ts > e.ts
            invariant
                e@ == ev,
                sorted == entry_views(out@),
                i <= out@.len(),
                forall|j: int| i <= j < sorted.len() ==> (#[trigger] sorted[j]).ts > ev.ts,
            decreases i,
        {
            proof {
                assert(sorted[i - 1] == out@[i - 1]@);
            }
            i -= 1;
        }
        proof {
            if i > 0 {
                assert(sorted[i - 1] == out@[i - 1]@);
            }
            lemma_placed_at(sorted, ev, i as int);
        }
        out.insert(i, e);
        proof {
            assert(entry_views(out@) =~= sorted.insert(i as int, ev));
        }
        k += 1;
    }
    proof {
        assert(all.take(k as int) =~= all);
        assert(entry_views(out@).len() == out@.len());
    }
    if out.len() > limit {
        let cut: usize = out.len() - limit;
        let ghost full = entry_views(out@);
        let last = out.split_off(cut);
        proof {
            assert(entry_views(last@) =~= full.skip(cut as int));
        }
        return last;
    }
    out
}

pub open spec fn ordered(s: Seq<EntryView>) -> bool {
    forall|i: int, j: int| 0 <= i < j < s.len() ==> (#[trigger] s[i]).ts <= (#[trigger] s[j]).ts
}

proof fn lemma_placed(s: Seq<EntryView>, e: EntryView)
    requires
        ordered(s),
    ensures
        ordered(placed(s, e)),
        placed(s, e).to_multiset() == s.to_multiset().insert(e),
        placed(s, e).len() == s.len() + 1,
    decreases s.len(),
{
    broadcast use vstd::seq_lib::group_to_multiset_ensures;

    if s.len() == 0 || s.last().ts <= e.ts {
        let p = s.push(e);
        assert forall|i: int, j: int| 0 <= i < j < p.len() implies (#[trigger] p[i]).ts <= (
        #[trigger] p[j]).ts by {
            if j == s.len() && i < s.len() - 1 {
                assert(s[i].ts <= s[s.len() - 1].ts);
            }
        }
    } else {
        let t = s.drop_last();
        assert forall|i: int, j: int| 0 <= i < j < t.len() implies (#[trigger] t[i]).ts <= (
        #[trigger] t[j]).ts by {
            assert(s[i].ts <= s[j].ts);
        }
        lemma_placed(t, e);
        let q = placed(t, e);
        let p = q.push(s.last());
        assert(s =~= t.push(s.last()));
        assert forall|i: int, j: int| 0 <= i < j < p.len() implies (#[trigger] p[i]).ts <= (
        #[trigger] p[j]).ts by {
            if j == q.len() {
                assert(q.to_multiset().contains(q[i]));
                assert(q.to_multiset() == t.to_multiset().insert(e));
                if q[i] != e {
                    assert(t.to_multiset().contains(q[i]));
                    assert(t.contains(q[i]));
                    let m = t.index_of(q[i]);
                    assert(t[m] == q[i]);
                    assert(s[m].ts <= s[s.len() - 1].ts);
                }
            }
        }
    }
}

/// The entries are read back in the order of time, none is lost and none is
/// added.
pub proof fn law_in_order(s: Seq<EntryView>)
    ensures
        ordered(in_order(s)),
        in_order(s).to_multiset() == s.to_multiset(),
        in_order(s).len() == s.len(),
    decreases s.len(),
{
    broadcast use vstd::seq_lib::group_to_multiset_ensures;

    if s.len() > 0 {
        law_in_order(s.drop_last());
        lemma_placed(in_order(s.drop_last()), s.last());
        assert(s =~= s.drop_last().push(s.last()));
    }
}

/// What is read back is the newest: no entry that is left out is later than one
/// that is read.
pub proof fn law_tail_is_the_newest(s: Seq<EntryView>, limit: nat, left_out: int, read: int)
    requires
        0 <= left_out < in_order(s).len() - latest(s, limit).len(),
        0 <= read < latest(s, limit).len(),
    ensures
        latest(s, limit).len() == limit,
        in_order(s)[left_out].ts <= latest(s, limit)[read].ts,
{
    law_in_order(s);
    let o = in_order(s);
    assert(latest(s, limit)[read] == o[o.len() - limit + read]);
}

/// The month and the day of a date have two digits, and so have hours, minutes
/// and seconds.
proof fn lemma_stamp_parts(d: Date, secs: nat)
    requires
        d.valid(),
        secs < 86_400,
    ensures
        padded(d.month as nat, 2).len() == 2,
        padded(d.day as nat, 2).len() == 2,
        padded(secs / 3600, 2).len() == 2,
        padded((secs % 3600) / 60, 2).len() == 2,
        padded(secs % 60, 2).len() == 2,
        stamp(d, secs).len() == padded(d.year as nat, 4).len() + 16,
        ({
            let s = stamp(d, secs);
            let n = padded(d.year as nat, 4).len() as int;
            &&& s.take(n) == padded(d.year as nat, 4)
            &&& s.subrange(n + 1, n + 3) == padded(d.month as nat, 2)
            &&& s.subrange(n + 4, n + 6) == padded(d.day as nat, 2)
            &&& s.subrange(n + 7, n + 9) == padded(secs / 3600, 2)
            &&& s.subrange(n + 10, n + 12) == padded((secs % 3600) / 60, 2)
            &&& s.subrange(n + 13, n + 15) == padded(secs % 60, 2)
        }),
{
    lemma_two_digits(d.month as nat);
    lemma_two_digits(d.day as nat);
    lemma_two_digits(secs / 3600);
    lemma_two_digits((secs % 3600) / 60);
    lemma_two_digits(secs % 60);
    reveal_strlit("-");
    reveal_strlit("T");
    reveal_strlit(":");
    reveal_strlit("Z");
    let s = stamp(d, secs);
    let n = padded(d.year as nat, 4).len() as int;
    assert(s.take(n) =~= padded(d.year as nat, 4));
    assert(s.subrange(n + 1, n + 3) =~= padded(d.month as nat, 2));
    assert(s.subrange(n + 4, n + 6) =~= padded(d.day as nat, 2));
    assert(s.subrange(n + 7, n + 9) =~= padded(secs / 3600, 2));
    assert(s.subrange(n + 10, n + 12) =~= padded((secs % 3600) / 60, 2));
    assert(s.subrange(n + 13, n + 15) =~= padded(secs % 60, 2));
}

proof fn lemma_same_number(n: nat, m: nat, width: nat)
    requires
        padded(n, width) == padded(m, width),
    ensures
        n == m,
{
    lemma_padded(n, width);
    lemma_padded(m, width);
}

proof fn lemma_same_stamp(da: Date, sa: nat, db: Date, sb: nat)
    requires
        da.valid(),
        db.valid(),
        da.year >= 0,
        db.year >= 0,
        sa < 86_400,
        sb < 86_400,
        stamp(da, sa) == stamp(db, sb),
    ensures
        da == db,
        sa / 3600 == sb / 3600,
        (sa % 3600) / 60 == (sb % 3600) / 60,
        sa % 60 == sb % 60,
{
    lemma_stamp_parts(da, sa);
    lemma_stamp_parts(db, sb);
    assert(padded(da.year as nat, 4).len() == padded(db.year as nat, 4).len());
    lemma_same_number(da.year as nat, db.year as nat, 4);
    lemma_same_number(da.month as nat, db.month as nat, 2);
    lemma_same_number(da.day as nat, db.day as nat, 2);
    lemma_same_number(sa / 3600, sb / 3600, 2);
    lemma_same_number((sa % 3600) / 60, (sb % 3600) / 60, 2);
    lemma_same_number(sa % 60, sb % 60, 2);
}

/// Two times are written alike only where they are the same second.
pub proof fn law_times_are_told_apart(a: u64, b: u64)
    requires
        timestamp(a) == timestamp(b),
    ensures
        a == b,
{
    let da = date_of((a / 86_400) as int);
    let db = date_of((b / 86_400) as int);
    let sa = (a % 86_400) as nat;
    let sb = (b % 86_400) as nat;
    lemma_date_exists((a / 86_400) as int);
    lemma_date_exists((b / 86_400) as int);
    lemma_same_stamp(da, sa, db, sb);
    assert(sa == sb) by {
        assert(sa == sa / 3600 * 3600 + (sa % 3600) / 60 * 60 + sa % 60);
        assert(sb == sb / 3600 * 3600 + (sb % 3600) / 60 * 60 + sb % 60);
    }
}

/// Whether a text has the shape `YYYY-MM-DDTHH:MM:SSZ`.
pub open spec fn time_shaped(s: Seq<char>) -> bool {
    s.len() == 20 && forall|i: int|
        0 <= i < 20 ==> if i == 4 || i == 7 {
            #[trigger] s[i] == '-'
        } else if i == 10 {
            s[i] == 'T'
        } else if i == 13 || i == 16 {
            s[i] == ':'
        } else if i == 19 {
            s[i] == 'Z'
        } else {
            digit(s[i])
        }
}

proof fn lemma_stamp_shape(d: Date, secs: nat)
    requires
        d.valid(),
        0 <= d.year < 10_000,
        secs < 86_400,
    ensures
        time_shaped(stamp(d, secs)),
{
    let s = stamp(d, secs);
    lemma_stamp_parts(d, secs);
    lemma_stamp_places(d, secs);
    lemma_four_digits(d.year as nat);
    lemma_padded(d.year as nat, 4);
    lemma_padded(d.month as nat, 2);
    lemma_padded(d.day as nat, 2);
    lemma_padded(secs / 3600, 2);
    lemma_padded((secs % 3600) / 60, 2);
    lemma_padded(secs % 60, 2);
    reveal_strlit("-");
    reveal_strlit("T");
    reveal_strlit(":");
    reveal_strlit("Z");
    assert(s[4] == s.subrange(4, 5)[0] && s[7] == s.subrange(7, 8)[0]);
    assert(s[10] == s.subrange(10, 11)[0] && s[19] == s.subrange(19, 20)[0]);
    assert(s[13] == s.subrange(13, 14)[0] && s[16] == s.subrange(16, 17)[0]);
    assert forall|i: int| 0 <= i < 4 implies digit(#[trigger] s[i]) by {
        assert(s[i] == s.take(4)[i]);
    }
    assert forall|i: int| 5 <= i < 7 implies digit(#[trigger] s[i]) by {
        assert(s[i] == s.subrange(5, 7)[i - 5]);
    }
    assert forall|i: int| 8 <= i < 10 implies digit(#[trigger] s[i]) by {
        assert(s[i] == s.subrange(8, 10)[i - 8]);
    }
    assert forall|i: int| 11 <= i < 13 implies digit(#[trigger] s[i]) by {
        assert(s[i] == s.subrange(11, 13)[i - 11]);
    }
    assert forall|i: int| 14 <= i < 16 implies digit(#[trigger] s[i]) by {
        assert(s[i] == s.subrange(14, 16)[i - 14]);
    }
    assert forall|i: int| 17 <= i < 19 implies digit(#[trigger] s[i]) by {
        assert(s[i] == s.subrange(17, 19)[i - 17]);
    }
}

/// A year of four digits makes a time of twenty characters: five separators and
/// the closing letter stand at their fixed places.
proof fn lemma_stamp_places(d: Date, secs: nat)
    requires
        d.valid(),
        0 <= d.year < 10_000,
        secs < 86_400,
    ensures
        stamp(d, secs).len() == 20,
        stamp(d, secs).subrange(4, 5) == "-"@,
        stamp(d, secs).subrange(7, 8) == "-"@,
        stamp(d, secs).subrange(10, 11) == "T"@,
        stamp(d, secs).subrange(13, 14) == ":"@,
        stamp(d, secs).subrange(16, 17) == ":"@,
        stamp(d, secs).subrange(19, 20) == "Z"@,
{
    lemma_stamp_parts(d, secs);
    lemma_four_digits(d.year as nat);
    reveal_strlit("-");
    reveal_strlit("T");
    reveal_strlit(":");
    reveal_strlit("Z");
    let s = stamp(d, secs);
    assert(s.subrange(4, 5) =~= "-"@);
    assert(s.subrange(7, 8) =~= "-"@);
    assert(s.subrange(10, 11) =~= "T"@);
    assert(s.subrange(13, 14) =~= ":"@);
    assert(s.subrange(16, 17) =~= ":"@);
    assert(s.subrange(19, 20) =~= "Z"@);
}

proof fn lemma_hours_in_order(s: Seq<char>, sa: nat, t: Seq<char>, sb: nat)
    requires
        sa < sb < 86_400,
        s.len() == 20,
        t.len() == 20,
        s.take(11) == t.take(11),
        s.subrange(11, 13) == padded(sa / 3600, 2),
        t.subrange(11, 13) == padded(sb / 3600, 2),
        s.subrange(13, 14) == t.subrange(13, 14),
        s.subrange(14, 16) == padded((sa % 3600) / 60, 2),
        t.subrange(14, 16) == padded((sb % 3600) / 60, 2),
        s.subrange(16, 17) == t.subrange(16, 17),
        s.subrange(17, 19) == padded(sa % 60, 2),
        t.subrange(17, 19) == padded(sb % 60, 2),
    ensures
        text_less(s, t),
{
    if sa / 3600 < sb / 3600 {
        lemma_padded_less(sa / 3600, sb / 3600, 2);
        lemma_field_less(s, t, 11, 13);
    } else {
        lemma_field_same(s, t, 11, 13);
        lemma_field_same(s, t, 13, 14);
        if (sa % 3600) / 60 < (sb % 3600) / 60 {
            lemma_padded_less((sa % 3600) / 60, (sb % 3600) / 60, 2);
            lemma_field_less(s, t, 14, 16);
        } else {
            lemma_field_same(s, t, 14, 16);
            lemma_field_same(s, t, 16, 17);
            lemma_padded_less(sa % 60, sb % 60, 2);
            lemma_field_less(s, t, 17, 19);
        }
    }
}

proof fn lemma_stamps_in_order(da: Date, sa: nat, db: Date, sb: nat)
    requires
        da.valid(),
        db.valid(),
        0 <= da.year < 10_000,
        0 <= db.year < 10_000,
        sa < 86_400,
        sb < 86_400,
        da.precedes(db) || da == db && sa < sb,
    ensures
        text_less(stamp(da, sa), stamp(db, sb)),
{
    let s = stamp(da, sa);
    let t = stamp(db, sb);
    lemma_stamp_parts(da, sa);
    lemma_stamp_parts(db, sb);
    lemma_stamp_places(da, sa);
    lemma_stamp_places(db, sb);
    lemma_four_digits(da.year as nat);
    lemma_four_digits(db.year as nat);
    assert(s.take(0) =~= t.take(0));
    assert(s.subrange(0, 4) =~= s.take(4) && t.subrange(0, 4) =~= t.take(4));
    if da.year < db.year {
        lemma_padded_less(da.year as nat, db.year as nat, 4);
        lemma_field_less(s, t, 0, 4);
    } else {
        lemma_field_same(s, t, 4, 5);
        if da.month < db.month {
            lemma_padded_less(da.month as nat, db.month as nat, 2);
            lemma_field_less(s, t, 5, 7);
        } else {
            lemma_field_same(s, t, 5, 7);
            lemma_field_same(s, t, 7, 8);
            if da.day < db.day {
                lemma_padded_less(da.day as nat, db.day as nat, 2);
                lemma_field_less(s, t, 8, 10);
            } else {
                lemma_field_same(s, t, 8, 10);
                lemma_field_same(s, t, 10, 11);
                lemma_hours_in_order(s, sa, t, sb);
            }
        }
    }
}

/// Up to the year 9999, every time is written in the same shape and names a date
/// of the calendar, and an earlier time stands before a later one as text.
pub proof fn law_times_stand_in_order(a: u64, b: u64)
    requires
        a < b < 253_402_300_800,
    ensures
        time_shaped(timestamp(a)),
        time_shaped(timestamp(b)),
        date_of((a / 86_400) as int).valid(),
        date_of((b / 86_400) as int).valid(),
        text_less(timestamp(a), timestamp(b)),
{
    let da = date_of((a / 86_400) as int);
    let db = date_of((b / 86_400) as int);
    lemma_date_exists((a / 86_400) as int);
    lemma_date_exists((b / 86_400) as int);
    lemma_four_digit_years(da);
    lemma_four_digit_years(db);
    lemma_stamp_shape(da, (a % 86_400) as nat);
    lemma_stamp_shape(db, (b % 86_400) as nat);
    if a / 86_400 < b / 86_400 {
        law_numbers_follow_the_dates(da, db);
    } else {
        law_number_names_one_date(da, db);
    }
    lemma_stamps_in_order(da, (a % 86_400) as nat, db, (b % 86_400) as nat);
}

/// An entry holds its time twice, for people and for sorting, and everything that it
/// was given.
pub proof fn law_entry_holds_what_it_was_given(level: Seq<char>, event: Seq<char>, data: Seq<char>, millis: u64)
    ensures
        entry(level, event, data, millis).ts == millis,
        entry(level, event, data, millis).time == timestamp(millis / 1000),
        entry(level, event, data, millis).level == level,
        entry(level, event, data, millis).event == event,
        entry(level, event, data, millis).data == data,
{
}

/// A time shows the hour, the minute and the second of its day.
#[verifier::rlimit(40)]
pub proof fn law_time_of_day_is_shown(secs: u64)
    requires
        secs < 253_402_300_800,
    ensures
        timestamp(secs).subrange(11, 13) == padded((secs % 86_400 / 3600) as nat, 2),
        timestamp(secs).subrange(14, 16) == padded((secs % 3600 / 60) as nat, 2),
        timestamp(secs).subrange(17, 19) == padded((secs % 60) as nat, 2),
        timestamp(secs).take(4) == padded(date_of((secs / 86_400) as int).year as nat, 4),
        timestamp(secs).subrange(5, 7) == padded(date_of((secs / 86_400) as int).month as nat, 2),
        timestamp(secs).subrange(8, 10) == padded(date_of((secs / 86_400) as int).day as nat, 2),
{
    let d = date_of((secs / 86_400) as int);
    lemma_date_exists((secs / 86_400) as int);
    lemma_four_digit_years(d);
    lemma_four_digits(d.year as nat);
    lemma_stamp_parts(d, (secs % 86_400) as nat);
    assert(secs % 86_400 % 3600 == secs % 3600);
    assert(secs % 86_400 % 60 == secs % 60);
}

/// The files that are read back are the current one and three before it, the oldest
/// first. A file is full at four megabytes.
pub proof fn law_four_files_are_read(path: Seq<char>)
    ensures
        tail_line(path, KEEP as nat) == seq![path + ".3"@, path + ".2"@, path + ".1"@, path],
        MAX_BYTES == 4 * 1024 * 1024,
        KEEP == 3,
        push_back(KEEP as nat) == seq![(2nat, 3nat), (1nat, 2nat), (0nat, 1nat)],
{
    reveal_strlit(".");
    reveal_strlit(".1");
    reveal_strlit(".2");
    reveal_strlit(".3");
    reveal_with_fuel(tail_line, 4);
    reveal_with_fuel(push_back, 4);
    assert(decimal(1) =~= seq!['1'] && decimal(2) =~= seq!['2'] && decimal(3) =~= seq!['3']);
    assert(numbered_path(path, 1) =~= path + ".1"@);
    assert(numbered_path(path, 2) =~= path + ".2"@);
    assert(numbered_path(path, 3) =~= path + ".3"@);
    assert(tail_line(path, 3) =~= seq![path + ".3"@, path + ".2"@, path + ".1"@, path]);
    assert(push_back(3) =~= seq![(2nat, 3nat), (1nat, 2nat), (0nat, 1nat)]);
}

/// Entries of the same time stay in the order in which they came, and what comes in
/// the order of time is left in it.
pub proof fn law_same_times_stay_in_order(s: Seq<EntryView>, e: EntryView)
    ensures
        ordered(s.push(e)) ==> in_order(s.push(e)) == in_order(s).push(e),
        ordered(s) ==> in_order(s) == s,
    decreases s.len(),
{
    assert(s.push(e).drop_last() =~= s);
    if ordered(s.push(e)) {
        assert forall|i: int, j: int| 0 <= i < j < s.len() implies (#[trigger] s[i]).ts <= (
        #[trigger] s[j]).ts by {
            assert(s.push(e)[i] == s[i] && s.push(e)[j] == s[j]);
        }
    }
    if ordered(s) {
        if s.len() > 0 {
            let t = s.drop_last();
            assert(t.push(s.last()) =~= s);
            assert forall|i: int, j: int| 0 <= i < j < t.len() implies (#[trigger] t[i]).ts <= (
            #[trigger] t[j]).ts by {
                assert(s[i] == t[i] && s[j] == t[j]);
            }
            law_same_times_stay_in_order(t, s.last());
            assert(in_order(s) =~= s);
        }
        if ordered(s.push(e)) && s.len() > 0 {
            assert(s.push(e)[s.len() - 1].ts <= s.push(e)[s.len() as int].ts);
        }
    }
}

/// As many entries are read back as are asked for, or all where there are fewer.
pub proof fn law_tail_has_its_length(s: Seq<EntryView>, limit: nat)
    ensures
        s.len() <= limit ==> latest(s, limit) == in_order(s),
        s.len() > limit ==> latest(s, limit).len() == limit,
{
    law_in_order(s);
}

/// What an entry is taken to say is what it holds.
pub proof fn law_said_of_entry(x: Entry)
    ensures
        x@.time == x.time@,
        x@.ts == x.ts,
        x@.level == x.level@,
        x@.event == x.event@,
        x@.data == x.data@,
{
}

/// What a list of entries says is what its entries say, and steps are taken as they are
/// given.
pub proof fn law_said_of_entries(v: Seq<Entry>, s: Seq<(usize, usize)>, i: int)
    ensures
        entry_views(v).len() == v.len(),
        0 <= i < v.len() ==> entry_views(v)[i] == v[i]@,
        steps_of(s).len() == s.len(),
        0 <= i < s.len() ==> steps_of(s)[i] == (s[i].0 as nat, s[i].1 as nat),
{
}

} // verus!
