//! Text as a sequence of characters: searching, cutting, splitting and
//! replacing. Positions are character positions throughout.

use vstd::prelude::*;

verus! {

/// `String::push` appends the given character to the end of the string.
pub assume_specification[ String::push ](s: &mut String, c: char)
    ensures
        final(s)@ == old(s)@.push(c),
;

/// A class of characters to search for.
#[derive(Clone, Copy)]
pub enum Class {
    /// One given character.
    Is(char),
    /// Either of two given characters.
    Either(char, char),
    /// Unicode white space.
    Space,
    /// An ASCII digit.
    Digit,
    /// Any of the characters of a text.
    OneOf(&'static str),
    /// Unicode white space, or any of the characters of a text.
    SpaceOr(&'static str),
}

/// Unicode's `White_Space` property.
pub open spec fn white(c: char) -> bool {
    ||| 0x09 <= c as u32 <= 0x0d
    ||| c as u32 == 0x20
    ||| c as u32 == 0x85
    ||| c as u32 == 0xa0
    ||| c as u32 == 0x1680
    ||| 0x2000 <= c as u32 <= 0x200a
    ||| c as u32 == 0x2028
    ||| c as u32 == 0x2029
    ||| c as u32 == 0x202f
    ||| c as u32 == 0x205f
    ||| c as u32 == 0x3000
}

pub open spec fn digit(c: char) -> bool {
    '0' <= c <= '9'
}

pub open spec fn letter(c: char) -> bool {
    'a' <= c <= 'z' || 'A' <= c <= 'Z'
}

impl Class {
    pub open spec fn has(self, c: char) -> bool {
        match self {
            Class::Is(a) => c == a,
            Class::Either(a, b) => c == a || c == b,
            Class::Space => white(c),
            Class::Digit => digit(c),
            Class::OneOf(s) => s@.contains(c),
            Class::SpaceOr(s) => white(c) || s@.contains(c),
        }
    }

    pub fn holds(self, c: char) -> (r: bool)
        ensures
            r == self.has(c),
    {
        match self {
            Class::Is(a) => c == a,
            Class::Either(a, b) => c == a || c == b,
            Class::Space => is_white(c),
            Class::Digit => '0' <= c && c <= '9',
            Class::OneOf(s) => has_char(s, c),
            Class::SpaceOr(s) => is_white(c) || has_char(s, c),
        }
    }
}

/// Whether a text holds the character.
pub fn has_char(s: &str, c: char) -> (r: bool)
    ensures
        r == s@.contains(c),
{
    let cs = chars_of(s);
    let mut i: usize = 0;
    while i < cs.len()
        invariant
            cs@ == s@,
            i <= cs@.len(),
            forall|j: int| 0 <= j < i ==> cs@[j] != c,
        decreases cs@.len() - i,
    {
        if cs[i] == c {
            proof {
                assert(s@[i as int] == c);
            }
            return true;
        }
        i += 1;
    }
    false
}

pub fn is_white(c: char) -> (r: bool)
    ensures
        r == white(c),
{
    let n: u32 = c as u32;
    (0x09 <= n && n <= 0x0d) || n == 0x20 || n == 0x85 || n == 0xa0 || n == 0x1680 || (0x2000 <= n
        && n <= 0x200a) || n == 0x2028 || n == 0x2029 || n == 0x202f || n == 0x205f || n == 0x3000
}

pub fn is_letter(c: char) -> (r: bool)
    ensures
        r == letter(c),
{
    ('a' <= c && c <= 'z') || ('A' <= c && c <= 'Z')
}

/// The characters of a string.
pub fn chars_of(s: &str) -> (r: Vec<char>)
    ensures
        r@ == s@,
{
    let mut out: Vec<char> = Vec::new();
    for c in it: s.chars()
        invariant
            it.seq() == s@,
            out@ == s@.take(it.index()),
    {
        out.push(c);
        proof {
            assert(s@.take(it.index()).push(c) =~= s@.take(it.index() + 1));
        }
    }
    proof {
        assert(s@.take(s@.len() as int) =~= s@);
    }
    out
}

/// Whether two strings hold the same characters.
pub fn same(a: &str, b: &str) -> (r: bool)
    ensures
        r == (a@ == b@),
{
    let x = chars_of(a);
    let y = chars_of(b);
    if x.len() != y.len() {
        return false;
    }
    let mut i: usize = 0;
    while i < x.len()
        invariant
            x@ == a@,
            y@ == b@,
            x@.len() == y@.len(),
            i <= x@.len(),
            forall|j: int| 0 <= j < i ==> x@[j] == y@[j],
        decreases x@.len() - i,
    {
        if x[i] != y[i] {
            return false;
        }
        i += 1;
    }
    proof {
        assert(a@ =~= b@);
    }
    true
}

/// The position of the first character whose membership in `k` is `want`, or
/// the length where there is none.
pub open spec fn first(s: Seq<char>, k: Class, want: bool) -> int
    decreases s.len(),
{
    if s.len() == 0 {
        0
    } else if k.has(s[0]) == want {
        0
    } else {
        1 + first(s.skip(1), k, want)
    }
}

pub proof fn lemma_first(s: Seq<char>, k: Class, want: bool)
    ensures
        0 <= first(s, k, want) <= s.len(),
        first(s, k, want) < s.len() ==> k.has(s[first(s, k, want)]) == want,
        forall|j: int| 0 <= j < first(s, k, want) ==> k.has(#[trigger] s[j]) != want,
    decreases s.len(),
{
    if s.len() > 0 && k.has(s[0]) != want {
        let t = s.skip(1);
        lemma_first(t, k, want);
        let m = first(t, k, want);
        assert forall|j: int| 0 <= j < m + 1 implies k.has(#[trigger] s[j]) != want by {
            if j > 0 {
                assert(s[j] == t[j - 1]);
            }
        }
        if m < t.len() {
            assert(t[m] == s[m + 1]);
        }
    }
}

pub proof fn lemma_first_is(s: Seq<char>, k: Class, want: bool, i: int)
    requires
        0 <= i <= s.len(),
        i < s.len() ==> k.has(s[i]) == want,
        forall|j: int| 0 <= j < i ==> k.has(#[trigger] s[j]) != want,
    ensures
        first(s, k, want) == i,
{
    lemma_first(s, k, want);
    let m = first(s, k, want);
    if m < i {
        assert(k.has(s[m]) != want);
    }
    if i < m {
        assert(k.has(s[i]) != want);
    }
}

/// The position just after the last character whose membership in `k` is
/// `want`, or zero where there is none.
pub open spec fn after_last(s: Seq<char>, k: Class, want: bool) -> int
    decreases s.len(),
{
    if s.len() == 0 {
        0
    } else if k.has(s.last()) == want {
        s.len() as int
    } else {
        after_last(s.drop_last(), k, want)
    }
}

pub proof fn lemma_after_last(s: Seq<char>, k: Class, want: bool)
    ensures
        0 <= after_last(s, k, want) <= s.len(),
        after_last(s, k, want) > 0 ==> k.has(s[after_last(s, k, want) - 1]) == want,
        forall|j: int| after_last(s, k, want) <= j < s.len() ==> k.has(#[trigger] s[j]) != want,
    decreases s.len(),
{
    if s.len() > 0 && k.has(s.last()) != want {
        let t = s.drop_last();
        lemma_after_last(t, k, want);
        assert forall|j: int| after_last(t, k, want) <= j < s.len() implies k.has(#[trigger] s[j])
            != want by {
            if j < t.len() {
                assert(s[j] == t[j]);
            }
        }
    }
}

pub proof fn lemma_after_last_is(s: Seq<char>, k: Class, want: bool, i: int)
    requires
        0 <= i <= s.len(),
        i > 0 ==> k.has(s[i - 1]) == want,
        forall|j: int| i <= j < s.len() ==> k.has(#[trigger] s[j]) != want,
    ensures
        after_last(s, k, want) == i,
{
    lemma_after_last(s, k, want);
    let m = after_last(s, k, want);
    if m < i {
        assert(k.has(s[i - 1]) != want);
    }
    if i < m {
        assert(k.has(s[m - 1]) != want);
    }
}

pub fn find(s: &str, k: Class, want: bool) -> (r: usize)
    ensures
        r == first(s@, k, want),
        r <= s@.len(),
{
    let n: usize = s.unicode_len();
    let mut i: usize = 0;
    for c in it: s.chars()
        invariant
            it.seq() == s@,
            n == s@.len(),
            i == it.index(),
            forall|j: int| 0 <= j < i ==> k.has(#[trigger] s@[j]) != want,
    {
        if k.holds(c) == want {
            proof {
                lemma_first_is(s@, k, want, i as int);
            }
            return i;
        }
        i += 1;
    }
    proof {
        lemma_first_is(s@, k, want, i as int);
    }
    i
}

pub fn find_last(s: &str, k: Class, want: bool) -> (r: usize)
    ensures
        r == after_last(s@, k, want),
        r <= s@.len(),
{
    let n: usize = s.unicode_len();
    let mut i: usize = 0;
    let mut last: usize = 0;
    for c in it: s.chars()
        invariant
            it.seq() == s@,
            n == s@.len(),
            i == it.index(),
            last <= i,
            last == after_last(s@.take(i as int), k, want),
    {
        proof {
            assert(s@.take(i + 1).drop_last() =~= s@.take(i as int));
            assert(s@.take(i + 1).last() == c);
        }
        i += 1;
        if k.holds(c) == want {
            last = i;
        }
    }
    proof {
        assert(s@.take(i as int) =~= s@);
    }
    last
}

/// The characters from position `from` up to position `to` as a string.
fn piece(cs: &Vec<char>, from: usize, to: usize) -> (r: String)
    requires
        from <= to <= cs@.len(),
    ensures
        r@ == cs@.subrange(from as int, to as int),
{
    let mut out = String::new();
    let mut i: usize = from;
    while i < to
        invariant
            from <= i <= to <= cs@.len(),
            out@ == cs@.subrange(from as int, i as int),
        decreases to - i,
    {
        out.push(cs[i]);
        i += 1;
        proof {
            assert(cs@.subrange(from as int, i as int) =~= cs@.subrange(from as int, i - 1).push(
                cs@[i - 1],
            ));
        }
    }
    out
}

/// The contents of a list of strings.
pub open spec fn texts(v: Seq<String>) -> Seq<Seq<char>> {
    v.map_values(|s: String| s@)
}

/// The contents of a list of pairs of strings.
pub open spec fn pairs(v: Seq<(String, String)>) -> Seq<(Seq<char>, Seq<char>)> {
    v.map_values(|p: (String, String)| (p.0@, p.1@))
}

/// The contents of a string that may be absent.
pub open spec fn text_of(s: Option<String>) -> Option<Seq<char>> {
    match s {
        Some(t) => Some(t@),
        None => None,
    }
}

/// The contents of a borrowed string that may be absent.
pub open spec fn str_of(s: Option<&str>) -> Option<Seq<char>> {
    match s {
        Some(t) => Some(t@),
        None => None,
    }
}

/// Appends a copy of `s` to the list.
pub fn push_text(v: &mut Vec<String>, s: &str)
    ensures
        texts(final(v)@) == texts(old(v)@).push(s@),
        final(v)@.len() == old(v)@.len() + 1,
{
    v.push(s.to_owned());
    proof {
        assert(texts(v@) =~= texts(old(v)@).push(s@));
    }
}

/// Whether `s` is one of the listed texts.
pub fn listed(v: &[String], s: &str) -> (r: bool)
    ensures
        r == texts(v@).contains(s@),
{
    let mut i: usize = 0;
    while i < v.len()
        invariant
            i <= v@.len(),
            forall|j: int| 0 <= j < i ==> texts(v@)[j] != s@,
        decreases v@.len() - i,
    {
        if same(v[i].as_str(), s) {
            proof {
                assert(texts(v@)[i as int] == s@);
            }
            return true;
        }
        i += 1;
    }
    false
}

/// A copy of a string that may be absent.
pub fn copy_text(s: &Option<String>) -> (r: Option<String>)
    ensures
        text_of(r) == text_of(*s),
{
    match s {
        Some(t) => Some(t.as_str().to_owned()),
        None => None,
    }
}

/// The part of `s` before position `to`.
pub fn head<'a>(s: &'a str, to: usize) -> (r: &'a str)
    requires
        to <= s@.len(),
    ensures
        r@ == s@.take(to as int),
{
    proof {
        assert(s@.subrange(0, to as int) =~= s@.take(to as int));
    }
    s.substring_char(0, to)
}

/// The part of `s` from position `from` on.
pub fn tail<'a>(s: &'a str, from: usize) -> (r: &'a str)
    requires
        from <= s@.len(),
    ensures
        r@ == s@.skip(from as int),
{
    let n: usize = s.unicode_len();
    proof {
        assert(s@.subrange(from as int, n as int) =~= s@.skip(from as int));
    }
    s.substring_char(from, n)
}

/// At most the first `n` characters.
pub open spec fn prefix(s: Seq<char>, n: int) -> Seq<char> {
    if s.len() <= n {
        s
    } else {
        s.take(n)
    }
}

pub fn limit<'a>(s: &'a str, n: usize) -> (r: &'a str)
    ensures
        r@ == prefix(s@, n as int),
{
    if s.unicode_len() <= n {
        s
    } else {
        head(s, n)
    }
}

/// `a` followed by `b`.
pub fn cat(a: &str, b: &str) -> (r: String)
    ensures
        r@ == a@ + b@,
{
    let mut out = a.to_owned();
    out.append(b);
    out
}

/// `a`, `b` and `c` in a row.
pub fn cat3(a: &str, b: &str, c: &str) -> (r: String)
    ensures
        r@ == a@ + b@ + c@,
{
    let mut out = a.to_owned();
    out.append(b);
    out.append(c);
    out
}

/// `s` without leading white space.
pub open spec fn trim_start(s: Seq<char>) -> Seq<char> {
    s.skip(first(s, Class::Space, false))
}

/// `s` without trailing white space.
pub open spec fn trim_end(s: Seq<char>) -> Seq<char> {
    s.take(after_last(s, Class::Space, false))
}

/// `s` without white space at either end.
pub open spec fn trimmed(s: Seq<char>) -> Seq<char> {
    trim_end(trim_start(s))
}

pub fn trim<'a>(s: &'a str) -> (r: &'a str)
    ensures
        r@ == trimmed(s@),
{
    let a: usize = find(s, Class::Space, false);
    let t = tail(s, a);
    let b: usize = find_last(t, Class::Space, false);
    head(t, b)
}

/// The parts of `s` between the characters of `k`, the empty ones too.
pub open spec fn split(s: Seq<char>, k: Class) -> Seq<Seq<char>>
    decreases s.len(),
{
    let i = first(s, k, true);
    if 0 <= i < s.len() {
        seq![s.take(i)] + split(s.skip(i + 1), k)
    } else {
        seq![s]
    }
}

pub fn split_text(s: &str, k: Class) -> (r: Vec<String>)
    ensures
        texts(r@) == split(s@, k),
        r@.len() > 0,
{
    let cs = chars_of(s);
    let n: usize = cs.len();
    let mut out: Vec<String> = Vec::new();
    let mut start: usize = 0;
    let mut i: usize = 0;
    proof {
        assert(s@.skip(0) =~= s@);
        assert(texts(out@) + split(s@, k) =~= split(s@, k));
    }
    while i < n
        invariant
            cs@ == s@,
            n == s@.len(),
            start <= i <= n,
            forall|j: int| start <= j < i ==> k.has(#[trigger] s@[j]) != true,
            texts(out@) + split(s@.skip(start as int), k) == split(s@, k),
        decreases n - i,
    {
        if k.holds(cs[i]) {
            let ghost before = texts(out@);
            let ghost rest = s@.skip(start as int);
            proof {
                assert forall|j: int| 0 <= j < i - start implies k.has(#[trigger] rest[j]) != true by {
                    assert(rest[j] == s@[start + j]);
                }
                assert(rest[i - start] == s@[i as int]);
                lemma_first_is(rest, k, true, i - start);
            }
            let part = piece(&cs, start, i);
            push_text(&mut out, part.as_str());
            proof {
                assert(part@ =~= rest.take(i - start));
                assert(rest.skip(i - start + 1) =~= s@.skip(i + 1));
                assert(texts(out@) + split(s@.skip(i + 1), k) =~= before + split(rest, k));
            }
            start = i + 1;
        }
        i += 1;
    }
    let ghost before = texts(out@);
    let ghost rest = s@.skip(start as int);
    let part = piece(&cs, start, n);
    push_text(&mut out, part.as_str());
    proof {
        assert(part@ =~= rest);
        assert forall|j: int| 0 <= j < rest.len() implies k.has(#[trigger] rest[j]) != true by {
            assert(rest[j] == s@[start + j]);
        }
        lemma_first_is(rest, k, true, rest.len() as int);
        assert(texts(out@) =~= before + seq![rest]);
        assert(texts(out@).len() == out@.len());
    }
    out
}

/// `s` without the carriage return at its end, where it has one.
pub open spec fn no_cr(s: Seq<char>) -> Seq<char> {
    if s.len() > 0 && s.last() == '\r' {
        s.drop_last()
    } else {
        s
    }
}

/// The lines of `s`. A line ends at a line feed or at the end of the text; a
/// carriage return before the line feed belongs to the ending.
pub open spec fn lines(s: Seq<char>) -> Seq<Seq<char>>
    decreases s.len(),
{
    let i = first(s, Class::Is('\n'), true);
    if s.len() == 0 {
        seq![]
    } else if 0 <= i < s.len() {
        seq![no_cr(s.take(i))] + lines(s.skip(i + 1))
    } else {
        seq![s]
    }
}

pub fn lines_of(s: &str) -> (r: Vec<String>)
    ensures
        texts(r@) == lines(s@),
{
    let k = Class::Is('\n');
    let cs = chars_of(s);
    let n: usize = cs.len();
    let mut out: Vec<String> = Vec::new();
    let mut start: usize = 0;
    let mut i: usize = 0;
    proof {
        assert(s@.skip(0) =~= s@);
        assert(texts(out@) + lines(s@) =~= lines(s@));
    }
    while i < n
        invariant
            k == Class::Is('\n'),
            cs@ == s@,
            n == s@.len(),
            start <= i <= n,
            forall|j: int| start <= j < i ==> k.has(#[trigger] s@[j]) != true,
            texts(out@) + lines(s@.skip(start as int)) == lines(s@),
        decreases n - i,
    {
        if cs[i] == '\n' {
            let ghost before = texts(out@);
            let ghost rest = s@.skip(start as int);
            let end: usize = if i > start && cs[i - 1] == '\r' {
                i - 1
            } else {
                i
            };
            let line = piece(&cs, start, end);
            push_text(&mut out, line.as_str());
            proof {
                assert forall|j: int| 0 <= j < i - start implies k.has(#[trigger] rest[j]) != true by {
                    assert(rest[j] == s@[start + j]);
                }
                assert(rest[i - start] == s@[i as int]);
                lemma_first_is(rest, k, true, i - start);
                let whole = rest.take(i - start);
                if i > start {
                    assert(whole.last() == s@[i - 1]);
                }
                assert(line@ =~= no_cr(whole));
                assert(rest.skip(i - start + 1) =~= s@.skip(i + 1));
                assert(texts(out@) + lines(s@.skip(i + 1)) =~= before + lines(rest));
            }
            start = i + 1;
        }
        i += 1;
    }
    let ghost rest = s@.skip(start as int);
    let ghost before = texts(out@);
    proof {
        assert forall|j: int| 0 <= j < rest.len() implies k.has(#[trigger] rest[j]) != true by {
            assert(rest[j] == s@[start + j]);
        }
        lemma_first_is(rest, k, true, rest.len() as int);
    }
    if start < n {
        let line = piece(&cs, start, n);
        push_text(&mut out, line.as_str());
        proof {
            assert(line@ =~= rest);
            assert(lines(rest) =~= seq![rest]);
            assert(texts(out@) =~= before + lines(rest));
        }
    } else {
        proof {
            assert(lines(rest) =~= seq![]);
            assert(texts(out@) =~= before + lines(rest));
        }
    }
    out
}

/// The runs of characters between white space, none of them empty.
pub open spec fn words(s: Seq<char>) -> Seq<Seq<char>>
    decreases s.len(),
{
    let a = first(s, Class::Space, false);
    let t = s.skip(a);
    let b = first(t, Class::Space, true);
    if 0 <= a < s.len() && 0 < b <= t.len() {
        seq![t.take(b)] + words(t.skip(b))
    } else {
        seq![]
    }
}

pub fn words_of(s: &str) -> (r: Vec<String>)
    ensures
        texts(r@) == words(s@),
{
    let k = Class::Space;
    let cs = chars_of(s);
    let n: usize = cs.len();
    let mut out: Vec<String> = Vec::new();
    let mut at: usize = 0;
    proof {
        assert(s@.skip(0) =~= s@);
        assert(texts(out@) + words(s@) =~= words(s@));
    }
    loop
        invariant
            k == Class::Space,
            cs@ == s@,
            n == s@.len(),
            at <= n,
            texts(out@) + words(s@.skip(at as int)) == words(s@),
        decreases n - at,
    {
        let ghost rest = s@.skip(at as int);
        let mut i: usize = at;
        while i < n && is_white(cs[i])
            invariant
                k == Class::Space,
                cs@ == s@,
                n == s@.len(),
                at <= i <= n,
                rest == s@.skip(at as int),
                forall|j: int| 0 <= j < i - at ==> k.has(#[trigger] rest[j]) != false,
            decreases n - i,
        {
            proof {
                assert(rest[i - at] == s@[i as int]);
            }
            i += 1;
        }
        proof {
            if i < n {
                assert(rest[i - at] == s@[i as int]);
            }
            lemma_first_is(rest, k, false, i - at);
        }
        if i == n {
            proof {
                assert(words(rest) =~= seq![]);
                assert(texts(out@) + words(rest) =~= texts(out@));
            }
            return out;
        }
        let ghost t = rest.skip(i - at);
        let mut j: usize = i;
        while j < n && !is_white(cs[j])
            invariant
                k == Class::Space,
                cs@ == s@,
                n == s@.len(),
                at <= i <= j <= n,
                rest == s@.skip(at as int),
                t == rest.skip(i - at),
                forall|m: int| 0 <= m < j - i ==> k.has(#[trigger] t[m]) != true,
            decreases n - j,
        {
            proof {
                assert(t[j - i] == s@[j as int]);
            }
            j += 1;
        }
        let ghost before = texts(out@);
        let word = piece(&cs, i, j);
        push_text(&mut out, word.as_str());
        proof {
            assert(t[0] == s@[i as int]);
            if j < n {
                assert(t[j - i] == s@[j as int]);
            }
            lemma_first_is(t, k, true, j - i);
            assert(j > i);
            assert(word@ =~= t.take(j - i));
            assert(t.skip(j - i) =~= s@.skip(j as int));
            assert(texts(out@) + words(s@.skip(j as int)) =~= before + words(rest));
        }
        at = j;
    }
}

pub open spec fn starts_with(s: Seq<char>, p: Seq<char>) -> bool {
    p.len() <= s.len() && s.take(p.len() as int) == p
}

pub open spec fn ends_with(s: Seq<char>, p: Seq<char>) -> bool {
    p.len() <= s.len() && s.skip(s.len() - p.len()) == p
}

pub fn has_prefix(s: &str, p: &str) -> (r: bool)
    ensures
        r == starts_with(s@, p@),
{
    let n: usize = p.unicode_len();
    if s.unicode_len() < n {
        return false;
    }
    same(head(s, n), p)
}

pub fn has_suffix(s: &str, p: &str) -> (r: bool)
    ensures
        r == ends_with(s@, p@),
{
    let n: usize = p.unicode_len();
    let m: usize = s.unicode_len();
    if m < n {
        return false;
    }
    same(tail(s, m - n), p)
}

/// The first position at which `p` occurs in `s`.
pub open spec fn index_of(s: Seq<char>, p: Seq<char>) -> Option<int>
    decreases s.len(),
{
    if starts_with(s, p) {
        Some(0)
    } else if s.len() == 0 {
        None
    } else {
        match index_of(s.skip(1), p) {
            Some(i) => Some(i + 1),
            None => None,
        }
    }
}

/// Whether `p` occurs in `s`.
pub open spec fn contains(s: Seq<char>, p: Seq<char>) -> bool {
    index_of(s, p) is Some
}

pub proof fn lemma_index_of(s: Seq<char>, p: Seq<char>)
    ensures
        index_of(s, p) matches Some(i) ==> {
            &&& 0 <= i
            &&& i + p.len() <= s.len()
            &&& starts_with(s.skip(i), p)
            &&& forall|j: int| 0 <= j < i ==> !starts_with(#[trigger] s.skip(j), p)
        },
        index_of(s, p) is None ==> forall|j: int|
            0 <= j <= s.len() ==> !starts_with(#[trigger] s.skip(j), p),
    decreases s.len(),
{
    assert(s.skip(0) =~= s);
    if !starts_with(s, p) && s.len() > 0 {
        let t = s.skip(1);
        lemma_index_of(t, p);
        assert forall|j: int| 1 <= j <= s.len() implies s.skip(j) == #[trigger] t.skip(j - 1) by {
            assert(s.skip(j) =~= t.skip(j - 1));
        }
        match index_of(t, p) {
            Some(i) => {
                assert(s.skip(i + 1) == t.skip(i + 1 - 1));
                assert forall|j: int| 0 <= j < i + 1 implies !starts_with(#[trigger] s.skip(j), p) by {
                    if j > 0 {
                        assert(s.skip(j) == t.skip(j - 1));
                    }
                }
            },
            None => {
                assert forall|j: int| 0 <= j <= s.len() implies !starts_with(
                    #[trigger] s.skip(j),
                    p,
                ) by {
                    if j > 0 {
                        assert(s.skip(j) == t.skip(j - 1));
                    }
                }
            },
        }
    }
}

pub proof fn lemma_index_of_is(s: Seq<char>, p: Seq<char>, i: int)
    requires
        0 <= i <= s.len(),
        starts_with(s.skip(i), p),
        forall|j: int| 0 <= j < i ==> !starts_with(#[trigger] s.skip(j), p),
    ensures
        index_of(s, p) == Some(i),
{
    lemma_index_of(s, p);
    match index_of(s, p) {
        Some(m) => {
            if m < i {
                assert(!starts_with(s.skip(m), p));
            }
            if i < m {
                assert(!starts_with(s.skip(i), p));
            }
        },
        None => {
            assert(!starts_with(s.skip(i), p));
        },
    }
}

/// Whether the characters at position `i` begin with those of a pattern.
fn is_here(cs: &Vec<char>, p: &Vec<char>, i: usize) -> (r: bool)
    requires
        i <= cs@.len(),
    ensures
        r == starts_with(cs@.skip(i as int), p@),
{
    let ghost rest = cs@.skip(i as int);
    let n: usize = cs.len();
    let m: usize = p.len();
    if m > n - i {
        return false;
    }
    let mut j: usize = 0;
    while j < m
        invariant
            rest == cs@.skip(i as int),
            n == cs@.len(),
            m == p@.len(),
            i + m <= n,
            j <= m,
            forall|k: int| 0 <= k < j ==> rest[k] == p@[k],
        decreases m - j,
    {
        if cs[i + j] != p[j] {
            proof {
                assert(rest.take(m as int)[j as int] == cs@[i + j]);
            }
            return false;
        }
        j += 1;
    }
    proof {
        assert(rest.take(m as int) =~= p@);
    }
    true
}

/// The first position from `from` on at which a pattern occurs.
fn find_from(cs: &Vec<char>, p: &Vec<char>, from: usize) -> (r: Option<usize>)
    requires
        from <= cs@.len(),
    ensures
        match r {
            Some(i) => index_of(cs@.skip(from as int), p@) == Some(i - from) && from <= i && i
                + p@.len() <= cs@.len(),
            None => index_of(cs@.skip(from as int), p@) is None,
        },
{
    let ghost rest = cs@.skip(from as int);
    let n: usize = cs.len();
    let mut i: usize = from;
    loop
        invariant
            n == cs@.len(),
            from <= i <= n,
            rest == cs@.skip(from as int),
            forall|j: int| 0 <= j < i - from ==> !starts_with(#[trigger] rest.skip(j), p@),
        decreases n - i,
    {
        proof {
            assert(rest.skip(i - from) =~= cs@.skip(i as int));
        }
        if is_here(cs, p, i) {
            proof {
                lemma_index_of_is(rest, p@, i - from);
            }
            return Some(i);
        }
        if i == n {
            proof {
                lemma_index_of(rest, p@);
                if index_of(rest, p@) is Some {
                    assert(!starts_with(rest.skip(index_of(rest, p@)->0), p@));
                }
            }
            return None;
        }
        i += 1;
    }
}

pub fn find_text(s: &str, p: &str) -> (r: Option<usize>)
    ensures
        match r {
            Some(i) => index_of(s@, p@) == Some(i as int) && i + p@.len() <= s@.len(),
            None => index_of(s@, p@) is None,
        },
{
    let cs = chars_of(s);
    proof {
        assert(cs@.skip(0) =~= s@);
    }
    find_from(&cs, &chars_of(p), 0)
}

pub fn has_text(s: &str, p: &str) -> (r: bool)
    ensures
        r == contains(s@, p@),
{
    find_text(s, p).is_some()
}

/// `s` with each occurrence of the non-empty `p`, from the left, replaced by `w`.
pub open spec fn replaced(s: Seq<char>, p: Seq<char>, w: Seq<char>) -> Seq<char>
    decreases s.len(),
{
    match index_of(s, p) {
        Some(i) => if p.len() > 0 && 0 <= i && i + p.len() <= s.len() {
            s.take(i) + w + replaced(s.skip(i + p.len()), p, w)
        } else {
            s
        },
        None => s,
    }
}

pub fn replace(s: &str, p: &str, w: &str) -> (r: String)
    requires
        p@.len() > 0,
    ensures
        r@ == replaced(s@, p@, w@),
{
    let cs = chars_of(s);
    let ps = chars_of(p);
    let n: usize = cs.len();
    let mut out = String::new();
    let mut at: usize = 0;
    proof {
        assert(s@.skip(0) =~= s@);
        assert(out@ + replaced(s@, p@, w@) =~= replaced(s@, p@, w@));
    }
    loop
        invariant
            cs@ == s@,
            ps@ == p@,
            n == s@.len(),
            p@.len() > 0,
            at <= n,
            out@ + replaced(s@.skip(at as int), p@, w@) == replaced(s@, p@, w@),
        decreases n - at,
    {
        let ghost rest = s@.skip(at as int);
        let ghost before = out@;
        match find_from(&cs, &ps, at) {
            Some(i) => {
                let part = piece(&cs, at, i);
                out.append(part.as_str());
                out.append(w);
                let next: usize = i + ps.len();
                proof {
                    assert(part@ =~= rest.take(i - at));
                    assert(rest.skip(i - at + p@.len()) =~= s@.skip(next as int));
                    assert(out@ + replaced(s@.skip(next as int), p@, w@) =~= before + replaced(
                        rest,
                        p@,
                        w@,
                    ));
                }
                at = next;
            },
            None => {
                let part = piece(&cs, at, n);
                out.append(part.as_str());
                proof {
                    assert(part@ =~= rest);
                    assert(out@ =~= before + rest);
                }
                return out;
            },
        }
    }
}

/// The parts in a row with `sep` between them.
pub open spec fn joined(parts: Seq<Seq<char>>, sep: Seq<char>) -> Seq<char>
    decreases parts.len(),
{
    if parts.len() == 0 {
        seq![]
    } else if parts.len() == 1 {
        parts[0]
    } else {
        parts[0] + sep + joined(parts.skip(1), sep)
    }
}

/// Joining one more part.
pub proof fn lemma_joined_push(parts: Seq<Seq<char>>, sep: Seq<char>, x: Seq<char>)
    requires
        parts.len() > 0,
    ensures
        joined(parts.push(x), sep) == joined(parts, sep) + sep + x,
    decreases parts.len(),
{
    let all = parts.push(x);
    assert(all.skip(1) =~= parts.skip(1).push(x));
    if parts.len() > 1 {
        lemma_joined_push(parts.skip(1), sep, x);
    } else {
        assert(parts.skip(1).push(x) =~= seq![x]);
        assert(joined(seq![x], sep) == x);
    }
    assert(joined(all, sep) =~= joined(parts, sep) + sep + x);
}

pub fn join(parts: &Vec<String>, sep: &str) -> (r: String)
    ensures
        r@ == joined(texts(parts@), sep@),
{
    let mut out = String::new();
    let mut i: usize = 0;
    while i < parts.len()
        invariant
            i <= parts@.len(),
            out@ == joined(texts(parts@).take(i as int), sep@),
        decreases parts@.len() - i,
    {
        proof {
            let a = texts(parts@).take(i as int);
            let b = texts(parts@).take(i + 1);
            assert(b =~= a.push(parts@[i as int]@));
            if i > 0 {
                lemma_joined_push(a, sep@, parts@[i as int]@);
            } else {
                assert(out@ + parts@[i as int]@ =~= b[0]);
            }
        }
        if i > 0 {
            out.append(sep);
        }
        out.append(parts[i].as_str());
        i += 1;
    }
    proof {
        assert(texts(parts@).take(i as int) =~= texts(parts@));
    }
    out
}

/// Joining parts that hold no character of `k` with one of them, and splitting
/// the result at `k`, gives the parts.
pub proof fn lemma_split_joined(parts: Seq<Seq<char>>, c: char, k: Class)
    requires
        parts.len() > 0,
        k.has(c),
        forall|i: int, j: int|
            0 <= i < parts.len() && 0 <= j < parts[i].len() ==> !k.has(#[trigger] parts[i][j]),
    ensures
        split(joined(parts, seq![c]), k) == parts,
    decreases parts.len(),
{
    let s = joined(parts, seq![c]);
    let p = parts[0];
    if parts.len() == 1 {
        assert forall|j: int| 0 <= j < s.len() implies k.has(#[trigger] s[j]) != true by {
            assert(s[j] == parts[0][j]);
        }
        lemma_first_is(s, k, true, s.len() as int);
        assert(split(s, k) =~= parts);
    } else {
        let rest = parts.skip(1);
        assert forall|i: int, j: int| 0 <= i < rest.len() && 0 <= j < rest[i].len() implies !k.has(
            #[trigger] rest[i][j],
        ) by {
            assert(rest[i][j] == parts[i + 1][j]);
        }
        lemma_split_joined(rest, c, k);
        assert(s == p + seq![c] + joined(rest, seq![c]));
        assert forall|j: int| 0 <= j < p.len() implies k.has(#[trigger] s[j]) != true by {
            assert(s[j] == parts[0][j]);
        }
        assert(s[p.len() as int] == c);
        lemma_first_is(s, k, true, p.len() as int);
        assert(s.take(p.len() as int) =~= p);
        assert(s.skip(p.len() as int + 1) =~= joined(rest, seq![c]));
        assert(seq![p] + rest =~= parts);
    }
}

/// The parts of a text split at the characters of `k` hold none of these.
pub proof fn lemma_split_parts(s: Seq<char>, k: Class, i: int)
    requires
        0 <= i < split(s, k).len(),
    ensures
        forall|j: int| 0 <= j < split(s, k)[i].len() ==> !k.has(#[trigger] split(s, k)[i][j]),
    decreases s.len(),
{
    lemma_first(s, k, true);
    let n = first(s, k, true);
    let p = split(s, k)[i];
    if n < s.len() && i > 0 {
        let rest = s.skip(n + 1);
        lemma_split_parts(rest, k, i - 1);
        assert(p == split(rest, k)[i - 1]);
    } else {
        assert forall|j: int| 0 <= j < p.len() implies !k.has(#[trigger] p[j]) by {
            assert(p[j] == s[j]);
        }
    }
}

/// Joining parts with a character that none of them holds, and splitting the
/// result at that character, gives the parts.
pub proof fn law_split_undoes_join(parts: Seq<Seq<char>>, c: char)
    requires
        parts.len() > 0,
        forall|i: int| 0 <= i < parts.len() ==> !(#[trigger] parts[i]).contains(c),
    ensures
        split(joined(parts, seq![c]), Class::Is(c)) == parts,
{
    assert forall|i: int, j: int| 0 <= i < parts.len() && 0 <= j < parts[i].len() implies !Class::Is(
        c,
    ).has(#[trigger] parts[i][j]) by {
        assert(parts[i].contains(parts[i][j]));
    }
    lemma_split_joined(parts, c, Class::Is(c));
}

/// A text without white space stays as it is when it is trimmed.
pub proof fn lemma_trimmed_same(s: Seq<char>)
    requires
        forall|i: int| 0 <= i < s.len() ==> !white(#[trigger] s[i]),
    ensures
        trimmed(s) == s,
{
    lemma_first_is(s, Class::Space, false, 0);
    assert(s.skip(0) =~= s);
    lemma_after_last_is(s, Class::Space, false, s.len() as int);
    assert(s.take(s.len() as int) =~= s);
}

/// The parts of a text split at a character: they hold that character no more,
/// and joined with it they are the text again.
pub proof fn law_join_undoes_split(s: Seq<char>, c: char)
    ensures
        split(s, Class::Is(c)).len() > 0,
        forall|i: int| 0 <= i < split(s, Class::Is(c)).len() ==> !(#[trigger] split(s, Class::Is(c))[i]).contains(c),
        joined(split(s, Class::Is(c)), seq![c]) == s,
    decreases s.len(),
{
    let k = Class::Is(c);
    lemma_first(s, k, true);
    let i = first(s, k, true);
    let parts = split(s, k);
    if i < s.len() {
        let rest = s.skip(i + 1);
        law_join_undoes_split(rest, c);
        assert(parts.skip(1) =~= split(rest, k));
        assert forall|j: int| 0 <= j < parts.len() implies !(#[trigger] parts[j]).contains(c) by {
            if j == 0 {
                assert(parts[0] == s.take(i));
                if parts[0].contains(c) {
                    let m = parts[0].index_of(c);
                    assert(parts[0][m] == c);
                    assert(k.has(s[m]));
                }
            } else {
                assert(parts[j] == split(rest, k)[j - 1]);
            }
        }
        assert(s.take(i) + seq![c] + rest =~= s);
        assert(joined(parts, seq![c]) =~= s);
    } else {
        if s.contains(c) {
            let m = s.index_of(c);
            assert(k.has(s[m]));
        }
    }
}

/// The first line that is not blank, or nothing at all.
pub open spec fn first_words(all: Seq<Seq<char>>) -> Seq<char>
    decreases all.len(),
{
    if all.len() == 0 {
        seq![]
    } else if trimmed(all[0]).len() > 0 {
        all[0]
    } else {
        first_words(all.skip(1))
    }
}

/// The first line of a text that is not blank, or nothing at all.
pub fn first_line(s: &str) -> (r: String)
    ensures
        r@ == first_words(lines(s@)),
{
    let l = lines_of(s);
    let mut i: usize = 0;
    proof {
        assert(texts(l@).skip(0) =~= texts(l@));
    }
    while i < l.len()
        invariant
            texts(l@) == lines(s@),
            i <= l@.len(),
            first_words(texts(l@).skip(i as int)) == first_words(lines(s@)),
        decreases l@.len() - i,
    {
        proof {
            assert(texts(l@).skip(i as int)[0] == l@[i as int]@);
            assert(texts(l@).skip(i as int).skip(1) =~= texts(l@).skip(i + 1));
        }
        if trim(l[i].as_str()).unicode_len() > 0 {
            return l[i].as_str().to_owned();
        }
        i += 1;
    }
    String::new()
}

/// The last line that is not blank, trimmed.
pub open spec fn last_words(all: Seq<Seq<char>>) -> Option<Seq<char>>
    decreases all.len(),
{
    if all.len() == 0 {
        None
    } else if trimmed(all.last()).len() > 0 {
        Some(trimmed(all.last()))
    } else {
        last_words(all.drop_last())
    }
}

/// The last line of a text that is not blank, trimmed.
pub fn last_line(s: &str) -> (r: Option<String>)
    ensures
        text_of(r) == last_words(lines(s@)),
{
    let l = lines_of(s);
    let mut i: usize = l.len();
    proof {
        assert(texts(l@).take(i as int) =~= texts(l@));
    }
    while i > 0
        invariant
            texts(l@) == lines(s@),
            i <= l@.len(),
            last_words(texts(l@).take(i as int)) == last_words(lines(s@)),
        decreases i,
    {
        let line = trim(l[i - 1].as_str());
        proof {
            assert(texts(l@).take(i as int).last() == l@[i - 1]@);
            assert(texts(l@).take(i as int).drop_last() =~= texts(l@).take(i - 1));
        }
        if line.unicode_len() > 0 {
            return Some(line.to_owned());
        }
        i -= 1;
    }
    None
}

/// The lines that are not blank.
pub open spec fn not_blank(all: Seq<Seq<char>>) -> Seq<Seq<char>>
    decreases all.len(),
{
    if all.len() == 0 {
        seq![]
    } else if trimmed(all.last()).len() > 0 {
        not_blank(all.drop_last()).push(all.last())
    } else {
        not_blank(all.drop_last())
    }
}

/// The lines of a text that are not blank.
pub fn full_lines(s: &str) -> (r: Vec<String>)
    ensures
        texts(r@) == not_blank(lines(s@)),
{
    let l = lines_of(s);
    let mut out: Vec<String> = Vec::new();
    let mut i: usize = 0;
    while i < l.len()
        invariant
            texts(l@) == lines(s@),
            i <= l@.len(),
            texts(out@) == not_blank(texts(l@).take(i as int)),
        decreases l@.len() - i,
    {
        proof {
            assert(texts(l@).take(i + 1).last() == l@[i as int]@);
            assert(texts(l@).take(i + 1).drop_last() =~= texts(l@).take(i as int));
        }
        if trim(l[i].as_str()).unicode_len() > 0 {
            push_text(&mut out, l[i].as_str());
        }
        i += 1;
    }
    proof {
        assert(texts(l@).take(i as int) =~= texts(l@));
    }
    out
}

/// The lower case of an ASCII letter; any other character unchanged.
pub open spec fn lower_char(c: char) -> char {
    if 'A' <= c <= 'Z' {
        ((c as u8) + 32) as char
    } else {
        c
    }
}

/// The upper case of an ASCII letter; any other character unchanged.
pub open spec fn upper_char(c: char) -> char {
    if 'a' <= c <= 'z' {
        ((c as u8) - 32) as char
    } else {
        c
    }
}

/// `s` with its ASCII letters in lower case.
pub open spec fn lower(s: Seq<char>) -> Seq<char> {
    s.map_values(|c: char| lower_char(c))
}

/// `s` with its ASCII letters in upper case.
pub open spec fn upper(s: Seq<char>) -> Seq<char> {
    s.map_values(|c: char| upper_char(c))
}

pub fn to_lower(s: &str) -> (r: String)
    ensures
        r@ == lower(s@),
{
    let cs = chars_of(s);
    let mut out = String::new();
    let mut i: usize = 0;
    while i < cs.len()
        invariant
            cs@ == s@,
            i <= cs@.len(),
            out@ == lower(s@.take(i as int)),
        decreases cs@.len() - i,
    {
        let c = cs[i];
        if 'A' <= c && c <= 'Z' {
            out.push(((c as u8) + 32) as char);
        } else {
            out.push(c);
        }
        proof {
            assert(lower(s@.take(i as int)).push(lower_char(c)) =~= lower(s@.take(i + 1)));
        }
        i += 1;
    }
    proof {
        assert(s@.take(i as int) =~= s@);
    }
    out
}

pub fn to_upper(s: &str) -> (r: String)
    ensures
        r@ == upper(s@),
{
    let cs = chars_of(s);
    let mut out = String::new();
    let mut i: usize = 0;
    while i < cs.len()
        invariant
            cs@ == s@,
            i <= cs@.len(),
            out@ == upper(s@.take(i as int)),
        decreases cs@.len() - i,
    {
        let c = cs[i];
        if 'a' <= c && c <= 'z' {
            out.push(((c as u8) - 32) as char);
        } else {
            out.push(c);
        }
        proof {
            assert(upper(s@.take(i as int)).push(upper_char(c)) =~= upper(s@.take(i + 1)));
        }
        i += 1;
    }
    proof {
        assert(s@.take(i as int) =~= s@);
    }
    out
}

/// What stands between the first and the second occurrence of `p`, or after the
/// only one.
pub open spec fn second(s: Seq<char>, p: Seq<char>) -> Option<Seq<char>> {
    match index_of(s, p) {
        Some(i) => {
            let rest = s.skip(i + p.len());
            match index_of(rest, p) {
                Some(j) => Some(rest.take(j)),
                None => Some(rest),
            }
        },
        None => None,
    }
}

pub fn second_part<'a>(s: &'a str, p: &str) -> (r: Option<&'a str>)
    ensures
        str_of(r) == second(s@, p@),
{
    let n: usize = s.unicode_len();
    let m: usize = p.unicode_len();
    match find_text(s, p) {
        Some(i) => {
            proof {
                assert(i + m <= n);
            }
            let rest = tail(s, i + m);
            match find_text(rest, p) {
                Some(j) => Some(head(rest, j)),
                None => Some(rest),
            }
        },
        None => None,
    }
}

/// The part of `s` before the first character of `k`, or all of it.
pub open spec fn up_to(s: Seq<char>, k: Class) -> Seq<char> {
    s.take(first(s, k, true))
}

pub fn before<'a>(s: &'a str, k: Class) -> (r: &'a str)
    ensures
        r@ == up_to(s@, k),
{
    head(s, find(s, k, true))
}

/// The part of `s` after the last character of `k`, or all of it.
pub open spec fn behind(s: Seq<char>, k: Class) -> Seq<char> {
    s.skip(after_last(s, k, true))
}

pub fn after<'a>(s: &'a str, k: Class) -> (r: &'a str)
    ensures
        r@ == behind(s@, k),
{
    tail(s, find_last(s, k, true))
}

/// The part of `s` before the last dot, where it has one.
pub open spec fn stem(s: Seq<char>) -> Option<Seq<char>> {
    let dot = after_last(s, Class::Is('.'), true);
    if dot > 0 {
        Some(s.take(dot - 1))
    } else {
        None
    }
}

pub fn stem_text<'a>(s: &'a str) -> (r: Option<&'a str>)
    ensures
        str_of(r) == stem(s@),
{
    let dot: usize = find_last(s, Class::Is('.'), true);
    if dot > 0 {
        Some(head(s, dot - 1))
    } else {
        None
    }
}

/// `s` without the characters of `k` at its end.
pub open spec fn cut_end(s: Seq<char>, k: Class) -> Seq<char> {
    s.take(after_last(s, k, false))
}

pub fn trim_class_end<'a>(s: &'a str, k: Class) -> (r: &'a str)
    ensures
        r@ == cut_end(s@, k),
{
    head(s, find_last(s, k, false))
}

/// `s` without the characters of `k` at either end.
pub open spec fn cut_ends(s: Seq<char>, k: Class) -> Seq<char> {
    cut_end(s.skip(first(s, k, false)), k)
}

pub fn trim_class<'a>(s: &'a str, k: Class) -> (r: &'a str)
    ensures
        r@ == cut_ends(s@, k),
{
    trim_class_end(tail(s, find(s, k, false)), k)
}

/// What came out of a call, or the words of its error.
pub open spec fn outcome(r: Result<String, String>) -> Result<Seq<char>, Seq<char>> {
    match r {
        Ok(s) => Ok(s@),
        Err(e) => Err(e@),
    }
}

/// The last position at which `p` occurs in `s`.
pub open spec fn last_index_of(s: Seq<char>, p: Seq<char>) -> Option<int>
    decreases s.len(),
{
    if ends_with(s, p) {
        Some(s.len() - p.len())
    } else if s.len() == 0 {
        None
    } else {
        last_index_of(s.drop_last(), p)
    }
}

pub fn find_last_text(s: &str, p: &str) -> (r: Option<usize>)
    ensures
        match r {
            Some(i) => last_index_of(s@, p@) == Some(i as int) && i + p@.len() <= s@.len(),
            None => last_index_of(s@, p@) is None,
        },
{
    let cs = chars_of(s);
    let ps = chars_of(p);
    let m: usize = ps.len();
    let mut n: usize = cs.len();
    proof {
        assert(s@.take(n as int) =~= s@);
    }
    loop
        invariant
            cs@ == s@,
            ps@ == p@,
            m == p@.len(),
            n <= s@.len(),
            last_index_of(s@.take(n as int), p@) == last_index_of(s@, p@),
        decreases n,
    {
        let ghost front = s@.take(n as int);
        if n >= m && is_here(&cs, &ps, n - m) {
            proof {
                assert(front.skip(n - m) =~= s@.skip(n - m).take(m as int));
            }
            return Some(n - m);
        }
        proof {
            if n >= m {
                assert(front.skip(n - m) =~= s@.skip(n - m).take(m as int));
            }
            assert(!ends_with(front, p@));
        }
        if n == 0 {
            return None;
        }
        proof {
            assert(front.drop_last() =~= s@.take(n - 1));
        }
        n -= 1;
    }
}

/// Whether two texts part at position `i`, where the first one ends or has the
/// smaller character.
pub open spec fn less_at(a: Seq<char>, b: Seq<char>, i: int) -> bool {
    &&& 0 <= i <= a.len()
    &&& i < b.len()
    &&& a.take(i) == b.take(i)
    &&& i == a.len() || a[i] < b[i]
}

/// Whether a text stands before another in the order of texts.
pub open spec fn text_less(a: Seq<char>, b: Seq<char>) -> bool {
    exists|i: int| less_at(a, b, i)
}

/// Texts that are the same up to a field stand in the order of that field.
pub proof fn lemma_field_less(a: Seq<char>, b: Seq<char>, at: int, end: int)
    requires
        0 <= at <= end <= a.len(),
        end <= b.len(),
        a.take(at) == b.take(at),
        text_less(a.subrange(at, end), b.subrange(at, end)),
    ensures
        text_less(a, b),
{
    let x = a.subrange(at, end);
    let y = b.subrange(at, end);
    let i = choose|i: int| less_at(x, y, i);
    assert forall|j: int| 0 <= j < at + i implies a[j] == b[j] by {
        if j < at {
            assert(a[j] == a.take(at)[j] && b[j] == b.take(at)[j]);
        } else {
            assert(a[j] == x.take(i)[j - at] && b[j] == y.take(i)[j - at]);
        }
    }
    assert(a.take(at + i) =~= b.take(at + i));
    assert(a[at + i] == x[i] && b[at + i] == y[i]);
    assert(less_at(a, b, at + i));
}

/// Texts that are the same up to a field and in it are the same up to its end.
pub proof fn lemma_field_same(a: Seq<char>, b: Seq<char>, at: int, end: int)
    requires
        0 <= at <= end <= a.len(),
        end <= b.len(),
        a.take(at) == b.take(at),
        a.subrange(at, end) == b.subrange(at, end),
    ensures
        a.take(end) == b.take(end),
{
    assert(a.take(end) =~= a.take(at) + a.subrange(at, end));
    assert(b.take(end) =~= b.take(at) + b.subrange(at, end));
}

/// Whether `b` stands right behind `a` in a command line.
pub open spec fn followed(line: Seq<Seq<char>>, a: Seq<char>, b: Seq<char>) -> bool {
    exists|i: int| 0 <= i < line.len() - 1 && #[trigger] line[i] == a && line[i + 1] == b
}

/// What occurs in a part of a text occurs in the text.
pub proof fn lemma_contains_at(s: Seq<char>, p: Seq<char>, i: int)
    requires
        0 <= i,
        i + p.len() <= s.len(),
        s.subrange(i, i + p.len()) == p,
    ensures
        contains(s, p),
{
    lemma_index_of(s, p);
    assert(s.skip(i).take(p.len() as int) =~= p);
    if index_of(s, p) is None {
        assert(!starts_with(s.skip(i), p));
    }
}

/// Where a text contains another, that stands at some position.
pub proof fn lemma_contained_somewhere(s: Seq<char>, p: Seq<char>) -> (i: int)
    requires
        contains(s, p),
    ensures
        0 <= i,
        i + p.len() <= s.len(),
        s.subrange(i, i + p.len()) == p,
{
    lemma_index_of(s, p);
    let i = index_of(s, p)->0;
    assert(s.subrange(i, i + p.len()) =~= s.skip(i).take(p.len() as int));
    i
}

/// The part before the first `c` ends there; a text without it is that part.
pub proof fn law_front_ends_at(a: Seq<char>, c: char, b: Seq<char>)
    requires
        !a.contains(c),
    ensures
        up_to(a, Class::Is(c)) == a,
        up_to(a + seq![c] + b, Class::Is(c)) == a,
        first(a + seq![c] + b, Class::Is(c), true) == a.len(),
        first(a, Class::Is(c), true) == a.len(),
{
    let k = Class::Is(c);
    let s = a + seq![c] + b;
    assert forall|j: int| 0 <= j < a.len() implies k.has(#[trigger] a[j]) != true by {
        assert(a.contains(a[j]));
    }
    assert forall|j: int| 0 <= j < a.len() implies k.has(#[trigger] s[j]) != true by {
        assert(s[j] == a[j]);
    }
    lemma_first_is(a, k, true, a.len() as int);
    lemma_first_is(s, k, true, a.len() as int);
    assert(a.take(a.len() as int) =~= a);
    assert(s.take(a.len() as int) =~= a);
}

/// The part behind the last `c` begins there; a text without it is that part.
pub proof fn law_end_begins_behind(a: Seq<char>, c: char, b: Seq<char>)
    requires
        !b.contains(c),
    ensures
        behind(b, Class::Is(c)) == b,
        behind(a + seq![c] + b, Class::Is(c)) == b,
        after_last(a + seq![c] + b, Class::Is(c), true) == a.len() + 1,
        after_last(b, Class::Is(c), true) == 0,
{
    let k = Class::Is(c);
    let s = a + seq![c] + b;
    assert forall|j: int| 0 <= j < b.len() implies k.has(#[trigger] b[j]) != true by {
        assert(b.contains(b[j]));
    }
    assert forall|j: int| a.len() + 1 <= j < s.len() implies k.has(#[trigger] s[j]) != true by {
        assert(s[j] == b[j - a.len() - 1]);
    }
    lemma_after_last_is(b, k, true, 0);
    lemma_after_last_is(s, k, true, a.len() as int + 1);
    assert(b.skip(0) =~= b);
    assert(s.skip(a.len() as int + 1) =~= b);
}

/// A text is found where it stands, and not where its first character is not.
pub proof fn law_found_where_it_stands(a: Seq<char>, p: Seq<char>, b: Seq<char>)
    requires
        p.len() > 0,
        !a.contains(p[0]),
    ensures
        index_of(a, p) is None,
        index_of(a + p + b, p) == Some(a.len() as int),
        second(a + p + b, p) == match index_of(b, p) {
            Some(j) => Some(b.take(j)),
            None => Some(b),
        },
        replaced(a, p, b) == a,
{
    let s = a + p + b;
    assert(s.skip(a.len() as int).take(p.len() as int) =~= p);
    assert forall|j: int| 0 <= j < a.len() implies !starts_with(#[trigger] s.skip(j), p) by {
        if starts_with(s.skip(j), p) {
            assert(s.skip(j).take(p.len() as int)[0] == a[j]);
            assert(a.contains(a[j]));
        }
    }
    lemma_index_of_is(s, p, a.len() as int);
    assert(s.skip((a.len() + p.len()) as int) =~= b);
    lemma_index_of(a, p);
    if index_of(a, p) is Some {
        let i = index_of(a, p)->0;
        assert(a.skip(i).take(p.len() as int)[0] == a[i]);
        assert(a.contains(a[i]));
    }
}

/// What is replaced gives way to the new words, and the rest stays.
pub proof fn law_replaced_in_place(a: Seq<char>, p: Seq<char>, b: Seq<char>, w: Seq<char>)
    requires
        p.len() > 0,
        !a.contains(p[0]),
    ensures
        replaced(a + p + b, p, w) == a + w + replaced(b, p, w),
{
    let s = a + p + b;
    law_found_where_it_stands(a, p, b);
    assert(s.skip((a.len() + p.len()) as int) =~= b);
    assert(s.take(a.len() as int) =~= a);
}

/// White space at either end is cut off, and nothing else.
pub proof fn law_ends_are_trimmed(x: Seq<char>, s: Seq<char>, y: Seq<char>)
    requires
        forall|i: int| 0 <= i < x.len() ==> white(#[trigger] x[i]),
        forall|i: int| 0 <= i < y.len() ==> white(#[trigger] y[i]),
        s.len() > 0 ==> !white(s[0]) && !white(s.last()),
    ensures
        trimmed(x + s + y) == s,
        s.len() > 0 ==> trim_start(x + s + y) == s + y,
        s.len() > 0 ==> trim_end(x + s + y) == x + s,
{
    let t = x + s + y;
    let k = Class::Space;
    if s.len() > 0 {
        assert forall|j: int| 0 <= j < x.len() implies k.has(#[trigger] t[j]) != false by {
            assert(t[j] == x[j]);
        }
        assert(t[x.len() as int] == s[0]);
        lemma_first_is(t, k, false, x.len() as int);
        let u = s + y;
        assert(t.skip(x.len() as int) =~= u);
        assert forall|j: int| s.len() <= j < u.len() implies k.has(#[trigger] u[j]) != false by {
            assert(u[j] == y[j - s.len()]);
        }
        lemma_after_last_is(u, k, false, s.len() as int);
        assert(u.take(s.len() as int) =~= s);
        assert forall|j: int| x.len() + s.len() <= j < t.len() implies k.has(#[trigger] t[j]) != false by {
            assert(t[j] == y[j - x.len() - s.len()]);
        }
        lemma_after_last_is(t, k, false, (x.len() + s.len()) as int);
        assert(t.take((x.len() + s.len()) as int) =~= x + s);
    } else {
        assert forall|j: int| 0 <= j < t.len() implies k.has(#[trigger] t[j]) != false by {
            if j < x.len() {
                assert(t[j] == x[j]);
            } else {
                assert(t[j] == y[j - x.len()]);
            }
        }
        lemma_first_is(t, k, false, t.len() as int);
        assert(trimmed(t) =~= s);
    }
}

/// White space is the blank, the tab, the ends of lines and their wider kin; no
/// letter, digit or sign of ASCII is.
pub proof fn law_white_space(c: char)
    ensures
        white(' ') && white('\t') && white('\n') && white('\r') && white('\u{a0}') && white(
            '\u{3000}',
        ),
        '!' <= c <= '~' ==> !white(c),
        '\u{4e00}' <= c <= '\u{9fff}' ==> !white(c),
{
}

/// Letters of ASCII change their case one for one, and nothing else does.
pub proof fn law_case_of_letters(c: char)
    ensures
        'A' <= c <= 'Z' ==> 'a' <= lower_char(c) <= 'z' && lower_char(c) as u32 - 'a' as u32
            == c as u32 - 'A' as u32,
        'a' <= c <= 'z' ==> 'A' <= upper_char(c) <= 'Z' && upper_char(c) as u32 - 'A' as u32
            == c as u32 - 'a' as u32,
        !('A' <= c <= 'Z') ==> lower_char(c) == c,
        !('a' <= c <= 'z') ==> upper_char(c) == c,
{
}

/// A text in lower case is as long, and each of its characters is the lower case
/// of the one at its place.
pub proof fn law_lower_keeps_places(s: Seq<char>, t: Seq<char>)
    ensures
        lower(s).len() == s.len(),
        forall|i: int|
            0 <= i < s.len() ==> #[trigger] lower(s)[i] == (if 'A' <= s[i] <= 'Z' {
                (s[i] as u8 + 32) as char
            } else {
                s[i]
            }),
        lower(s + t) == lower(s) + lower(t),
        lower(lower(s)) == lower(s),
{
    assert(lower(s + t) =~= lower(s) + lower(t));
    assert(lower(lower(s)) =~= lower(s));
}

/// A line ends at the line feed, with or without a carriage return before it.
pub proof fn law_lines_end_at_line_feeds(a: Seq<char>, b: Seq<char>)
    requires
        !a.contains('\n'),
        !a.contains('\r'),
    ensures
        lines(a + seq!['\n'] + b) == seq![a] + lines(b),
        lines(a + seq!['\r', '\n'] + b) == seq![a] + lines(b),
        a.len() > 0 ==> lines(a) == seq![a],
        lines(seq![]) == Seq::<Seq<char>>::empty(),
{
    law_front_ends_at(a, '\n', b);
    let s = a + seq!['\n'] + b;
    assert(s.skip(a.len() as int + 1) =~= b);
    assert(s.take(a.len() as int) =~= a);
    if a.len() > 0 {
        assert(a.contains(a.last()));
    }
    let c = a + seq!['\r'];
    assert forall|j: int| 0 <= j < c.len() implies #[trigger] c[j] != '\n' by {
        if j < a.len() {
            assert(a.contains(a[j]));
        }
    }
    law_front_ends_at(c, '\n', b);
    let t = a + seq!['\r', '\n'] + b;
    assert(t =~= c + seq!['\n'] + b);
    assert(t.skip(c.len() as int + 1) =~= b);
    assert(t.take(c.len() as int) =~= c);
    assert(c.drop_last() =~= a);
}

/// A word ends at white space.
pub proof fn law_words_end_at_blanks(a: Seq<char>, b: Seq<char>)
    requires
        a.len() > 0,
        forall|i: int| 0 <= i < a.len() ==> !white(#[trigger] a[i]),
    ensures
        words(a + seq![' '] + b) == seq![a] + words(seq![' '] + b),
        words(a) == seq![a],
{
    let s = a + seq![' '] + b;
    let k = Class::Space;
    assert(s[0] == a[0] && !white(a[0]));
    lemma_first_is(s, k, false, 0);
    assert(s.skip(0) =~= s);
    assert forall|j: int| 0 <= j < a.len() implies k.has(#[trigger] s[j]) != true by {
        assert(s[j] == a[j]);
    }
    lemma_first_is(s, k, true, a.len() as int);
    assert(s.take(a.len() as int) =~= a);
    assert(s.skip(a.len() as int) =~= seq![' '] + b);
    lemma_first_is(a, k, false, 0);
    assert(a.skip(0) =~= a);
    lemma_first_is(a, k, true, a.len() as int);
    assert(a.take(a.len() as int) =~= a);
    let e = a.skip(a.len() as int);
    assert(e.len() == 0);
    assert(words(e) =~= seq![]);
}

/// The first line that is not blank is the first of all or the first of the rest,
/// and the last one the last of all or the last of those before.
pub proof fn law_blank_lines_do_not_speak(all: Seq<Seq<char>>, line: Seq<char>)
    ensures
        trimmed(line).len() == 0 ==> first_words(seq![line] + all) == first_words(all),
        trimmed(line).len() > 0 ==> first_words(seq![line] + all) == line,
        trimmed(line).len() == 0 ==> last_words(all.push(line)) == last_words(all),
        trimmed(line).len() > 0 ==> last_words(all.push(line)) == Some(trimmed(line)),
        trimmed(line).len() == 0 ==> not_blank(all.push(line)) == not_blank(all),
        trimmed(line).len() > 0 ==> not_blank(all.push(line)) == not_blank(all).push(line),
        last_words(seq![]) is None,
{
    assert((seq![line] + all).skip(1) =~= all);
    assert(all.push(line).drop_last() =~= all);
}

/// What occurs in neither of two texts occurs in neither order of them.
pub proof fn lemma_cat_without(a: Seq<char>, b: Seq<char>, c: char)
    requires
        !a.contains(c),
        !b.contains(c),
    ensures
        !(a + b).contains(c),
{
    let s = a + b;
    assert forall|i: int| 0 <= i < s.len() implies #[trigger] s[i] != c by {
        if i < a.len() {
            assert(a.contains(a[i]));
        } else {
            assert(b.contains(b[i - a.len()]));
        }
    }
}

/// The last place of a text is one where it stands, and it stands at none behind that.
pub proof fn lemma_last_index_of(s: Seq<char>, p: Seq<char>)
    ensures
        match last_index_of(s, p) {
            Some(i) => 0 <= i && i + p.len() <= s.len() && s.subrange(i, i + p.len()) == p && forall|j: int|
                i < j && j + p.len() <= s.len() ==> #[trigger] s.subrange(j, j + p.len()) != p,
            None => forall|j: int|
                0 <= j && j + p.len() <= s.len() ==> #[trigger] s.subrange(j, j + p.len()) != p,
        },
    decreases s.len(),
{
    if p.len() <= s.len() {
        assert(s.skip(s.len() - p.len()) =~= s.subrange(s.len() - p.len(), s.len() as int));
    }
    if !ends_with(s, p) && s.len() > 0 {
        let t = s.drop_last();
        lemma_last_index_of(t, p);
        assert forall|j: int| 0 <= j && j + p.len() <= t.len() implies #[trigger] s.subrange(
            j,
            j + p.len(),
        ) == t.subrange(j, j + p.len()) by {
            assert(s.subrange(j, j + p.len()) =~= t.subrange(j, j + p.len()));
        }
    }
}

/// The contents of a list are those of its strings, one by one, and what came out of a
/// call is what it gave or the words of its error.
pub proof fn law_contents_are_those_of_the_strings(v: Seq<String>, p: Seq<(String, String)>, i: int, s: String, t: &str)
    ensures
        texts(v).len() == v.len(),
        0 <= i < v.len() ==> texts(v)[i] == v[i]@,
        pairs(p).len() == p.len(),
        0 <= i < p.len() ==> pairs(p)[i] == (p[i].0@, p[i].1@),
        text_of(Some(s)) == Some(s@) && text_of(None) is None,
        str_of(Some(t)) == Some(t@) && str_of(None) is None,
        outcome(Ok(s)) == Ok::<Seq<char>, Seq<char>>(s@),
        outcome(Err(s)) == Err::<Seq<char>, Seq<char>>(s@),
{
}

/// A text that is too long is cut at the limit, and a shorter one is kept.
pub proof fn law_prefix_is_cut_at_the_limit(s: Seq<char>, n: int)
    requires
        0 <= n,
    ensures
        s.len() <= n ==> prefix(s, n) == s,
        s.len() > n ==> prefix(s, n) == s.take(n) && prefix(s, n).len() == n,
{
}

/// What is cut off the ends is of the given kind, and what stays begins and ends with
/// something else.
pub proof fn law_ends_are_cut(x: Seq<char>, s: Seq<char>, y: Seq<char>, k: Class)
    requires
        forall|i: int| 0 <= i < x.len() ==> k.has(#[trigger] x[i]),
        forall|i: int| 0 <= i < y.len() ==> k.has(#[trigger] y[i]),
        s.len() > 0,
        !k.has(s[0]) && !k.has(s.last()),
    ensures
        cut_end(s + y, k) == s,
        cut_end(x + s + y, k) == x + s,
        cut_ends(x + s + y, k) == s,
{
    let a = s + y;
    let b = x + s + y;
    assert forall|j: int| s.len() <= j < a.len() implies k.has(#[trigger] a[j]) != false by {
        assert(a[j] == y[j - s.len()]);
    }
    lemma_after_last_is(a, k, false, s.len() as int);
    assert(a.take(s.len() as int) =~= s);
    let n = (x.len() + s.len()) as int;
    assert forall|j: int| n <= j < b.len() implies k.has(#[trigger] b[j]) != false by {
        assert(b[j] == y[j - n]);
    }
    lemma_after_last_is(b, k, false, n);
    assert(b.take(n) =~= x + s);
    assert forall|j: int| 0 <= j < x.len() implies k.has(#[trigger] b[j]) != false by {
        assert(b[j] == x[j]);
    }
    assert(b[x.len() as int] == s[0]);
    lemma_first_is(b, k, false, x.len() as int);
    assert(b.skip(x.len() as int) =~= a);
    let c = x + s;
    assert forall|j: int| 0 <= j < x.len() implies k.has(#[trigger] c[j]) != false by {
        assert(c[j] == x[j]);
    }
    lemma_first_is(c, k, false, x.len() as int);
    assert(c.skip(x.len() as int) =~= s);
}

} // verus!
