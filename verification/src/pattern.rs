//! Regular expressions.

use vstd::prelude::*;
use crate::text::texts;

verus! {

/// A match: the text before it, the groups, the whole match being the first,
/// and the text after it. A group that took no part is empty.
pub struct Match {
    pub before: String,
    pub groups: Vec<String>,
    pub after: String,
}

/// What a match says.
#[verifier::ext_equal]
pub struct MatchView {
    pub before: Seq<char>,
    pub groups: Seq<Seq<char>>,
    pub after: Seq<char>,
}

impl View for Match {
    type V = MatchView;

    open spec fn view(&self) -> MatchView {
        MatchView { before: self.before@, groups: texts(self.groups@), after: self.after@ }
    }
}

/// The identifier of a song, wherever it stands.
pub const UUID_PATTERN: &'static str = r"(?i)[0-9a-f]{8}-[0-9a-f]{4}-[0-9a-f]{4}-[0-9a-f]{4}-[0-9a-f]{12}";

/// Whether a character is a hexadecimal digit in either case.
pub open spec fn hexadecimal(c: char) -> bool {
    '0' <= c <= '9' || 'a' <= c <= 'f' || 'A' <= c <= 'F'
}

/// Whether an identifier can have the character at position `i`: four dashes
/// part groups of 8, 4, 4, 4 and 12 hexadecimal digits.
pub open spec fn id_char(i: int, c: char) -> bool {
    if i == 8 || i == 13 || i == 18 || i == 23 {
        c == '-'
    } else {
        hexadecimal(c)
    }
}

pub open spec fn is_id(s: Seq<char>) -> bool {
    s.len() == 36 && forall|i: int| 0 <= i < 36 ==> id_char(i, #[trigger] s[i])
}

/// Whether an identifier stands at position `i`.
pub open spec fn id_at(s: Seq<char>, i: int) -> bool {
    0 <= i && i + 36 <= s.len() && is_id(s.subrange(i, i + 36))
}

/// The position of the first identifier in a text.
pub open spec fn first_id(s: Seq<char>) -> Option<int>
    decreases s.len(),
{
    if s.len() < 36 {
        None
    } else if id_at(s, 0) {
        Some(0)
    } else {
        match first_id(s.skip(1)) {
            Some(i) => Some(i + 1),
            None => None,
        }
    }
}

/// The first identifier in a text as a match without groups of its own.
pub open spec fn id_match(s: Seq<char>) -> Option<MatchView> {
    match first_id(s) {
        Some(i) => Some(
            MatchView {
                before: s.take(i),
                groups: seq![s.subrange(i, i + 36)],
                after: s.skip(i + 36),
            },
        ),
        None => None,
    }
}

/// The first identifier is one, and there is none before it.
pub proof fn lemma_first_id(s: Seq<char>)
    ensures
        match first_id(s) {
            Some(i) => id_at(s, i) && forall|j: int| 0 <= j < i ==> !id_at(s, j),
            None => forall|j: int| !id_at(s, j),
        },
    decreases s.len(),
{
    if s.len() >= 36 && !id_at(s, 0) {
        let t = s.skip(1);
        lemma_first_id(t);
        assert forall|j: int| j >= 1 implies id_at(s, j) == id_at(t, j - 1) by {
            if j + 36 <= s.len() {
                assert(s.subrange(j, j + 36) =~= t.subrange(j - 1, j + 35));
            }
        }
        match first_id(t) {
            Some(i) => {
                assert(id_at(s, i + 1));
                assert forall|j: int| 0 <= j < i + 1 implies !id_at(s, j) by {
                    if j > 0 {
                        assert(!id_at(t, j - 1));
                    }
                }
            },
            None => {
                assert forall|j: int| !id_at(s, j) by {
                    if j > 0 {
                        assert(!id_at(t, j - 1));
                    }
                }
            },
        }
    }
}

pub proof fn lemma_first_id_is(s: Seq<char>, i: int)
    requires
        id_at(s, i),
        forall|j: int| 0 <= j < i ==> !id_at(s, j),
    ensures
        first_id(s) == Some(i),
{
    lemma_first_id(s);
    match first_id(s) {
        Some(k) => {
            if k < i {
                assert(!id_at(s, k));
            } else if i < k {
                assert(!id_at(s, i));
            }
        },
        None => {
            assert(!id_at(s, i));
        },
    }
}

/// The first match of a pattern in a text, where the pattern is a regular
/// expression and occurs.
pub uninterp spec fn regex_first(pattern: Seq<char>, text: Seq<char>) -> Option<MatchView>;

/// Calls `Regex::captures` for the leftmost match and cuts the text before and
/// after it off. Whether there is one, and its groups, depends on the pattern and
/// the text alone; that result goes by the name `regex_first`. A pattern that is
/// no regular expression matches nowhere. Of the pattern of an identifier, which
/// is of one length and has no groups, it is said what the leftmost match is:
/// the digits of either case are those of ASCII, since no other character folds
/// to one of them. Which of the other patterns match what is not said here.
#[verifier::external_body]
pub(crate) fn first_match(pattern: &str, text: &str) -> (r: Option<Match>)
    ensures
        match r {
            Some(m) => regex_first(pattern@, text@) == Some(m@),
            None => regex_first(pattern@, text@) is None,
        },
        pattern@ == UUID_PATTERN@ ==> match r {
            Some(m) => id_match(text@) == Some(m@),
            None => id_match(text@) is None,
        },
{
    let re = regex::Regex::new(pattern).ok()?;
    let c = re.captures(text)?;
    let m = c.get(0)?;
    let groups = c.iter().map(|g| g.map_or("", |g| g.as_str()).to_string()).collect();
    Some(
        Match {
            before: text[..m.start()].to_string(),
            groups,
            after: text[m.end()..].to_string(),
        },
    )
}

/// The groups of all matches of a pattern in a text, from the left.
pub uninterp spec fn regex_all(pattern: Seq<char>, text: Seq<char>) -> Seq<Seq<Seq<char>>>;

pub open spec fn groups_of(v: Seq<Vec<String>>) -> Seq<Seq<Seq<char>>> {
    v.map_values(|g: Vec<String>| texts(g@))
}

/// Calls `Regex::captures_iter` for the groups of the successive matches, the
/// whole match being the first group of each. They depend on the pattern and
/// the text alone; that result goes by the name `regex_all`. A pattern that is
/// no regular expression matches nowhere. Which of the library's patterns match
/// what is not said here.
#[verifier::external_body]
pub(crate) fn all_matches(pattern: &str, text: &str) -> (r: Vec<Vec<String>>)
    ensures
        groups_of(r@) == regex_all(pattern@, text@),
{
    let re = match regex::Regex::new(pattern) {
        Ok(re) => re,
        Err(_) => return Vec::new(),
    };
    re.captures_iter(text)
        .map(|c| c.iter().map(|g| g.map_or("", |g| g.as_str()).to_string()).collect())
        .collect()
}

/// An identifier has 36 characters: hexadecimal digits of either case, with dashes after
/// the first eight, and after each of the next three fours.
pub proof fn law_shape_of_an_identifier(s: Seq<char>)
    requires
        is_id(s),
    ensures
        s.len() == 36,
        s[8] == '-' && s[13] == '-' && s[18] == '-' && s[23] == '-',
        forall|i: int|
            0 <= i < 36 && i != 8 && i != 13 && i != 18 && i != 23 ==> '0' <= #[trigger] s[i] <= '9' || 'a'
                <= s[i] <= 'f' || 'A' <= s[i] <= 'F',
        UUID_PATTERN@ == r"(?i)[0-9a-f]{8}-[0-9a-f]{4}-[0-9a-f]{4}-[0-9a-f]{4}-[0-9a-f]{12}"@,
{
    assert(id_char(8, s[8]) && id_char(13, s[13]) && id_char(18, s[18]) && id_char(23, s[23]));
    assert forall|i: int| 0 <= i < 36 && i != 8 && i != 13 && i != 18 && i != 23 implies '0'
        <= #[trigger] s[i] <= '9' || 'a' <= s[i] <= 'f' || 'A' <= s[i] <= 'F' by {
        assert(id_char(i, s[i]));
    }
}

/// What has that shape is an identifier.
pub proof fn law_identifiers_are_known(s: Seq<char>)
    requires
        s.len() == 36,
        s[8] == '-' && s[13] == '-' && s[18] == '-' && s[23] == '-',
        forall|i: int|
            0 <= i < 36 && i != 8 && i != 13 && i != 18 && i != 23 ==> '0' <= #[trigger] s[i] <= '9' || 'a'
                <= s[i] <= 'f' || 'A' <= s[i] <= 'F',
    ensures
        is_id(s),
        first_id(s) == Some(0int),
{
    assert(s.subrange(0, 36) =~= s);
}

/// What a match is taken to say is what it holds.
pub proof fn law_said_of_match(x: Match)
    ensures
        x@.before == x.before@,
        x@.groups == texts(x.groups@),
        x@.after == x.after@,
{
}

/// The match of an identifier is the identifier, with the text before and after it.
pub proof fn law_match_of_an_identifier(s: Seq<char>, v: Seq<Vec<String>>, i: int)
    ensures
        first_id(s) is None ==> id_match(s) is None,
        id_match(s) matches Some(m) ==> m.groups.len() == 1 && is_id(m.groups[0]) && s == m.before
            + m.groups[0] + m.after,
        groups_of(v).len() == v.len(),
        0 <= i < v.len() ==> groups_of(v)[i] == texts(v[i]@),
{
    lemma_first_id(s);
    if let Some(k) = first_id(s) {
        assert(s =~= s.take(k) + s.subrange(k, k + 36) + s.skip(k + 36));
    }
}

} // verus!
