//! JSON values as the library reads them.

use vstd::prelude::*;
use crate::text::{same, texts};

verus! {

/// A JSON value. A number keeps only whether it is an unsigned integer, and
/// which one; an object keeps its members in order.
pub enum Json {
    Null,
    Bool(bool),
    Number(Option<u64>),
    Text(String),
    List(Vec<Json>),
    Object(Vec<(String, Json)>),
}

/// What a JSON value says.
#[verifier::ext_equal]
pub enum JsonView {
    Null,
    Bool(bool),
    Number(Option<u64>),
    Text(Seq<char>),
    List(Seq<JsonView>),
    Object(Seq<(Seq<char>, JsonView)>),
}

impl View for Json {
    type V = JsonView;

    open spec fn view(&self) -> JsonView {
        value_of(*self)
    }
}

pub open spec fn value_of(j: Json) -> JsonView
    decreases j,
{
    match j {
        Json::Null => JsonView::Null,
        Json::Bool(b) => JsonView::Bool(b),
        Json::Number(n) => JsonView::Number(n),
        Json::Text(s) => JsonView::Text(s@),
        Json::List(v) => JsonView::List(
            Seq::new(
                v@.len(),
                |i: int| if 0 <= i < v@.len() { value_of(v@[i]) } else { JsonView::Null },
            ),
        ),
        Json::Object(v) => JsonView::Object(
            Seq::new(
                v@.len(),
                |i: int|
                    if 0 <= i < v@.len() { (v@[i].0@, value_of(v@[i].1)) } else { (seq![], JsonView::Null) },
            ),
        ),
    }
}

/// The member of that name, where the list of members has one.
pub open spec fn lookup(members: Seq<(Seq<char>, JsonView)>, key: Seq<char>) -> Option<JsonView>
    decreases members.len(),
{
    if members.len() == 0 {
        None
    } else if members[0].0 == key {
        Some(members[0].1)
    } else {
        lookup(members.skip(1), key)
    }
}

impl JsonView {
    /// The member of that name, where this is an object that has one.
    pub open spec fn get(self, key: Seq<char>) -> Option<JsonView> {
        match self {
            JsonView::Object(m) => lookup(m, key),
            _ => None,
        }
    }

    /// The member of that name, or null.
    pub open spec fn at(self, key: Seq<char>) -> JsonView {
        match self.get(key) {
            Some(v) => v,
            None => JsonView::Null,
        }
    }

    pub open spec fn as_text(self) -> Option<Seq<char>> {
        match self {
            JsonView::Text(s) => Some(s),
            _ => None,
        }
    }

    /// The text of the member of that name, where it is there and a text.
    pub open spec fn text_at(self, key: Seq<char>) -> Option<Seq<char>> {
        self.at(key).as_text()
    }

    /// Whether this is a list of texts only.
    pub open spec fn is_texts(self) -> bool {
        self matches JsonView::List(v) && forall|i: int| 0 <= i < v.len() ==> (#[trigger] v[i]) is Text
    }
}

proof fn lemma_lookup_is(members: Seq<(Seq<char>, JsonView)>, key: Seq<char>, i: int)
    requires
        0 <= i <= members.len(),
        i < members.len() ==> members[i].0 == key,
        forall|j: int| 0 <= j < i ==> (#[trigger] members[j]).0 != key,
    ensures
        lookup(members, key) == (if i < members.len() {
            Some(members[i].1)
        } else {
            None
        }),
    decreases members.len(),
{
    if members.len() > 0 && i > 0 {
        let t = members.skip(1);
        assert(members[0].0 != key);
        assert forall|j: int| 0 <= j < i - 1 implies (#[trigger] t[j]).0 != key by {
            assert(t[j] == members[j + 1]);
        }
        lemma_lookup_is(t, key, i - 1);
    }
}

/// The position of the first member of that name, or the number of members.
fn find_member(v: &Vec<(String, Json)>, key: &str) -> (r: usize)
    ensures
        r <= v@.len(),
        r < v@.len() ==> v@[r as int].0@ == key@,
        forall|j: int| 0 <= j < r ==> (#[trigger] v@[j]).0@ != key@,
{
    let mut i: usize = 0;
    while i < v.len() && !same(v[i].0.as_str(), key)
        invariant
            i <= v@.len(),
            forall|j: int| 0 <= j < i ==> (#[trigger] v@[j]).0@ != key@,
        decreases v@.len() - i,
    {
        i += 1;
    }
    i
}

impl Json {
    /// The member of that name, where this is an object that has one.
    pub fn get<'a>(&'a self, key: &str) -> (r: Option<&'a Json>)
        ensures
            match r {
                Some(j) => self@.get(key@) == Some(j@),
                None => self@.get(key@) is None,
            },
    {
        match self {
            Json::Object(v) => {
                let i: usize = find_member(v, key);
                proof {
                    let m = self@->Object_0;
                    assert(m.len() == v@.len());
                    assert forall|j: int| 0 <= j < i implies (#[trigger] m[j]).0 != key@ by {
                        assert(m[j].0 == v@[j].0@);
                    }
                    lemma_lookup_is(m, key@, i as int);
                }
                if i < v.len() {
                    Some(&v[i].1)
                } else {
                    None
                }
            },
            _ => None,
        }
    }

    /// The member of that name, or null, out of a value that is not needed
    /// any more.
    pub fn take(self, key: &str) -> (r: Json)
        ensures
            r@ == self@.at(key@),
    {
        let ghost whole = self@;
        match self {
            Json::Object(mut v) => {
                let i: usize = find_member(&v, key);
                proof {
                    let m = whole->Object_0;
                    assert(m.len() == v@.len());
                    assert forall|j: int| 0 <= j < i implies (#[trigger] m[j]).0 != key@ by {
                        assert(m[j].0 == v@[j].0@);
                    }
                    lemma_lookup_is(m, key@, i as int);
                }
                if i < v.len() {
                    let p = v.remove(i);
                    p.1
                } else {
                    Json::Null
                }
            },
            _ => Json::Null,
        }
    }

    pub fn as_str<'a>(&'a self) -> (r: Option<&'a str>)
        ensures
            match r {
                Some(s) => self@.as_text() == Some(s@),
                None => self@.as_text() is None,
            },
    {
        match self {
            Json::Text(s) => Some(s.as_str()),
            _ => None,
        }
    }

    /// The text of the member of that name, where it is there and a text.
    pub fn text_at<'a>(&'a self, key: &str) -> (r: Option<&'a str>)
        ensures
            match r {
                Some(s) => self@.text_at(key@) == Some(s@),
                None => self@.text_at(key@) is None,
            },
    {
        match self.get(key) {
            Some(j) => j.as_str(),
            None => None,
        }
    }

    /// The texts of a list of texts.
    pub fn texts(&self) -> (r: Option<Vec<String>>)
        ensures
            match r {
                Some(v) => {
                    &&& self@.is_texts()
                    &&& texts(v@).len() == self@->List_0.len()
                    &&& forall|i: int| 0 <= i < v@.len() ==> self@->List_0[i] == JsonView::Text(#[trigger] texts(v@)[i])
                },
                None => !self@.is_texts(),
            },
    {
        match self {
            Json::List(v) => {
                let mut out: Vec<String> = Vec::new();
                let mut i: usize = 0;
                while i < v.len()
                    invariant
                        i <= v@.len(),
                        self@ is List,
                        self@->List_0.len() == v@.len(),
                        forall|j: int| 0 <= j < v@.len() ==> (#[trigger] self@->List_0[j]) == v@[j]@,
                        out@.len() == i,
                        forall|j: int| 0 <= j < i ==> self@->List_0[j] == JsonView::Text(#[trigger] texts(out@)[j]),
                    decreases v@.len() - i,
                {
                    let ghost before = texts(out@);
                    match v[i].as_str() {
                        Some(s) => {
                            crate::text::push_text(&mut out, s);
                            proof {
                                assert(self@->List_0[i as int] == v@[i as int]@);
                                assert forall|j: int| 0 <= j < i + 1 implies self@->List_0[j]
                                    == JsonView::Text(#[trigger] texts(out@)[j]) by {
                                    if j < i {
                                        assert(texts(out@)[j] == before[j]);
                                    }
                                }
                            }
                        },
                        None => {
                            proof {
                                assert(!(self@->List_0[i as int] is Text));
                            }
                            return None;
                        },
                    }
                    i += 1;
                }
                proof {
                    let l = self@->List_0;
                    assert forall|j: int| 0 <= j < l.len() implies (#[trigger] l[j]) is Text by {
                        assert(l[j] == JsonView::Text(texts(out@)[j]));
                    }
                }
                Some(out)
            },
            _ => None,
        }
    }
}

#[verifier::external_type_specification]
#[verifier::external_body]
pub struct ExJsonValue(serde_json::Value);

/// What `serde_json` makes of a text: the value, or the words of its error.
pub uninterp spec fn json_read(text: Seq<char>) -> Result<JsonView, Seq<char>>;

/// Turns a `serde_json::Value` into the library's own value, one variant into
/// one, members in the order in which the map hands them out. Nothing is
/// claimed of the result here: `read` speaks of the two steps together.
#[verifier::external_body]
fn from_serde(v: serde_json::Value) -> Json {
    match v {
        serde_json::Value::Null => Json::Null,
        serde_json::Value::Bool(b) => Json::Bool(b),
        serde_json::Value::Number(n) => Json::Number(n.as_u64()),
        serde_json::Value::String(s) => Json::Text(s),
        serde_json::Value::Array(a) => Json::List(a.into_iter().map(from_serde).collect()),
        serde_json::Value::Object(m) => {
            Json::Object(m.into_iter().map(|p| (p.0, from_serde(p.1))).collect())
        },
    }
}

/// Calls `serde_json::from_str` for a `serde_json::Value` and hands the value
/// over, or the error as text. What it accepts and what it makes of it depends
/// on the text alone; that result goes by the name `json_read`.
#[verifier::external_body]
pub(crate) fn read(text: &str) -> (r: Result<Json, String>)
    ensures
        match r {
            Ok(j) => json_read(text@) == Ok::<JsonView, Seq<char>>(j@),
            Err(e) => json_read(text@) == Err::<JsonView, Seq<char>>(e@),
        },
{
    match serde_json::from_str::<serde_json::Value>(text) {
        Ok(v) => Ok(from_serde(v)),
        Err(e) => Err(e.to_string()),
    }
}

/// What `serde_json` makes of bytes: the value, or the words of its error.
pub uninterp spec fn json_read_bytes(bytes: Seq<u8>) -> Result<JsonView, Seq<char>>;

/// Calls `serde_json::from_slice` for a `serde_json::Value` and hands the value
/// over, or the error as text. What it accepts and what it makes of it depends
/// on the bytes alone; that result goes by the name `json_read_bytes`.
#[verifier::external_body]
pub(crate) fn read_bytes(bytes: &[u8]) -> (r: Result<Json, String>)
    ensures
        match r {
            Ok(j) => json_read_bytes(bytes@) == Ok::<JsonView, Seq<char>>(j@),
            Err(e) => json_read_bytes(bytes@) == Err::<JsonView, Seq<char>>(e@),
        },
{
    match serde_json::from_slice::<serde_json::Value>(bytes) {
        Ok(v) => Ok(from_serde(v)),
        Err(e) => Err(e.to_string()),
    }
}

impl Json {
    /// Reads a JSON text.
    pub fn parse(text: &str) -> (r: Result<Json, String>)
        ensures
            match r {
                Ok(j) => json_read(text@) == Ok::<JsonView, Seq<char>>(j@),
                Err(e) => json_read(text@) == Err::<JsonView, Seq<char>>(e@),
            },
    {
        read(text)
    }
}

/// The member of an object is found under its name, the first of equals; under another
/// name it is not found, and in anything but an object there is none.
pub proof fn law_members_are_found(m: Seq<(Seq<char>, JsonView)>, key: Seq<char>, v: JsonView, text: Seq<char>)
    ensures
        JsonView::Object(seq![(key, v)] + m).get(key) == Some(v),
        JsonView::Object(seq![(key, v)] + m).at(key) == v,
        forall|k: Seq<char>|
            k != key ==> #[trigger] JsonView::Object(seq![(key, v)] + m).get(k) == JsonView::Object(m).get(k),
        JsonView::Object(seq![(key, JsonView::Text(text))] + m).text_at(key) == Some(text),
        JsonView::Object(seq![]).get(key) is None,
        JsonView::Object(seq![]).at(key) is Null,
        JsonView::Text(text).get(key) is None && JsonView::Null.get(key) is None,
        JsonView::Text(text).as_text() == Some(text),
        JsonView::Null.as_text() is None,
{
    assert((seq![(key, v)] + m).skip(1) =~= m);
}

/// What a value is taken to say is what it holds, member by member.
pub proof fn law_said_of_json(b: bool, n: Option<u64>, s: String, l: Vec<Json>, m: Vec<(String, Json)>, i: int)
    ensures
        Json::Null@ == JsonView::Null,
        Json::Bool(b)@ == JsonView::Bool(b),
        Json::Number(n)@ == JsonView::Number(n),
        Json::Text(s)@ == JsonView::Text(s@),
        Json::List(l)@ is List && Json::List(l)@->List_0.len() == l@.len(),
        0 <= i < l@.len() ==> Json::List(l)@->List_0[i] == l@[i]@,
        Json::Object(m)@ is Object && Json::Object(m)@->Object_0.len() == m@.len(),
        0 <= i < m@.len() ==> Json::Object(m)@->Object_0[i] == (m@[i].0@, m@[i].1@),
{
}

/// A list of texts holds texts and nothing else.
pub proof fn law_lists_of_texts(l: Seq<JsonView>, t: Seq<char>)
    ensures
        JsonView::List(l).is_texts() ==> JsonView::List(l.push(JsonView::Text(t))).is_texts(),
        !JsonView::List(l.push(JsonView::Null)).is_texts(),
        !JsonView::Text(t).is_texts(),
{
    let a = l.push(JsonView::Text(t));
    if JsonView::List(l).is_texts() {
        assert forall|i: int| 0 <= i < a.len() implies (#[trigger] a[i]) is Text by {
            if i < l.len() {
                assert(l[i] is Text);
            }
        }
    }
    let b = l.push(JsonView::Null);
    assert(!(b[l.len() as int] is Text));
}

} // verus!
