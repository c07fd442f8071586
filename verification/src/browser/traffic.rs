//! The browser's network events: the headers of a request, and the media that a
//! response may be.

use vstd::prelude::*;
use crate::browser::cdp::CdpEvent;
use crate::browser::sniff::{
    ad_host, classify, is_ad_host, keep_headers, kept, kind_of, Candidate, CandidateView,
};
use crate::direct::{authority, authority_of};
use crate::json::{Json, JsonView};
use crate::number::{decimal, law_decimal_reads_back, lemma_decimal, parse, parsed};
use crate::text::{
    after, before, behind, copy_text, digit, lemma_after_last_is, lower, pairs, same, text_of,
    to_lower, up_to, Class,
};

verus! {

/// The members of an object as headers; what is no text has an empty value.
pub open spec fn header_pairs(v: JsonView) -> Seq<(Seq<char>, Seq<char>)> {
    match v {
        JsonView::Object(m) => m.map_values(
            |p: (Seq<char>, JsonView)|
                (
                    p.0,
                    match p.1 {
                        JsonView::Text(t) => t,
                        _ => ""@,
                    },
                ),
        ),
        _ => seq![],
    }
}

/// The headers in an object of an event.
pub fn headers_of(v: &Json) -> (r: Vec<(String, String)>)
    ensures
        pairs(r@) == header_pairs(v@),
{
    let mut out: Vec<(String, String)> = Vec::new();
    let members = match v {
        Json::Object(m) => m,
        _ => {
            proof {
                assert(pairs(out@) =~= seq![]);
            }
            return out;
        },
    };
    let ghost all = header_pairs(v@);
    let mut i: usize = 0;
    while i < members.len()
        invariant
            v@ is Object,
            v@->Object_0.len() == members@.len(),
            forall|j: int|
                0 <= j < members@.len() ==> (#[trigger] v@->Object_0[j]) == (
                    members@[j].0@,
                    members@[j].1@,
                ),
            all == header_pairs(v@),
            i <= members@.len(),
            pairs(out@) == all.take(i as int),
        decreases members@.len() - i,
    {
        let ghost done = pairs(out@);
        let value = match members[i].1.as_str() {
            Some(t) => t,
            None => "",
        };
        proof {
            assert(v@->Object_0[i as int] == (members@[i as int].0@, members@[i as int].1@));
            assert(all[i as int] == (members@[i as int].0@, value@));
            assert(all.take(i + 1) =~= all.take(i as int).push(all[i as int]));
        }
        out.push((members[i].0.as_str().to_owned(), value.to_owned()));
        proof {
            assert(pairs(out@) =~= done.push(all[i as int]));
        }
        i += 1;
    }
    proof {
        assert(all.take(i as int) =~= all);
    }
    out
}

/// The headers in the member of that name; none where it is missing.
fn headers_at(v: &Json, key: &str) -> (r: Vec<(String, String)>)
    ensures
        pairs(r@) == header_pairs(v@.at(key@)),
{
    match v.get(key) {
        Some(h) => headers_of(h),
        None => {
            let out: Vec<(String, String)> = Vec::new();
            proof {
                assert(pairs(out@) =~= seq![]);
            }
            out
        },
    }
}

/// Whether a header of that name is there, whatever the case of its name.
pub open spec fn names(headers: Seq<(Seq<char>, Seq<char>)>, name: Seq<char>) -> bool {
    exists|i: int| 0 <= i < headers.len() && lower((#[trigger] headers[i]).0) == lower(name)
}

/// The headers of which `extra` does not name another value, in their order.
pub open spec fn not_named(
    headers: Seq<(Seq<char>, Seq<char>)>,
    extra: Seq<(Seq<char>, Seq<char>)>,
) -> Seq<(Seq<char>, Seq<char>)>
    decreases headers.len(),
{
    if headers.len() == 0 {
        seq![]
    } else if names(extra, headers.last().0) {
        not_named(headers.drop_last(), extra)
    } else {
        not_named(headers.drop_last(), extra).push(headers.last())
    }
}

pub(crate) fn is_named(headers: &Vec<(String, String)>, name: &str) -> (r: bool)
    ensures
        r == names(pairs(headers@), name@),
{
    let wanted = to_lower(name);
    let mut i: usize = 0;
    while i < headers.len()
        invariant
            wanted@ == lower(name@),
            i <= headers@.len(),
            forall|j: int| 0 <= j < i ==> lower((#[trigger] pairs(headers@)[j]).0) != lower(name@),
        decreases headers@.len() - i,
    {
        if same(to_lower(headers[i].0.as_str()).as_str(), wanted.as_str()) {
            proof {
                assert(lower(pairs(headers@)[i as int].0) == lower(name@));
            }
            return true;
        }
        i += 1;
    }
    false
}

/// Puts copies of headers behind others.
pub(crate) fn append_headers(out: &mut Vec<(String, String)>, extra: &Vec<(String, String)>)
    ensures
        pairs(final(out)@) == pairs(old(out)@) + pairs(extra@),
{
    let ghost front = pairs(out@);
    let ghost x = pairs(extra@);
    let mut i: usize = 0;
    proof {
        assert(pairs(out@) =~= front + x.take(0));
    }
    while i < extra.len()
        invariant
            x == pairs(extra@),
            i <= extra@.len(),
            pairs(out@) == front + x.take(i as int),
        decreases extra@.len() - i,
    {
        let ghost done = pairs(out@);
        out.push((extra[i].0.as_str().to_owned(), extra[i].1.as_str().to_owned()));
        proof {
            assert(x[i as int] == (extra@[i as int].0@, extra@[i as int].1@));
            assert(pairs(out@) =~= done.push(x[i as int]));
            assert(x.take(i + 1) =~= x.take(i as int).push(x[i as int]));
            assert(pairs(out@) =~= front + x.take(i + 1));
        }
        i += 1;
    }
    proof {
        assert(x.take(i as int) =~= x);
    }
}

/// The headers of a request after a fuller account of them: what that says
/// counts, and the rest stays.
pub fn merge_headers(known: &Vec<(String, String)>, extra: &Vec<(String, String)>) -> (r: Vec<
    (String, String),
>)
    ensures
        pairs(r@) == not_named(pairs(known@), pairs(extra@)) + pairs(extra@),
{
    let ghost k = pairs(known@);
    let ghost x = pairs(extra@);
    let mut out: Vec<(String, String)> = Vec::new();
    let mut i: usize = 0;
    proof {
        assert(pairs(out@) =~= not_named(k.take(0), x));
    }
    while i < known.len()
        invariant
            k == pairs(known@),
            x == pairs(extra@),
            i <= known@.len(),
            pairs(out@) == not_named(k.take(i as int), x),
        decreases known@.len() - i,
    {
        let ghost done = pairs(out@);
        proof {
            assert(k.take(i + 1).drop_last() =~= k.take(i as int));
            assert(k.take(i + 1).last() == (known@[i as int].0@, known@[i as int].1@));
        }
        if !is_named(extra, known[i].0.as_str()) {
            out.push((known[i].0.as_str().to_owned(), known[i].1.as_str().to_owned()));
            proof {
                assert(pairs(out@) =~= done.push((known@[i as int].0@, known@[i as int].1@)));
            }
        }
        i += 1;
    }
    proof {
        assert(k.take(i as int) =~= k);
    }
    append_headers(&mut out, extra);
    out
}

/// The value of the first header of that name, whatever the case of its name.
pub open spec fn value_of(headers: Seq<(Seq<char>, Seq<char>)>, name: Seq<char>) -> Option<Seq<char>>
    decreases headers.len(),
{
    if headers.len() == 0 {
        None
    } else if lower(headers[0].0) == lower(name) {
        Some(headers[0].1)
    } else {
        value_of(headers.skip(1), name)
    }
}

fn find_value(headers: &Vec<(String, String)>, name: &str) -> (r: Option<String>)
    ensures
        crate::text::text_of(r) == value_of(pairs(headers@), name@),
{
    let wanted = to_lower(name);
    let ghost h = pairs(headers@);
    let mut i: usize = 0;
    proof {
        assert(h.skip(0) =~= h);
    }
    while i < headers.len()
        invariant
            wanted@ == lower(name@),
            h == pairs(headers@),
            i <= headers@.len(),
            value_of(h.skip(i as int), name@) == value_of(h, name@),
        decreases headers@.len() - i,
    {
        proof {
            assert(h.skip(i as int)[0] == (headers@[i as int].0@, headers@[i as int].1@));
            assert(h.skip(i as int).skip(1) =~= h.skip(i + 1));
        }
        if same(to_lower(headers[i].0.as_str()).as_str(), wanted.as_str()) {
            return Some(headers[i].1.as_str().to_owned());
        }
        i += 1;
    }
    None
}

/// The size of the whole file by the headers of a response: the total of a
/// range, else the length.
pub open spec fn whole_size(headers: Seq<(Seq<char>, Seq<char>)>) -> Option<nat> {
    let ranged = match value_of(headers, "content-range"@) {
        Some(v) => parsed(behind(v, Class::Is('/')), u64::MAX as nat),
        None => None,
    };
    match ranged {
        Some(n) => Some(n),
        None => match value_of(headers, "content-length"@) {
            Some(v) => parsed(v, u64::MAX as nat),
            None => None,
        },
    }
}

fn find_size(headers: &Vec<(String, String)>) -> (r: Option<u64>)
    ensures
        match r {
            Some(n) => whole_size(pairs(headers@)) == Some(n as nat),
            None => whole_size(pairs(headers@)) is None,
        },
{
    if let Some(v) = find_value(headers, "content-range") {
        if let Some(n) = parse(after(v.as_str(), Class::Is('/')), u64::MAX) {
            return Some(n);
        }
    }
    match find_value(headers, "content-length") {
        Some(v) => parse(v.as_str(), u64::MAX),
        None => None,
    }
}

/// Whether a response carries content, in whole or in part.
pub open spec fn carries(status: JsonView) -> bool {
    status == JsonView::Number(Some(200)) || status == JsonView::Number(Some(206))
}

/// The browser's opinion on what a response is: its own, else that on the
/// request.
pub open spec fn opinion(params: JsonView, asked: Option<Seq<char>>) -> Seq<char> {
    match params.text_at("type"@) {
        Some(t) => t,
        None => match asked {
            Some(t) => t,
            None => seq![],
        },
    }
}

/// The media that a response may be, given the headers of its request and the
/// browser's opinion on that.
pub open spec fn media_in(
    params: JsonView,
    headers: Seq<(Seq<char>, Seq<char>)>,
    asked: Option<Seq<char>>,
) -> Option<CandidateView> {
    let r = params.at("response"@);
    match (carries(r.at("status"@)), r.text_at("url"@)) {
        (true, Some(url)) => match authority(url) {
            Some(a) => {
                let mime = match r.text_at("mimeType"@) {
                    Some(m) => m,
                    None => seq![],
                };
                match (ad_host(up_to(a, Class::Is(':'))), kind_of(url, mime, opinion(params, asked))) {
                    (false, Some(kind)) => Some(
                        CandidateView {
                            url,
                            kind,
                            size: match whole_size(header_pairs(r.at("headers"@))) {
                                Some(n) => Some(n as u64),
                                None => None,
                            },
                            mime,
                            headers: kept(headers),
                        },
                    ),
                    _ => None,
                }
            },
            None => None,
        },
        _ => None,
    }
}

/// The media that a response may be. `params` are those of the event that it was
/// received.
pub fn candidate_of(params: &Json, headers: &Vec<(String, String)>, asked: Option<&str>) -> (r: Option<
    Candidate,
>)
    ensures
        match r {
            Some(c) => media_in(params@, pairs(headers@), crate::text::str_of(asked)) == Some(c@),
            None => media_in(params@, pairs(headers@), crate::text::str_of(asked)) is None,
        },
{
    let response = match params.get("response") {
        Some(r) => r,
        None => {
            return None;
        },
    };
    let carried = match response.get("status") {
        Some(Json::Number(Some(n))) => *n == 200 || *n == 206,
        _ => false,
    };
    if !carried {
        return None;
    }
    let url = match response.text_at("url") {
        Some(u) => u,
        None => {
            return None;
        },
    };
    let host = match authority_of(url) {
        Some(a) => before(a, Class::Is(':')),
        None => {
            return None;
        },
    };
    if is_ad_host(host) {
        return None;
    }
    let mime = match response.text_at("mimeType") {
        Some(m) => m.to_owned(),
        None => String::new(),
    };
    let kind_text = match params.text_at("type") {
        Some(t) => t.to_owned(),
        None => match asked {
            Some(t) => t.to_owned(),
            None => String::new(),
        },
    };
    let kind = match classify(url, mime.as_str(), kind_text.as_str()) {
        Some(k) => k,
        None => {
            return None;
        },
    };
    let size = find_size(&headers_at(response, "headers"));
    let c = Candidate {
        url: url.to_owned(),
        kind,
        size,
        mime,
        headers: keep_headers(headers.as_slice()),
    };
    proof {
        assert(c@ =~= media_in(params@, pairs(headers@), crate::text::str_of(asked))->0);
    }
    Some(c)
}

/// What is known of a request: its headers, and the browser's opinion on it.
#[verifier::ext_equal]
pub struct RequestView {
    pub headers: Seq<(Seq<char>, Seq<char>)>,
    pub kind: Option<Seq<char>>,
}

/// What is known of a request after an event that speaks of it. The two events
/// that carry headers come in either order.
pub open spec fn heard(known: RequestView, method: Seq<char>, params: JsonView) -> RequestView {
    if method == "Network.requestWillBeSent"@ {
        RequestView {
            headers: known.headers + header_pairs(params.at("request"@).at("headers"@)),
            kind: match params.text_at("type"@) {
                Some(t) => Some(t),
                None => known.kind,
            },
        }
    } else if method == "Network.requestWillBeSentExtraInfo"@ {
        let extra = header_pairs(params.at("headers"@));
        RequestView { headers: not_named(known.headers, extra) + extra, kind: known.kind }
    } else {
        known
    }
}

/// The media that an event tells of, given what is known of its request.
pub open spec fn told(known: RequestView, method: Seq<char>, params: JsonView) -> Option<CandidateView> {
    if method == "Network.responseReceived"@ {
        media_in(params, known.headers, known.kind)
    } else {
        None
    }
}

struct Request {
    id: String,
    headers: Vec<(String, String)>,
    kind: Option<String>,
}

impl Request {
    spec fn known(&self) -> RequestView {
        RequestView { headers: pairs(self.headers@), kind: text_of(self.kind) }
    }
}

/// The requests of a page by their numbers.
pub struct Requests {
    list: Vec<Request>,
}

impl Requests {
    /// No number stands twice.
    pub closed spec fn wf(&self) -> bool {
        forall|i: int, j: int|
            0 <= i < j < self.list@.len() ==> (#[trigger] self.list@[i]).id@ != (
            #[trigger] self.list@[j]).id@
    }

    spec fn is_at(&self, id: Seq<char>, i: int) -> bool {
        0 <= i < self.list@.len() && self.list@[i].id@ == id
    }

    /// What is known of the request of that number; nothing at first.
    pub closed spec fn of(&self, id: Seq<char>) -> RequestView {
        if exists|i: int| self.is_at(id, i) {
            self.list@[choose|i: int| self.is_at(id, i)].known()
        } else {
            RequestView { headers: seq![], kind: None }
        }
    }

    pub fn new() -> (r: Requests)
        ensures
            r.wf(),
            forall|id: Seq<char>| #[trigger]
                r.of(id) == (RequestView { headers: seq![], kind: None }),
    {
        Requests { list: Vec::new() }
    }

    fn find(&self, id: &str) -> (r: usize)
        requires
            self.wf(),
        ensures
            r <= self.list@.len(),
            r < self.list@.len() ==> self.is_at(id@, r as int) && self.of(id@)
                == self.list@[r as int].known(),
            r == self.list@.len() ==> forall|i: int| !self.is_at(id@, i),
    {
        let mut i: usize = 0;
        while i < self.list.len()
            invariant
                self.wf(),
                i <= self.list@.len(),
                forall|j: int| 0 <= j < i ==> !self.is_at(id@, j),
            decreases self.list@.len() - i,
        {
            if same(self.list[i].id.as_str(), id) {
                proof {
                    assert(self.is_at(id@, i as int));
                    let k = choose|k: int| self.is_at(id@, k);
                    if k < i {
                        assert(self.list@[k].id@ != self.list@[i as int].id@);
                    } else if k > i {
                        assert(self.list@[i as int].id@ != self.list@[k].id@);
                    }
                }
                return i;
            }
            proof {
                assert(!self.is_at(id@, i as int));
            }
            i += 1;
        }
        i
    }

    fn put(&mut self, request: Request)
        requires
            old(self).wf(),
        ensures
            final(self).wf(),
            final(self).of(request.id@) == request.known(),
            forall|id: Seq<char>|
                id != request.id@ ==> #[trigger] final(self).of(id) == old(self).of(id),
    {
        let ghost before = *self;
        let ghost now = request;
        let at = self.find(request.id.as_str());
        if at < self.list.len() {
            self.list.set(at, request);
        } else {
            self.list.push(request);
        }
        proof {
            assert(self.is_at(now.id@, at as int));
            let k = choose|k: int| self.is_at(now.id@, k);
            assert(k == at) by {
                if k != at {
                    assert(self.list@[k] == before.list@[k]);
                    assert(before.is_at(now.id@, k));
                    if at < before.list@.len() {
                        assert(before.list@[k].id@ != before.list@[at as int].id@);
                    }
                }
            }
            assert forall|i: int, j: int| 0 <= i < j < self.list@.len() implies (
            #[trigger] self.list@[i]).id@ != (#[trigger] self.list@[j]).id@ by {
                if i != at && j != at {
                    assert(before.list@[i].id@ != before.list@[j].id@);
                } else if i != at {
                    assert(!self.is_at(now.id@, i)) by {
                        if self.is_at(now.id@, i) {
                            assert(before.is_at(now.id@, i));
                            assert(before.list@[i].id@ != before.list@[at as int].id@);
                        }
                    }
                } else {
                    assert(before.list@[at as int].id@ != before.list@[j].id@);
                }
            }
            assert forall|id: Seq<char>| id != now.id@ implies #[trigger] self.of(id) == before.of(
                id,
            ) by {
                assert forall|i: int| self.is_at(id, i) == before.is_at(id, i) by {
                    if 0 <= i < before.list@.len() && i != at {
                        assert(self.list@[i] == before.list@[i]);
                    }
                }
                if exists|i: int| self.is_at(id, i) {
                    assert(before.is_at(id, choose|i: int| self.is_at(id, i)));
                }
                if exists|i: int| before.is_at(id, i) {
                    assert(self.is_at(id, choose|i: int| before.is_at(id, i)));
                }
                if exists|i: int| before.is_at(id, i) {
                    let i = choose|i: int| before.is_at(id, i);
                    let j = choose|j: int| self.is_at(id, j);
                    assert(self.is_at(id, i));
                    assert(self.is_at(id, j));
                    assert(before.is_at(id, j));
                    if i < j {
                        assert(before.list@[i].id@ != before.list@[j].id@);
                    } else if j < i {
                        assert(before.list@[j].id@ != before.list@[i].id@);
                    }
                    assert(self.list@[i] == before.list@[i]);
                }
            }
        }
    }

    fn copy_of(&self, id: &str) -> (r: Request)
        requires
            self.wf(),
        ensures
            r.id@ == id@,
            r.known() == self.of(id@),
    {
        let mut headers: Vec<(String, String)> = Vec::new();
        let at = self.find(id);
        proof {
            assert(pairs(headers@) =~= seq![]);
        }
        if at < self.list.len() {
            append_headers(&mut headers, &self.list[at].headers);
            let r = Request { id: id.to_owned(), headers, kind: copy_text(&self.list[at].kind) };
            proof {
                assert(r.known() =~= self.of(id@));
            }
            r
        } else {
            Request { id: id.to_owned(), headers, kind: None }
        }
    }

    /// Takes an event of the page in and gives the media that it tells of. An
    /// event that speaks of no request changes nothing, and one that speaks of a
    /// request changes nothing that is known of the others.
    pub fn see(&mut self, ev: &CdpEvent) -> (r: Option<Candidate>)
        requires
            old(self).wf(),
        ensures
            final(self).wf(),
            match ev.params@.text_at("requestId"@) {
                Some(id) => {
                    &&& final(self).of(id) == heard(old(self).of(id), ev.method@, ev.params@)
                    &&& forall|other: Seq<char>|
                        other != id ==> #[trigger] final(self).of(other) == old(self).of(other)
                    &&& match r {
                        Some(c) => told(old(self).of(id), ev.method@, ev.params@) == Some(c@),
                        None => told(old(self).of(id), ev.method@, ev.params@) is None,
                    }
                },
                None => r is None && forall|other: Seq<char>| #[trigger]
                    final(self).of(other) == old(self).of(other),
            },
    {
        let id = match ev.params.text_at("requestId") {
            Some(t) => t,
            None => {
                return None;
            },
        };
        let known = self.copy_of(id);
        let ghost k = known.known();
        proof {
            reveal_strlit("Network.requestWillBeSent");
            reveal_strlit("Network.requestWillBeSentExtraInfo");
            reveal_strlit("Network.responseReceived");
            assert("Network.responseReceived"@.len() == 24);
            assert("Network.requestWillBeSent"@.len() == 25);
            assert("Network.requestWillBeSentExtraInfo"@.len() == 34);
        }
        let method = ev.method.as_str();
        if same(method, "Network.requestWillBeSent") {
            let sent = match ev.params.get("request") {
                Some(request) => headers_at(request, "headers"),
                None => headers_at(&Json::Null, "headers"),
            };
            let mut headers = known.headers;
            append_headers(&mut headers, &sent);
            let kind = match ev.params.text_at("type") {
                Some(t) => Some(t.to_owned()),
                None => known.kind,
            };
            let now = Request { id: id.to_owned(), headers, kind };
            proof {
                assert(now.known() =~= heard(k, ev.method@, ev.params@));
            }
            self.put(now);
            None
        } else if same(method, "Network.requestWillBeSentExtraInfo") {
            let extra = headers_at(&ev.params, "headers");
            let now = Request {
                id: id.to_owned(),
                headers: merge_headers(&known.headers, &extra),
                kind: known.kind,
            };
            proof {
                assert(now.known() =~= heard(k, ev.method@, ev.params@));
            }
            self.put(now);
            None
        } else if same(method, "Network.responseReceived") {
            let asked = match &known.kind {
                Some(t) => Some(t.as_str()),
                None => None,
            };
            proof {
                assert(crate::text::str_of(asked) == k.kind);
            }
            candidate_of(&ev.params, &known.headers, asked)
        } else {
            None
        }
    }
}

/// After a fuller account of a request's headers, every header of that account is
/// known, and of the earlier ones those, and only those, that it does not name.
pub proof fn law_fuller_account_counts(
    known: RequestView,
    params: JsonView,
    h: (Seq<char>, Seq<char>),
)
    ensures
        ({
            let x = header_pairs(params.at("headers"@));
            let now = heard(known, "Network.requestWillBeSentExtraInfo"@, params);
            &&& now.kind == known.kind
            &&& x.contains(h) ==> now.headers.contains(h)
            &&& known.headers.contains(h) && !(exists|i: int|
                0 <= i < x.len() && lower((#[trigger] x[i]).0) == lower(h.0)) ==> now.headers.contains(h)
            &&& now.headers.contains(h) && !x.contains(h) ==> known.headers.contains(h) && forall|
                i: int,
            |
                0 <= i < x.len() ==> lower((#[trigger] x[i]).0) != lower(h.0)
        }),
{
    let x = header_pairs(params.at("headers"@));
    let now = heard(known, "Network.requestWillBeSentExtraInfo"@, params);
    let k = not_named(known.headers, x);
    reveal_strlit("Network.requestWillBeSent");
    reveal_strlit("Network.requestWillBeSentExtraInfo");
    assert("Network.requestWillBeSent"@.len() == 25);
    assert("Network.requestWillBeSentExtraInfo"@.len() == 34);
    lemma_not_named(known.headers, x, h);
    if x.contains(h) {
        let i = x.index_of(h);
        assert(now.headers[k.len() + i] == h);
    }
    if k.contains(h) {
        let i = k.index_of(h);
        assert(now.headers[i] == h);
    }
    if now.headers.contains(h) {
        let i = now.headers.index_of(h);
        if i < k.len() {
            assert(k[i] == h);
        } else {
            assert(x[i - k.len()] == h);
        }
    }
}

proof fn lemma_not_named(
    headers: Seq<(Seq<char>, Seq<char>)>,
    extra: Seq<(Seq<char>, Seq<char>)>,
    h: (Seq<char>, Seq<char>),
)
    ensures
        not_named(headers, extra).contains(h) <==> headers.contains(h) && !names(extra, h.0),
    decreases headers.len(),
{
    if headers.len() > 0 {
        let front = headers.drop_last();
        lemma_not_named(front, extra, h);
        let k = not_named(front, extra);
        assert(headers[headers.len() - 1] == headers.last());
        if headers.contains(h) {
            let i = headers.index_of(h);
            if i < front.len() {
                assert(front[i] == h);
            }
        }
        if front.contains(h) {
            let i = front.index_of(h);
            assert(headers[i] == h);
        }
        if !names(extra, headers.last().0) {
            let all = k.push(headers.last());
            assert(all[k.len() as int] == headers.last());
            if k.contains(h) {
                let i = k.index_of(h);
                assert(all[i] == h);
            }
            if all.contains(h) {
                let i = all.index_of(h);
                if i < k.len() {
                    assert(k[i] == h);
                }
            }
        }
    }
}

/// The event of a request that is sent adds its headers to what is known, and the
/// browser's opinion where it gives one.
pub proof fn law_sent_request_is_known(known: RequestView, params: JsonView)
    ensures
        ({
            let now = heard(known, "Network.requestWillBeSent"@, params);
            let x = header_pairs(params.at("request"@).at("headers"@));
            &&& now.headers == known.headers + x
            &&& params.text_at("type"@) matches Some(t) ==> now.kind == Some(t)
            &&& params.text_at("type"@) is None ==> now.kind == known.kind
        }),
        heard(known, "Network.responseReceived"@, params) == known,
{
    reveal_strlit("Network.requestWillBeSent");
    reveal_strlit("Network.requestWillBeSentExtraInfo");
    reveal_strlit("Network.responseReceived");
    assert("Network.requestWillBeSent"@.len() == 25);
    assert("Network.requestWillBeSentExtraInfo"@.len() == 34);
    assert("Network.responseReceived"@.len() == 24);
}

/// Only a response that carries content tells of media: it is told with the
/// address it came from, the kind that its type and address give it, the headers
/// of its own request, and never from an advertiser.
pub proof fn law_response_tells_of_itself(known: RequestView, params: JsonView, c: CandidateView)
    requires
        told(known, "Network.responseReceived"@, params) == Some(c),
    ensures
        ({
            let r = params.at("response"@);
            &&& r.get("status"@) == Some(JsonView::Number(Some(200))) || r.get("status"@) == Some(
                JsonView::Number(Some(206)),
            )
            &&& r.get("url"@) == Some(JsonView::Text(c.url))
            &&& r.text_at("mimeType"@) matches Some(m) ==> c.mime == m
            &&& params.text_at("type"@) matches Some(t) ==> Some(c.kind) == kind_of(c.url, c.mime, t)
            &&& c.headers == kept(known.headers)
        }),
{
}

/// Nothing but a response tells of media, and no failure does.
pub proof fn law_nothing_else_tells(known: RequestView, method: Seq<char>, params: JsonView)
    ensures
        method != "Network.responseReceived"@ ==> told(known, method, params) is None,
        params.at("response"@).get("status"@) == Some(JsonView::Number(Some(404))) ==> told(
            known,
            method,
            params,
        ) is None,
        params.at("response"@).text_at("url"@) is None ==> told(known, method, params) is None,
{
}

/// The size of a file is the total of its range, where it is given, and else its
/// length; a range whose total is not known leaves the length.
pub proof fn law_total_counts(
    headers: Seq<(Seq<char>, Seq<char>)>,
    range: Seq<char>,
    n: nat,
    m: nat,
)
    requires
        n <= u64::MAX,
        m <= u64::MAX,
        value_of(headers, "content-length"@) == Some(decimal(m)),
    ensures
        value_of(headers, "content-range"@) == Some(range + "/"@ + decimal(n)) ==> whole_size(headers)
            == Some(n),
        value_of(headers, "content-range"@) == Some(range + "/*"@) ==> whole_size(headers) == Some(m),
        value_of(headers, "content-range"@) is None ==> whole_size(headers) == Some(m),
{
    reveal_strlit("/");
    reveal_strlit("/*");
    law_decimal_reads_back(n, u64::MAX as nat);
    law_decimal_reads_back(m, u64::MAX as nat);
    lemma_decimal(n);
    let d = decimal(n);
    let s = range + "/"@ + d;
    let k = Class::Is('/');
    assert forall|j: int| range.len() + 1 <= j < s.len() implies k.has(#[trigger] s[j]) != true by {
        assert(s[j] == d[j - range.len() - 1]);
        assert(digit(d[j - range.len() - 1]));
    }
    lemma_after_last_is(s, k, true, range.len() as int + 1);
    assert(s.skip(range.len() as int + 1) =~= d);
    let t = range + "/*"@;
    lemma_after_last_is(t, k, true, range.len() as int + 1);
    assert(t.skip(range.len() as int + 1) =~= seq!['*']);
    assert(parsed(seq!['*'], u64::MAX as nat) is None) by {
        assert(!digit('*'));
        assert(seq!['*'][0] == '*');
    }
}

/// The value of a header is found whatever the case of its name.
pub proof fn law_case_of_names_does_not_count(
    headers: Seq<(Seq<char>, Seq<char>)>,
    a: Seq<char>,
    b: Seq<char>,
)
    requires
        lower(a) == lower(b),
    ensures
        value_of(headers, a) == value_of(headers, b),
        headers.len() > 0 && lower(headers[0].0) == lower(a) ==> value_of(headers, a) == Some(
            headers[0].1,
        ),
    decreases headers.len(),
{
    if headers.len() > 0 {
        law_case_of_names_does_not_count(headers.skip(1), a, b);
    }
}

/// Nothing comes of nothing.
pub proof fn law_no_headers_say_nothing(extra: Seq<(Seq<char>, Seq<char>)>, name: Seq<char>)
    ensures
        not_named(seq![], extra).len() == 0,
        value_of(seq![], name) is None,
{
}

} // verus!
