//! The DevTools protocol as far as it is needed: calls carry a number, a reply
//! carries the number of its call, and everything else that has a method is an
//! event.

use std::collections::HashSet;
use vstd::prelude::*;
use crate::json::{json_read, read, Json, JsonView};
use crate::text::{cat3, text_of};

verus! {

/// Something that happened in the browser.
pub struct CdpEvent {
    pub method: String,
    pub params: Json,
    pub session_id: Option<String>,
}

/// What an incoming message is.
pub enum Delivery {
    /// Nothing to act on.
    Ignored,
    /// The reply to the call of that number, or the words of its error.
    Reply(u64, Result<Json, String>),
    Event(CdpEvent),
}

/// What a delivery says.
#[verifier::ext_equal]
pub enum DeliveryView {
    Ignored,
    Reply(u64, Result<JsonView, Seq<char>>),
    Event { method: Seq<char>, params: JsonView, session_id: Option<Seq<char>> },
}

impl View for Delivery {
    type V = DeliveryView;

    open spec fn view(&self) -> DeliveryView {
        match self {
            Delivery::Ignored => DeliveryView::Ignored,
            Delivery::Reply(id, r) => DeliveryView::Reply(
                *id,
                match r {
                    Ok(j) => Ok(j@),
                    Err(e) => Err(e@),
                },
            ),
            Delivery::Event(e) => DeliveryView::Event {
                method: e.method@,
                params: e.params@,
                session_id: text_of(e.session_id),
            },
        }
    }
}

/// The number of the call that a message answers.
pub open spec fn call_number(msg: JsonView) -> Option<u64> {
    match msg.at("id"@) {
        JsonView::Number(n) => n,
        _ => None,
    }
}

/// What a reply answers: its result, or the message of its error.
pub open spec fn answer(msg: JsonView) -> Result<JsonView, Seq<char>> {
    match msg.get("error"@) {
        Some(e) => Err(
            match e.text_at("message"@) {
                Some(m) => m,
                None => "未知錯誤"@,
            },
        ),
        None => Ok(msg.at("result"@)),
    }
}

/// What a message is to a client that waits for the given calls.
pub open spec fn delivered(msg: JsonView, waiting: Set<u64>) -> DeliveryView {
    match call_number(msg) {
        Some(id) => if waiting.contains(id) {
            DeliveryView::Reply(id, answer(msg))
        } else {
            DeliveryView::Ignored
        },
        None => match msg.text_at("method"@) {
            Some(m) => DeliveryView::Event {
                method: m,
                params: msg.at("params"@),
                session_id: msg.text_at("sessionId"@),
            },
            None => DeliveryView::Ignored,
        },
    }
}

/// The same for a message as it arrives; what is no JSON is ignored.
pub open spec fn received(text: Seq<char>, waiting: Set<u64>) -> DeliveryView {
    match json_read(text) {
        Ok(msg) => delivered(msg, waiting),
        Err(_) => DeliveryView::Ignored,
    }
}

/// The calls still waiting after something was delivered.
pub open spec fn waiting_after(waiting: Set<u64>, d: DeliveryView) -> Set<u64> {
    match d {
        DeliveryView::Reply(id, _) => waiting.remove(id),
        _ => waiting,
    }
}

/// The books of one connection: the calls that wait for a reply and the number
/// of the next call.
pub struct Cdp {
    pending: HashSet<u64>,
    next_id: u64,
}

impl Cdp {
    pub closed spec fn waiting(&self) -> Set<u64> {
        self.pending@
    }

    pub closed spec fn next(&self) -> u64 {
        self.next_id
    }

    /// Every waiting call has a number below the next one.
    pub open spec fn wf(&self) -> bool {
        forall|id: u64| #[trigger] self.waiting().contains(id) ==> id < self.next()
    }

    pub fn new() -> (r: Cdp)
        ensures
            r.wf(),
            r.waiting() == Set::<u64>::empty(),
            r.next() == 1,
    {
        broadcast use vstd::std_specs::hash::group_hash_axioms;

        Cdp { pending: HashSet::new(), next_id: 1 }
    }

    /// How many more calls can be numbered.
    pub fn room(&self) -> (r: u64)
        ensures
            r == u64::MAX - self.next(),
    {
        u64::MAX - self.next_id
    }

    /// Opens a call and gives it its number.
    pub fn call(&mut self) -> (id: u64)
        requires
            old(self).wf(),
            old(self).next() < u64::MAX,
        ensures
            final(self).wf(),
            id == old(self).next(),
            final(self).next() == id + 1,
            !old(self).waiting().contains(id),
            final(self).waiting() == old(self).waiting().insert(id),
    {
        broadcast use vstd::std_specs::hash::group_hash_axioms;

        let id: u64 = self.next_id;
        let _new = self.pending.insert(id);
        self.next_id = id + 1;
        proof {
            assert forall|n: u64| #[trigger] self.waiting().contains(n) implies n < self.next() by {
                assert(n == id || old(self).waiting().contains(n));
            }
        }
        id
    }

    /// Gives a call up, as one that could not be sent.
    pub fn cancel(&mut self, id: u64) -> (r: bool)
        requires
            old(self).wf(),
        ensures
            final(self).wf(),
            final(self).next() == old(self).next(),
            r == old(self).waiting().contains(id),
            final(self).waiting() == old(self).waiting().remove(id),
    {
        broadcast use vstd::std_specs::hash::group_hash_axioms;

        let waited = self.pending.remove(&id);
        proof {
            assert forall|n: u64| #[trigger] self.waiting().contains(n) implies n < self.next() by {
                assert(old(self).waiting().contains(n));
            }
        }
        waited
    }

    /// Takes a parsed message in.
    pub fn deliver(&mut self, msg: Json) -> (r: Delivery)
        requires
            old(self).wf(),
        ensures
            final(self).wf(),
            final(self).next() == old(self).next(),
            r@ == delivered(msg@, old(self).waiting()),
            final(self).waiting() == waiting_after(old(self).waiting(), r@),
    {
        let number: Option<u64> = match msg.get("id") {
            Some(Json::Number(n)) => *n,
            _ => None,
        };
        if let Some(id) = number {
            if !self.cancel(id) {
                return Delivery::Ignored;
            }
            if let Some(e) = msg.get("error") {
                let words = match e.text_at("message") {
                    Some(m) => m.to_owned(),
                    None => "未知錯誤".to_owned(),
                };
                return Delivery::Reply(id, Err(words));
            }
            return Delivery::Reply(id, Ok(msg.take("result")));
        }
        let method = match msg.text_at("method") {
            Some(m) => m.to_owned(),
            None => {
                return Delivery::Ignored;
            },
        };
        let session_id = match msg.text_at("sessionId") {
            Some(s) => Some(s.to_owned()),
            None => None,
        };
        Delivery::Event(CdpEvent { method, params: msg.take("params"), session_id })
    }

    /// Takes a message in as it arrives.
    pub fn receive(&mut self, text: &str) -> (r: Delivery)
        requires
            old(self).wf(),
        ensures
            final(self).wf(),
            final(self).next() == old(self).next(),
            r@ == received(text@, old(self).waiting()),
            final(self).waiting() == waiting_after(old(self).waiting(), r@),
    {
        match read(text) {
            Ok(msg) => self.deliver(msg),
            Err(_) => Delivery::Ignored,
        }
    }

    /// Closes the books: every call that still waits is handed back once, in
    /// whatever order, so that it can be told the connection is gone.
    pub fn close(&mut self) -> (r: Vec<u64>)
        requires
            old(self).wf(),
        ensures
            final(self).wf(),
            r@.to_set() == old(self).waiting(),
            r@.no_duplicates(),
            final(self).waiting() == Set::<u64>::empty(),
            final(self).next() == old(self).next(),
    {
        broadcast use vstd::std_specs::hash::group_hash_axioms;

        let ghost all = vstd::std_specs::iter::IteratorSpec::remaining(&self.pending.iter()).unref();
        let mut gone: Vec<u64> = Vec::new();
        for id in it: self.pending.iter()
            invariant
                it.seq().unref() == all,
                gone@ == all.take(it.index() as int),
                *self == *old(self),
        {
            gone.push(*id);
        }
        self.pending.clear();
        proof {
            assert(all.take(all.len() as int) =~= all);
        }
        gone
    }
}

/// The words of a failed call: the method and what went wrong.
pub fn call_error(method: &str, error: &str) -> (r: String)
    ensures
        r@ == method@ + "："@ + error@,
{
    cat3(method, "：", error)
}

/// A call that waits is answered by exactly one reply: once it is answered, the
/// same message answers nothing.
pub proof fn law_one_reply_per_call(msg: JsonView, waiting: Set<u64>)
    requires
        delivered(msg, waiting) is Reply,
    ensures
        delivered(msg, waiting_after(waiting, delivered(msg, waiting))) is Ignored,
{
}

/// A message with the number of a waiting call is its reply: the result, or the words
/// of the error. With another number it is nothing.
pub proof fn law_replies_reach_their_call(msg: JsonView, n: u64, waiting: Set<u64>)
    requires
        msg.at("id"@) == JsonView::Number(Some(n)),
    ensures
        waiting.contains(n) && msg.get("error"@) is None ==> delivered(msg, waiting)
            == DeliveryView::Reply(n, Ok(msg.at("result"@))),
        waiting.contains(n) && msg.get("error"@) is Some && (msg.get("error"@)->0).text_at("message"@)
            is Some ==> delivered(msg, waiting) == DeliveryView::Reply(
            n,
            Err((msg.get("error"@)->0).text_at("message"@)->0),
        ),
        !waiting.contains(n) ==> delivered(msg, waiting) is Ignored,
        waiting_after(waiting, DeliveryView::Reply(n, Ok(msg))) == waiting.remove(n),
{
}

/// A message without a number is the event that its method names, with its parameters
/// and its session; without a method it is nothing. Events leave every call waiting.
pub proof fn law_events_are_told(msg: JsonView, method: Seq<char>, waiting: Set<u64>)
    requires
        msg.get("id"@) is None,
    ensures
        msg.text_at("method"@) == Some(method) ==> delivered(msg, waiting) == (DeliveryView::Event {
            method,
            params: msg.at("params"@),
            session_id: msg.text_at("sessionId"@),
        }),
        msg.text_at("method"@) is None ==> delivered(msg, waiting) is Ignored,
        waiting_after(waiting, delivered(msg, waiting)) == waiting,
{
}

/// A message is read as JSON, and what is none is nothing.
pub proof fn law_messages_are_read(text: Seq<char>, waiting: Set<u64>)
    ensures
        json_read(text) is Err ==> received(text, waiting) is Ignored,
        json_read(text) matches Ok(msg) ==> received(text, waiting) == delivered(msg, waiting),
{
}

/// An error without words of its own is an unknown one.
pub proof fn law_nameless_errors_are_told(msg: JsonView, e: JsonView)
    requires
        msg.get("error"@) == Some(e),
        e.text_at("message"@) is None,
    ensures
        answer(msg) == Err::<JsonView, Seq<char>>("未知錯誤"@),
{
}

/// What a delivery is taken to say is what it holds.
pub proof fn law_said_of_delivery(x: Delivery)
    ensures
        match x {
            Delivery::Ignored => x@ == (DeliveryView::Ignored),
            Delivery::Reply(id, r) => x@ == (DeliveryView::Reply( id, match r { Ok(j) => Ok(j@), Err(e) => Err(e@), }, )),
            Delivery::Event(e) => x@ == (DeliveryView::Event { method: e.method@, params: e.params@, session_id: text_of(e.session_id), }),
        },
{
}

} // verus!
