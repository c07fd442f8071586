//! Addresses on the web.

use vstd::prelude::*;
use crate::text::{text_of, texts};

verus! {

/// An address, and its parts as far as they are read here.
#[derive(Debug)]
pub struct Address {
    pub text: String,
    pub scheme: String,
    pub host: Option<String>,
    /// The parts of the path, where it has parts.
    pub segments: Option<Vec<String>>,
}

/// What an address says.
#[verifier::ext_equal]
pub struct AddressView {
    pub text: Seq<char>,
    pub scheme: Seq<char>,
    pub host: Option<Seq<char>>,
    pub segments: Option<Seq<Seq<char>>>,
}

impl View for Address {
    type V = AddressView;

    open spec fn view(&self) -> AddressView {
        AddressView {
            text: self.text@,
            scheme: self.scheme@,
            host: text_of(self.host),
            segments: match self.segments {
                Some(v) => Some(texts(v@)),
                None => None,
            },
        }
    }
}

/// What a text is as an address, or the words why it is none.
pub uninterp spec fn url_read(text: Seq<char>) -> Result<AddressView, Seq<char>>;

/// Calls `Url::parse` and hands over the serialised URL with its scheme, host
/// and path segments, or the error as text. All of that depends on the text
/// alone and goes by the name `url_read`.
#[verifier::external_body]
fn read(text: &str) -> (r: Result<Address, String>)
    ensures
        match r {
            Ok(a) => url_read(text@) == Ok::<AddressView, Seq<char>>(a@),
            Err(e) => url_read(text@) == Err::<AddressView, Seq<char>>(e@),
        },
{
    let u = reqwest::Url::parse(text).map_err(|e| e.to_string())?;
    Ok(
        Address {
            text: u.to_string(),
            scheme: u.scheme().to_string(),
            host: u.host_str().map(|h| h.to_string()),
            segments: u.path_segments().map(|s| s.map(|p| p.to_string()).collect()),
        },
    )
}

/// Where a reference leads from a page, if it leads anywhere.
pub uninterp spec fn url_joined(base: Seq<char>, reference: Seq<char>) -> Option<AddressView>;

/// Calls `Url::join` on the URL that `base` spells and hands over the result as
/// `read` does. Where the base is no URL, or the reference leads nowhere, there
/// is none. All of that depends on the two texts alone and goes by the name
/// `url_joined`.
#[verifier::external_body]
pub(crate) fn join(base: &str, reference: &str) -> (r: Option<Address>)
    ensures
        match r {
            Some(a) => url_joined(base@, reference@) == Some(a@),
            None => url_joined(base@, reference@) is None,
        },
{
    let u = reqwest::Url::parse(base).ok()?.join(reference).ok()?;
    Some(
        Address {
            text: u.to_string(),
            scheme: u.scheme().to_string(),
            host: u.host_str().map(|h| h.to_string()),
            segments: u.path_segments().map(|s| s.map(|p| p.to_string()).collect()),
        },
    )
}

impl Address {
    /// Reads an address.
    pub fn parse(text: &str) -> (r: Result<Address, String>)
        ensures
            match r {
                Ok(a) => url_read(text@) == Ok::<AddressView, Seq<char>>(a@),
                Err(e) => url_read(text@) == Err::<AddressView, Seq<char>>(e@),
            },
    {
        read(text)
    }
}

/// What an address is taken to say is what it holds.
pub proof fn law_said_of_address(x: Address)
    ensures
        x@.text == x.text@,
        x@.scheme == x.scheme@,
        x@.host == text_of(x.host),
        x@.segments == (match x.segments { Some(v) => Some(texts(v@)), None => None, }),
{
}

} // verus!
