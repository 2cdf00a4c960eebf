//! Replies to HTTP requests, as plain values.

use vstd::prelude::*;

verus! {

/// The body of a reply.
#[derive(Debug)]
pub enum Body {
    Empty,
    Text(String),
    Bytes(Vec<u8>),
}

/// What a body says.
pub enum BodyView {
    Empty,
    Text(Seq<char>),
    Bytes(Seq<u8>),
}

impl View for Body {
    type V = BodyView;

    open spec fn view(&self) -> BodyView {
        match self {
            Body::Empty => BodyView::Empty,
            Body::Text(t) => BodyView::Text(t@),
            Body::Bytes(b) => BodyView::Bytes(b@),
        }
    }
}

/// A reply: a status code, the headers that the handler sets, and a body.
#[derive(Debug)]
pub struct Reply {
    pub status: u16,
    pub headers: Vec<(String, String)>,
    pub body: Body,
}

/// What a reply says.
#[verifier::ext_equal]
pub struct ReplyView {
    pub status: u16,
    pub headers: Seq<(Seq<char>, Seq<char>)>,
    pub body: BodyView,
}

/// The names and values of headers.
pub open spec fn header_views(h: Seq<(String, String)>) -> Seq<(Seq<char>, Seq<char>)> {
    h.map_values(|p: (String, String)| (p.0@, p.1@))
}

impl View for Reply {
    type V = ReplyView;

    open spec fn view(&self) -> ReplyView {
        ReplyView { status: self.status, headers: header_views(self.headers@), body: self.body@ }
    }
}

/// A reply with a short text and no header of its own.
pub open spec fn text_reply(status: u16, text: Seq<char>) -> ReplyView {
    ReplyView { status, headers: seq![], body: BodyView::Text(text) }
}

/// A reply with nothing but its status.
pub open spec fn bare_reply(status: u16) -> ReplyView {
    ReplyView { status, headers: seq![], body: BodyView::Empty }
}

impl Reply {
    /// A reply with a short text.
    pub fn text(status: u16, text: &str) -> (r: Reply)
        ensures
            r@ == text_reply(status, text@),
    {
        let r = Reply { status, headers: Vec::new(), body: Body::Text(text.to_string()) };
        assert(r@.headers =~= seq![]);
        r
    }

    /// A reply with nothing but its status.
    pub fn bare(status: u16) -> (r: Reply)
        ensures
            r@ == bare_reply(status),
    {
        let r = Reply { status, headers: Vec::new(), body: Body::Empty };
        assert(r@.headers =~= seq![]);
        r
    }

    /// Adds a header after the others.
    pub fn add_header(&mut self, name: &str, value: &str)
        ensures
            final(self)@ == (ReplyView { headers: old(self)@.headers.push((name@, value@)), ..old(self)@ }),
    {
        self.headers.push((name.to_string(), value.to_string()));
        assert(self@.headers =~= old(self)@.headers.push((name@, value@)));
    }
}

/// A reply has the status and the text that it is made with, and nothing else.
pub proof fn law_replies(status: u16, text: Seq<char>)
    ensures
        text_reply(status, text).status == status,
        text_reply(status, text).headers.len() == 0,
        text_reply(status, text).body == BodyView::Text(text),
        bare_reply(status).status == status,
        bare_reply(status).headers.len() == 0,
        bare_reply(status).body is Empty,
{
}

/// What a reply says is what it has: its status, its headers in order, and its body.
pub proof fn law_reply_view(r: Reply, i: int)
    ensures
        r@.status == r.status,
        r@.headers.len() == r.headers@.len(),
        0 <= i < r.headers@.len() ==> r@.headers[i] == (r.headers@[i].0@, r.headers@[i].1@),
        match r.body {
            Body::Empty => r@.body is Empty,
            Body::Text(t) => r@.body == BodyView::Text(t@),
            Body::Bytes(b) => r@.body == BodyView::Bytes(b@),
        },
{
}

} // verus!
