//! The JSON messages of the signal channel and of signaling.

use vstd::prelude::*;

use crate::json::{
    echoes, json_member, json_object, json_object_text, json_text_member, member_views, says,
    value_member, JsonField, JsonFieldView,
};

verus! {

/// The members of the message that greets a client on its signal channel.
pub open spec fn hello_members(ipv6: bool) -> Seq<(Seq<char>, JsonFieldView)> {
    seq![
        ("type"@, JsonFieldView::Text("hello"@)),
        ("server"@, JsonFieldView::Text("tor-js-gateway"@)),
        ("ipv6"@, JsonFieldView::Flag(ipv6)),
    ]
}

/// The members of the message that refuses a channel.
pub open spec fn rejected_members(label: Seq<char>, sctp_id: u16, reason: Seq<char>) -> Seq<
    (Seq<char>, JsonFieldView),
> {
    seq![
        ("type"@, JsonFieldView::Text("rejected"@)),
        ("channel"@, JsonFieldView::Text(label)),
        ("sctp_id"@, JsonFieldView::Number(sctp_id as u64)),
        ("reason"@, JsonFieldView::Text(reason)),
    ]
}

/// The members of the message that reports the end of a channel.
pub open spec fn closed_members(label: Seq<char>, sctp_id: u16) -> Seq<(Seq<char>, JsonFieldView)> {
    seq![
        ("type"@, JsonFieldView::Text("closed"@)),
        ("channel"@, JsonFieldView::Text(label)),
        ("sctp_id"@, JsonFieldView::Number(sctp_id as u64)),
    ]
}

/// The members of the answer to the ping `text`: its time stamp comes back.
pub open spec fn pong_members(text: Seq<char>) -> Seq<(Seq<char>, JsonFieldView)> {
    seq![
        ("type"@, JsonFieldView::Text("pong"@)),
        ("ts"@, JsonFieldView::Value(json_member(text, "ts"@))),
    ]
}

/// The members of the answer to an offer.
pub open spec fn answer_members(sdp: Seq<char>) -> Seq<(Seq<char>, JsonFieldView)> {
    seq![("type"@, JsonFieldView::Text("answer"@)), ("sdp"@, JsonFieldView::Text(sdp))]
}

/// The keys of the messages differ.
proof fn lemma_keys_differ()
    ensures
        "type"@ != "server"@,
        "type"@ != "ipv6"@,
        "server"@ != "ipv6"@,
        "type"@ != "channel"@,
        "type"@ != "sctp_id"@,
        "type"@ != "reason"@,
        "channel"@ != "sctp_id"@,
        "channel"@ != "reason"@,
        "sctp_id"@ != "reason"@,
        "type"@ != "ts"@,
{
    reveal_strlit("type");
    reveal_strlit("server");
    reveal_strlit("ipv6");
    reveal_strlit("channel");
    reveal_strlit("sctp_id");
    reveal_strlit("reason");
    reveal_strlit("ts");
    assert("type"@[0] != "ipv6"@[0]);
    assert("channel"@[0] != "sctp_id"@[0]);
    assert("channel"@.len() != "reason"@.len());
    assert("type"@.len() != "ts"@.len());
}

/// Writes the message that greets a client on its signal channel.
pub fn hello_message(ipv6: bool) -> (r: String)
    ensures
        r@ == json_object_text(hello_members(ipv6)),
        json_text_member(r@, "type"@) == Some("hello"@),
        json_text_member(r@, "server"@) == Some("tor-js-gateway"@),
{
    let mut m: Vec<(String, JsonField)> = Vec::new();
    m.push(("type".to_string(), JsonField::Text("hello".to_string())));
    m.push(("server".to_string(), JsonField::Text("tor-js-gateway".to_string())));
    m.push(("ipv6".to_string(), JsonField::Flag(ipv6)));
    let ghost members = hello_members(ipv6);
    proof {
        assert(member_views(m@) =~= members);
        lemma_keys_differ();
        assert(members[0] == ("type"@, JsonFieldView::Text("hello"@)));
        assert(says(members, "type"@, "hello"@));
        assert(members[1] == ("server"@, JsonFieldView::Text("tor-js-gateway"@)));
        assert(says(members, "server"@, "tor-js-gateway"@));
    }
    json_object(&m)
}

/// Writes the message that refuses a channel.
pub fn rejected_message(label: &str, sctp_id: u16, reason: &str) -> (r: String)
    ensures
        r@ == json_object_text(rejected_members(label@, sctp_id, reason@)),
        json_text_member(r@, "type"@) == Some("rejected"@),
        json_text_member(r@, "channel"@) == Some(label@),
        json_text_member(r@, "reason"@) == Some(reason@),
{
    let mut m: Vec<(String, JsonField)> = Vec::new();
    m.push(("type".to_string(), JsonField::Text("rejected".to_string())));
    m.push(("channel".to_string(), JsonField::Text(label.to_string())));
    m.push(("sctp_id".to_string(), JsonField::Number(sctp_id as u64)));
    m.push(("reason".to_string(), JsonField::Text(reason.to_string())));
    let ghost members = rejected_members(label@, sctp_id, reason@);
    proof {
        assert(member_views(m@) =~= members);
        lemma_keys_differ();
        assert(members[0] == ("type"@, JsonFieldView::Text("rejected"@)));
        assert(says(members, "type"@, "rejected"@));
        assert(members[1] == ("channel"@, JsonFieldView::Text(label@)));
        assert(says(members, "channel"@, label@));
        assert(members[3] == ("reason"@, JsonFieldView::Text(reason@)));
        assert(says(members, "reason"@, reason@));
    }
    json_object(&m)
}

/// Writes the message that reports the end of a channel.
pub fn closed_message(label: &str, sctp_id: u16) -> (r: String)
    ensures
        r@ == json_object_text(closed_members(label@, sctp_id)),
        json_text_member(r@, "type"@) == Some("closed"@),
        json_text_member(r@, "channel"@) == Some(label@),
{
    let mut m: Vec<(String, JsonField)> = Vec::new();
    m.push(("type".to_string(), JsonField::Text("closed".to_string())));
    m.push(("channel".to_string(), JsonField::Text(label.to_string())));
    m.push(("sctp_id".to_string(), JsonField::Number(sctp_id as u64)));
    let ghost members = closed_members(label@, sctp_id);
    proof {
        assert(member_views(m@) =~= members);
        lemma_keys_differ();
        assert(members[0] == ("type"@, JsonFieldView::Text("closed"@)));
        assert(says(members, "type"@, "closed"@));
        assert(members[1] == ("channel"@, JsonFieldView::Text(label@)));
        assert(says(members, "channel"@, label@));
    }
    json_object(&m)
}

/// Writes the answer to the ping `text`.
pub fn pong_message(text: &str) -> (r: String)
    ensures
        r@ == json_object_text(pong_members(text@)),
        json_text_member(r@, "type"@) == Some("pong"@),
        json_text_member(text@, "ts"@) matches Some(ts) ==> json_text_member(r@, "ts"@) == Some(ts),
{
    let mut m: Vec<(String, JsonField)> = Vec::new();
    m.push(("type".to_string(), JsonField::Text("pong".to_string())));
    m.push(("ts".to_string(), JsonField::Value(value_member(text, "ts"))));
    let ghost members = pong_members(text@);
    proof {
        assert(member_views(m@) =~= members);
        lemma_keys_differ();
        assert(members[0] == ("type"@, JsonFieldView::Text("pong"@)));
        assert(says(members, "type"@, "pong"@));
        assert(members[1] == ("ts"@, JsonFieldView::Value(json_member(text@, "ts"@))));
        assert(echoes(members, "ts"@, text@, "ts"@));
    }
    json_object(&m)
}

/// Writes the answer to an offer, in the form that a browser expects.
pub fn answer_message(sdp: &str) -> (r: String)
    ensures
        r@ == json_object_text(answer_members(sdp@)),
        json_text_member(r@, "type"@) == Some("answer"@),
        json_text_member(r@, "sdp"@) == Some(sdp@),
{
    let mut m: Vec<(String, JsonField)> = Vec::new();
    m.push(("type".to_string(), JsonField::Text("answer".to_string())));
    m.push(("sdp".to_string(), JsonField::Text(sdp.to_string())));
    let ghost members = answer_members(sdp@);
    proof {
        assert(member_views(m@) =~= members);
        reveal_strlit("type");
        reveal_strlit("sdp");
        assert("type"@.len() != "sdp"@.len());
        assert(members[0] == ("type"@, JsonFieldView::Text("answer"@)));
        assert(says(members, "type"@, "answer"@));
        assert(members[1] == ("sdp"@, JsonFieldView::Text(sdp@)));
        assert(says(members, "sdp"@, sdp@));
    }
    json_object(&m)
}

/// Every message has its type, and what it is about as it was given: whether there is IPv6, the
/// label and the stream of the channel, the reason, the SDP text.
pub proof fn law_messages(ipv6: bool, label: Seq<char>, sctp_id: u16, text: Seq<char>)
    ensures
        hello_members(ipv6).len() == 3,
        hello_members(ipv6).contains(("type"@, JsonFieldView::Text("hello"@))),
        hello_members(ipv6).contains(("server"@, JsonFieldView::Text("tor-js-gateway"@))),
        hello_members(ipv6).contains(("ipv6"@, JsonFieldView::Flag(ipv6))),
        rejected_members(label, sctp_id, text).len() == 4,
        rejected_members(label, sctp_id, text).contains(("type"@, JsonFieldView::Text("rejected"@))),
        rejected_members(label, sctp_id, text).contains(("channel"@, JsonFieldView::Text(label))),
        rejected_members(label, sctp_id, text).contains(
            ("sctp_id"@, JsonFieldView::Number(sctp_id as u64)),
        ),
        rejected_members(label, sctp_id, text).contains(("reason"@, JsonFieldView::Text(text))),
        closed_members(label, sctp_id).len() == 3,
        closed_members(label, sctp_id).contains(("type"@, JsonFieldView::Text("closed"@))),
        closed_members(label, sctp_id).contains(("channel"@, JsonFieldView::Text(label))),
        closed_members(label, sctp_id).contains(
            ("sctp_id"@, JsonFieldView::Number(sctp_id as u64)),
        ),
        pong_members(text).len() == 2,
        pong_members(text).contains(("type"@, JsonFieldView::Text("pong"@))),
        pong_members(text).contains(("ts"@, JsonFieldView::Value(json_member(text, "ts"@)))),
        answer_members(text).len() == 2,
        answer_members(text).contains(("type"@, JsonFieldView::Text("answer"@))),
        answer_members(text).contains(("sdp"@, JsonFieldView::Text(text))),
{
    let h = hello_members(ipv6);
    assert(h[0].0 == "type"@ && h[1].0 == "server"@ && h[2].0 == "ipv6"@);
    assert(h.contains(h[0]) && h.contains(h[1]) && h.contains(h[2]));
    let r = rejected_members(label, sctp_id, text);
    assert(r.contains(r[0]) && r.contains(r[1]) && r.contains(r[2]) && r.contains(r[3]));
    let c = closed_members(label, sctp_id);
    assert(c.contains(c[0]) && c.contains(c[1]) && c.contains(c[2]));
    let p = pong_members(text);
    assert(p.contains(p[0]) && p.contains(p[1]));
    let a = answer_members(text);
    assert(a.contains(a[0]) && a.contains(a[1]));
}

} // verus!
