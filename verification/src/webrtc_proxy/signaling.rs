//! Signaling: an SDP offer is answered, and a slot is taken for the peer.

use vstd::prelude::*;

use super::host::{candidates, host_candidates};
use super::messages::{answer_members, answer_message};
use super::peer::slots_change;
use crate::http::{bare_reply, text_reply, Body, BodyView, Reply, ReplyView};
use crate::json::json_object_text;
use crate::net::{IpAddr, SocketAddr};
use crate::text::text_in;
use crate::ws_proxy::{law_held_within_total, ConnectionTracker, WsLimits};

verus! {

/// Whether a text is an SDP offer, as `str0m` reads it.
pub uninterp spec fn sdp_offer(text: Seq<char>) -> bool;

/// Tests for an SDP offer with `str0m`'s `SdpOffer::from_sdp_string`. Whether a text is one
/// depends on the text and nothing else; the grammar is not stated.
#[verifier::external_body]
fn is_sdp_offer(text: &str) -> (r: bool)
    ensures
        r == sdp_offer(text@),
{
    str0m::change::SdpOffer::from_sdp_string(text).is_ok()
}

/// The reply that carries the answer.
pub open spec fn answer_reply(json: Seq<char>) -> ReplyView {
    ReplyView {
        status: 200,
        headers: seq![("content-type"@, "application/json"@)],
        body: BodyView::Text(json),
    }
}

/// How far a request at `/rtc/connect` is: what it waits for.
pub enum ConnectStage {
    /// The request itself.
    AwaitRequest,
    /// The offer that the body holds.
    AwaitOffer,
    /// The answer to the offer.
    AwaitAnswer,
    /// That the peer is handed to the event loop; the answer as JSON.
    AwaitHandOff { json: String },
    /// Nothing.
    Done,
}

/// What a stage says.
pub enum ConnectStageView {
    AwaitRequest,
    AwaitOffer,
    AwaitAnswer,
    AwaitHandOff { json: Seq<char> },
    Done,
}

impl View for ConnectStage {
    type V = ConnectStageView;

    open spec fn view(&self) -> ConnectStageView {
        match self {
            ConnectStage::AwaitRequest => ConnectStageView::AwaitRequest,
            ConnectStage::AwaitOffer => ConnectStageView::AwaitOffer,
            ConnectStage::AwaitAnswer => ConnectStageView::AwaitAnswer,
            ConnectStage::AwaitHandOff { json } => ConnectStageView::AwaitHandOff { json: json@ },
            ConnectStage::Done => ConnectStageView::Done,
        }
    }
}

/// What came of an action.
pub enum ConnectEvent {
    /// The request came; whether WebRTC is enabled.
    Request { enabled: bool },
    /// The SDP text of the offer in the body, `None` where the body holds none; and the addresses
    /// of the host.
    Offer { sdp: Option<String>, gathered: Vec<IpAddr> },
    /// The SDP text of the answer, `None` where the offer could not be accepted.
    Answer { sdp: Option<String> },
    /// Whether the event loop took the peer.
    HandedOff { taken: bool },
}

/// What an event says.
pub enum ConnectEventView {
    Request { enabled: bool },
    Offer { sdp: Option<Seq<char>>, gathered: Seq<IpAddr> },
    Answer { sdp: Option<Seq<char>> },
    HandedOff { taken: bool },
}

impl View for ConnectEvent {
    type V = ConnectEventView;

    open spec fn view(&self) -> ConnectEventView {
        match self {
            ConnectEvent::Request { enabled } => ConnectEventView::Request { enabled: *enabled },
            ConnectEvent::Offer { sdp, gathered } => ConnectEventView::Offer {
                sdp: text_in(*sdp),
                gathered: gathered@,
            },
            ConnectEvent::Answer { sdp } => ConnectEventView::Answer { sdp: text_in(*sdp) },
            ConnectEvent::HandedOff { taken } => ConnectEventView::HandedOff { taken: *taken },
        }
    }
}

/// What the caller does next.
pub enum ConnectAction {
    /// Read the offer from the body.
    ReadOffer,
    /// Accept the offer with these host candidates.
    Accept { sdp: String, candidates: Vec<SocketAddr> },
    /// Hand the peer to the event loop.
    HandOff,
    /// Reply to the request.
    Respond { reply: Reply },
}

/// What an action says.
pub enum ConnectActionView {
    ReadOffer,
    Accept { sdp: Seq<char>, candidates: Seq<SocketAddr> },
    HandOff,
    Respond { reply: ReplyView },
}

impl View for ConnectAction {
    type V = ConnectActionView;

    open spec fn view(&self) -> ConnectActionView {
        match self {
            ConnectAction::ReadOffer => ConnectActionView::ReadOffer,
            ConnectAction::Accept { sdp, candidates } => ConnectActionView::Accept {
                sdp: sdp@,
                candidates: candidates@,
            },
            ConnectAction::HandOff => ConnectActionView::HandOff,
            ConnectAction::Respond { reply } => ConnectActionView::Respond { reply: reply@ },
        }
    }
}

/// What comes of an event: the next stage, the next action, and how many slots it takes or gives
/// back.
pub struct ConnectStep {
    pub stage: ConnectStageView,
    pub action: ConnectActionView,
    pub slots: int,
}

/// The step that replies and is done.
pub open spec fn responded(reply: ReplyView, slots: int) -> ConnectStep {
    ConnectStep {
        stage: ConnectStageView::Done,
        action: ConnectActionView::Respond { reply },
        slots,
    }
}

/// Whether a slot is held at a stage on the way to the answer.
pub open spec fn holds_slot(stage: ConnectStageView) -> bool {
    stage is AwaitOffer || stage is AwaitAnswer || stage is AwaitHandOff
}

/// What comes of an event of a request. The checks come in this order: that WebRTC is enabled,
/// that a slot is free, that the body holds an offer, that it is SDP, that it can be accepted,
/// and that the event loop takes the peer. The slot is given back wherever a later check fails.
pub open spec fn connect_step(
    stage: ConnectStageView,
    event: ConnectEventView,
    peer_ip: IpAddr,
    local_addr: Option<SocketAddr>,
    admitted: bool,
) -> ConnectStep {
    match (stage, event) {
        (ConnectStageView::AwaitRequest, ConnectEventView::Request { enabled }) => if !enabled {
            responded(text_reply(404, "WebRTC not enabled"@), 0)
        } else if !admitted {
            responded(text_reply(503, "connection limit reached"@), 0)
        } else {
            ConnectStep {
                stage: ConnectStageView::AwaitOffer,
                action: ConnectActionView::ReadOffer,
                slots: 1,
            }
        },
        (ConnectStageView::AwaitOffer, ConnectEventView::Offer { sdp, gathered }) => match sdp {
            None => responded(text_reply(400, "invalid SDP offer"@), -1),
            Some(text) => if !sdp_offer(text) {
                responded(text_reply(400, "invalid SDP"@), -1)
            } else {
                ConnectStep {
                    stage: ConnectStageView::AwaitAnswer,
                    action: ConnectActionView::Accept {
                        sdp: text,
                        candidates: candidates(local_addr, gathered, peer_ip),
                    },
                    slots: 0,
                }
            },
        },
        (ConnectStageView::AwaitAnswer, ConnectEventView::Answer { sdp }) => match sdp {
            None => responded(text_reply(400, "failed to process SDP offer"@), -1),
            Some(text) => ConnectStep {
                stage: ConnectStageView::AwaitHandOff {
                    json: json_object_text(answer_members(text)),
                },
                action: ConnectActionView::HandOff,
                slots: 0,
            },
        },
        (
            ConnectStageView::AwaitHandOff { json },
            ConnectEventView::HandedOff { taken },
        ) => if taken {
            responded(answer_reply(json), 0)
        } else {
            responded(bare_reply(500), -1)
        },
        _ => responded(
            bare_reply(500),
            if holds_slot(stage) {
                -1
            } else {
                0
            },
        ),
    }
}

fn respond(reply: Reply) -> (r: (ConnectStage, ConnectAction))
    ensures
        r.0@ == ConnectStageView::Done,
        r.1@ == (ConnectActionView::Respond { reply: reply@ }),
{
    (ConnectStage::Done, ConnectAction::Respond { reply })
}

/// HTTP handler for `POST /rtc/connect` — SDP offer/answer signaling: takes what came of the last
/// action and gives the next one.
pub fn handle_rtc_connect(
    stage: ConnectStage,
    event: ConnectEvent,
    peer_ip: IpAddr,
    local_addr: Option<SocketAddr>,
    connection_tracker: &mut ConnectionTracker,
    ws_limits: &WsLimits,
) -> (r: (ConnectStage, ConnectAction))
    ensures
        ({
            let step = connect_step(
                stage@,
                event@,
                peer_ip,
                local_addr,
                old(connection_tracker).admits(peer_ip, *ws_limits),
            );
            &&& r.0@ == step.stage
            &&& r.1@ == step.action
            &&& slots_change(
                *final(connection_tracker),
                *old(connection_tracker),
                peer_ip,
                step.slots,
            )
        }),
{
    let holds = match &stage {
        ConnectStage::AwaitRequest => false,
        ConnectStage::Done => false,
        _ => true,
    };
    match (stage, event) {
        (ConnectStage::AwaitRequest, ConnectEvent::Request { enabled }) => {
            if !enabled {
                respond(Reply::text(404, "WebRTC not enabled"))
            } else if !connection_tracker.acquire(peer_ip, ws_limits) {
                respond(Reply::text(503, "connection limit reached"))
            } else {
                (ConnectStage::AwaitOffer, ConnectAction::ReadOffer)
            }
        },
        (ConnectStage::AwaitOffer, ConnectEvent::Offer { sdp, gathered }) => {
            match sdp {
                None => {
                    connection_tracker.release(peer_ip);
                    respond(Reply::text(400, "invalid SDP offer"))
                },
                Some(text) => {
                    if !is_sdp_offer(text.as_str()) {
                        connection_tracker.release(peer_ip);
                        respond(Reply::text(400, "invalid SDP"))
                    } else {
                        let candidates = host_candidates(local_addr, &gathered, peer_ip);
                        (
                            ConnectStage::AwaitAnswer,
                            ConnectAction::Accept { sdp: text, candidates },
                        )
                    }
                },
            }
        },
        (ConnectStage::AwaitAnswer, ConnectEvent::Answer { sdp }) => {
            match sdp {
                None => {
                    connection_tracker.release(peer_ip);
                    respond(Reply::text(400, "failed to process SDP offer"))
                },
                Some(text) => {
                    let json = answer_message(text.as_str());
                    (ConnectStage::AwaitHandOff { json }, ConnectAction::HandOff)
                },
            }
        },
        (ConnectStage::AwaitHandOff { json }, ConnectEvent::HandedOff { taken }) => {
            if taken {
                let mut reply = Reply {
                    status: 200,
                    headers: Vec::new(),
                    body: Body::Text(json),
                };
                reply.add_header("content-type", "application/json");
                assert(reply@ =~= answer_reply(json@));
                respond(reply)
            } else {
                connection_tracker.release(peer_ip);
                respond(Reply::bare(500))
            }
        },
        _ => {
            if holds {
                connection_tracker.release(peer_ip);
            }
            respond(Reply::bare(500))
        },
    }
}

/// What a run of a request comes to: the stage, the last action, and the slots it holds.
pub open spec fn connect_run(
    events: Seq<(ConnectEventView, bool)>,
    peer_ip: IpAddr,
    local_addr: Option<SocketAddr>,
) -> (ConnectStageView, Option<ConnectActionView>, int)
    decreases events.len(),
{
    if events.len() == 0 {
        (ConnectStageView::AwaitRequest, None, 0)
    } else {
        let (stage, _, slots) = connect_run(events.drop_last(), peer_ip, local_addr);
        let (event, admitted) = events.last();
        let step = connect_step(stage, event, peer_ip, local_addr, admitted);
        (step.stage, Some(step.action), slots + step.slots)
    }
}

/// However a request goes until it is replied to, it holds one slot where the reply is the answer,
/// and none where it is refused.
pub proof fn law_connect_holds_one_slot(
    events: Seq<(ConnectEventView, bool)>,
    peer_ip: IpAddr,
    local_addr: Option<SocketAddr>,
)
    requires
        forall|i: int|
            0 <= i < events.len() ==> !((#[trigger] connect_run(
                events.take(i),
                peer_ip,
                local_addr,
            )).0 is Done),
    ensures
        ({
            let (stage, action, slots) = connect_run(events, peer_ip, local_addr);
            match action {
                Some(ConnectActionView::Respond { reply }) => {
                    &&& stage is Done
                    &&& slots == (if reply.status == 200 {
                        1int
                    } else {
                        0
                    })
                },
                _ => {
                    &&& !(stage is Done)
                    &&& slots == (if holds_slot(stage) {
                        1int
                    } else {
                        0
                    })
                },
            }
        }),
    decreases events.len(),
{
    if events.len() > 0 {
        let head = events.drop_last();
        let n = head.len() as int;
        assert(events.take(n) =~= head);
        assert(!(connect_run(events.take(n), peer_ip, local_addr).0 is Done));
        assert forall|i: int| 0 <= i < head.len() implies !((#[trigger] connect_run(
            head.take(i),
            peer_ip,
            local_addr,
        )).0 is Done) by {
            assert(events.take(i) =~= head.take(i));
        }
        law_connect_holds_one_slot(head, peer_ip, local_addr);
    }
}

/// Whatever a request meets with, the limits on slots are kept, as long as the slot that it holds
/// is taken.
pub proof fn law_connect_keeps_limits(
    before: ConnectionTracker,
    after: ConnectionTracker,
    stage: ConnectStageView,
    event: ConnectEventView,
    peer_ip: IpAddr,
    local_addr: Option<SocketAddr>,
    limits: WsLimits,
)
    requires
        before.balanced(),
        before.within(limits),
        holds_slot(stage) ==> before.held(peer_ip) > 0,
        slots_change(
            after,
            before,
            peer_ip,
            connect_step(
                stage,
                event,
                peer_ip,
                local_addr,
                before.admits(peer_ip, limits),
            ).slots,
        ),
    ensures
        after.within(limits),
        after.balanced(),
{
    law_held_within_total(before, peer_ip);
    assert forall|ip: IpAddr| #[trigger] after.held(ip) <= limits.per_ip_limit by {
        assert(before.held(ip) <= limits.per_ip_limit);
    }
}

/// A request that finds WebRTC enabled and a slot free, and has an offer that is SDP and can be
/// accepted, is answered with the SDP of the answer, once the event loop has taken the peer: the
/// offer is handed on as it came, with the candidates for the peer, and the slot is kept.
pub proof fn law_offer_is_answered(
    offer: Seq<char>,
    gathered: Seq<IpAddr>,
    answer: Seq<char>,
    later: (bool, bool, bool),
    peer_ip: IpAddr,
    local_addr: Option<SocketAddr>,
)
    requires
        sdp_offer(offer),
    ensures
        ({
            let events = seq![
                (ConnectEventView::Request { enabled: true }, true),
                (ConnectEventView::Offer { sdp: Some(offer), gathered }, later.0),
                (ConnectEventView::Answer { sdp: Some(answer) }, later.1),
                (ConnectEventView::HandedOff { taken: true }, later.2),
            ];
            &&& connect_run(events.take(1), peer_ip, local_addr).1 == Some(
                ConnectActionView::ReadOffer,
            )
            &&& connect_run(events.take(2), peer_ip, local_addr).1 == Some(
                ConnectActionView::Accept {
                    sdp: offer,
                    candidates: candidates(local_addr, gathered, peer_ip),
                },
            )
            &&& connect_run(events.take(3), peer_ip, local_addr).1 == Some(
                ConnectActionView::HandOff,
            )
            &&& connect_run(events, peer_ip, local_addr).2 == 1
            &&& connect_run(events, peer_ip, local_addr).1 matches Some(
                ConnectActionView::Respond { reply },
            )
            &&& reply.status == 200
            &&& reply.headers == seq![("content-type"@, "application/json"@)]
            &&& reply.body == BodyView::Text(json_object_text(answer_members(answer)))
        }),
{
    let events = seq![
        (ConnectEventView::Request { enabled: true }, true),
        (ConnectEventView::Offer { sdp: Some(offer), gathered }, later.0),
        (ConnectEventView::Answer { sdp: Some(answer) }, later.1),
        (ConnectEventView::HandedOff { taken: true }, later.2),
    ];
    assert(events.take(0) =~= Seq::empty());
    assert(events.take(1).drop_last() =~= events.take(0));
    assert(events.take(2).drop_last() =~= events.take(1));
    assert(events.take(3).drop_last() =~= events.take(2));
    assert(events.drop_last() =~= events.take(3));
    assert(connect_run(events.take(0), peer_ip, local_addr) == (
        ConnectStageView::AwaitRequest,
        None::<ConnectActionView>,
        0int,
    ));
    assert(connect_run(events.take(1), peer_ip, local_addr).0 is AwaitOffer);
    assert(connect_run(events.take(2), peer_ip, local_addr).0 is AwaitAnswer);
    assert(connect_run(events.take(3), peer_ip, local_addr).0 is AwaitHandOff);
}

/// A request is refused, with nothing but a status and a short text, at the first check that
/// fails: as not found where WebRTC is not enabled, as unavailable where no slot is free, as a bad
/// request where there is no offer, where it is no SDP, or where it cannot be accepted, and as an
/// internal error where the event loop does not take the peer. A slot that was taken is given back.
pub proof fn law_connect_refusals(
    sdp: Option<Seq<char>>,
    gathered: Seq<IpAddr>,
    json: Seq<char>,
    admitted: bool,
    peer_ip: IpAddr,
    local_addr: Option<SocketAddr>,
)
    ensures
        ({
            let step = |stage: ConnectStageView, event: ConnectEventView|
                connect_step(stage, event, peer_ip, local_addr, admitted);
            let refused = |s: ConnectStep, status: u16, text: Seq<char>, slots: int|
                {
                    &&& s.stage is Done
                    &&& s.slots == slots
                    &&& s.action matches ConnectActionView::Respond { reply }
                    &&& reply.status == status
                    &&& reply.headers.len() == 0
                    &&& reply.body == BodyView::Text(text)
                };
            let request = ConnectStageView::AwaitRequest;
            let offer = step(
                ConnectStageView::AwaitOffer,
                ConnectEventView::Offer { sdp, gathered },
            );
            let lost = step(
                ConnectStageView::AwaitHandOff { json },
                ConnectEventView::HandedOff { taken: false },
            );
            &&& refused(
                step(request, ConnectEventView::Request { enabled: false }),
                404,
                "WebRTC not enabled"@,
                0,
            )
            &&& !admitted ==> refused(
                step(request, ConnectEventView::Request { enabled: true }),
                503,
                "connection limit reached"@,
                0,
            )
            &&& sdp is None ==> refused(offer, 400, "invalid SDP offer"@, -1)
            &&& sdp matches Some(text) ==> !sdp_offer(text) ==> refused(
                offer,
                400,
                "invalid SDP"@,
                -1,
            )
            &&& refused(
                step(ConnectStageView::AwaitAnswer, ConnectEventView::Answer { sdp: None }),
                400,
                "failed to process SDP offer"@,
                -1,
            )
            &&& lost.stage is Done && lost.slots == -1
            &&& lost.action matches ConnectActionView::Respond { reply }
            &&& reply.status == 500
            &&& reply.body is Empty
        }),
{
}

/// An event that a request does not wait for is an internal error, and a slot that is held is given
/// back.
pub proof fn law_connect_out_of_order(
    stage: ConnectStageView,
    event: ConnectEventView,
    peer_ip: IpAddr,
    local_addr: Option<SocketAddr>,
    admitted: bool,
)
    requires
        !(stage is AwaitRequest && event is Request),
        !(stage is AwaitOffer && event is Offer),
        !(stage is AwaitAnswer && event is Answer),
        !(stage is AwaitHandOff && event is HandedOff),
    ensures
        ({
            let step = connect_step(stage, event, peer_ip, local_addr, admitted);
            &&& step.stage is Done
            &&& step.slots == (if stage is AwaitRequest || stage is Done {
                0int
            } else {
                -1
            })
            &&& step.action matches ConnectActionView::Respond { reply }
            &&& reply.status == 500
            &&& reply.body is Empty
        }),
{
}

/// What events and actions of a request say is what they hold, whole.
pub proof fn law_connect_views(event: ConnectEvent, action: ConnectAction)
    ensures
        match event {
            ConnectEvent::Request { enabled } => event@ == (ConnectEventView::Request { enabled }),
            ConnectEvent::Offer { sdp, gathered } => event@ == (ConnectEventView::Offer {
                sdp: match sdp {
                    Some(text) => Some(text@),
                    None => None,
                },
                gathered: gathered@,
            }),
            ConnectEvent::Answer { sdp } => event@ == (ConnectEventView::Answer {
                sdp: match sdp {
                    Some(text) => Some(text@),
                    None => None,
                },
            }),
            ConnectEvent::HandedOff { taken } => event@ == (ConnectEventView::HandedOff { taken }),
        },
        match action {
            ConnectAction::ReadOffer => action@ is ReadOffer,
            ConnectAction::Accept { sdp, candidates } => action@ == (ConnectActionView::Accept {
                sdp: sdp@,
                candidates: candidates@,
            }),
            ConnectAction::HandOff => action@ is HandOff,
            ConnectAction::Respond { reply } => action@ == (ConnectActionView::Respond {
                reply: reply@,
            }),
        },
{
}

} // verus!
