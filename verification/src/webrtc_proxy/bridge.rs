//! Bridges between data channels and TCP connections.

use vstd::prelude::*;

use crate::ws_proxy::CHUNK_SIZE;

verus! {

/// Messages from TCP bridge tasks back to the UDP event loop.
pub enum TcpMsg {
    /// Data read from TCP, to be written to the data channel.
    Data(u64, Vec<u8>),
    /// TCP connection closed or errored.
    Closed(u64),
}

/// What a message says.
pub enum TcpMsgView {
    Data(u64, Seq<u8>),
    Closed(u64),
}

impl View for TcpMsg {
    type V = TcpMsgView;

    open spec fn view(&self) -> TcpMsgView {
        match self {
            TcpMsg::Data(cid, data) => TcpMsgView::Data(*cid, data@),
            TcpMsg::Closed(cid) => TcpMsgView::Closed(*cid),
        }
    }
}

/// The channel that a message is about.
pub open spec fn channel_of(msg: TcpMsgView) -> u64 {
    match msg {
        TcpMsgView::Data(cid, _) => cid,
        TcpMsgView::Closed(cid) => cid,
    }
}

/// How long a TCP connection may take to be made.
pub const CONNECT_TIMEOUT_SECS: u64 = 10;

/// How far a bridge between a data channel and TCP is.
#[derive(Clone, Copy, Debug, PartialEq, Eq, Structural)]
pub enum BridgeStage {
    Connecting,
    Relaying,
    Ended,
}

/// What a bridge meets with.
pub enum BridgeEvent {
    /// The TCP connection was made.
    Connected,
    /// The TCP connection could not be made.
    ConnectFailed,
    /// The TCP connection was not made in time.
    ConnectTimedOut,
    /// Data came from the channel.
    FromChannel(Vec<u8>),
    /// The channel is gone.
    ChannelEnded,
    /// TCP could not be written.
    WriteFailed,
    /// Data was read from TCP; nothing at its end.
    Read(Vec<u8>),
    /// TCP could not be read.
    ReadFailed,
    /// The event loop is gone.
    SendFailed,
}

/// What an event says.
pub enum BridgeEventView {
    Connected,
    ConnectFailed,
    ConnectTimedOut,
    FromChannel(Seq<u8>),
    ChannelEnded,
    WriteFailed,
    Read(Seq<u8>),
    ReadFailed,
    SendFailed,
}

impl View for BridgeEvent {
    type V = BridgeEventView;

    open spec fn view(&self) -> BridgeEventView {
        match self {
            BridgeEvent::Connected => BridgeEventView::Connected,
            BridgeEvent::ConnectFailed => BridgeEventView::ConnectFailed,
            BridgeEvent::ConnectTimedOut => BridgeEventView::ConnectTimedOut,
            BridgeEvent::FromChannel(d) => BridgeEventView::FromChannel(d@),
            BridgeEvent::ChannelEnded => BridgeEventView::ChannelEnded,
            BridgeEvent::WriteFailed => BridgeEventView::WriteFailed,
            BridgeEvent::Read(d) => BridgeEventView::Read(d@),
            BridgeEvent::ReadFailed => BridgeEventView::ReadFailed,
            BridgeEvent::SendFailed => BridgeEventView::SendFailed,
        }
    }
}

/// What a bridge does next.
pub enum BridgeAction {
    /// Wait for data on both sides.
    Relay,
    /// Write data to TCP.
    Write(Vec<u8>),
    /// Send a message to the event loop.
    Send(TcpMsg),
    /// Shut down the write half of TCP where `shutdown` says so, send the last message to the
    /// event loop, and end.
    Finish { shutdown: bool, last: TcpMsg },
    /// Do nothing.
    Nothing,
}

/// What an action says.
pub enum BridgeActionView {
    Relay,
    Write(Seq<u8>),
    Send(TcpMsgView),
    Finish { shutdown: bool, last: TcpMsgView },
    Nothing,
}

impl View for BridgeAction {
    type V = BridgeActionView;

    open spec fn view(&self) -> BridgeActionView {
        match self {
            BridgeAction::Relay => BridgeActionView::Relay,
            BridgeAction::Write(d) => BridgeActionView::Write(d@),
            BridgeAction::Send(m) => BridgeActionView::Send(m@),
            BridgeAction::Finish { shutdown, last } => BridgeActionView::Finish {
                shutdown: *shutdown,
                last: last@,
            },
            BridgeAction::Nothing => BridgeActionView::Nothing,
        }
    }
}

/// The end of the bridge of a channel.
pub open spec fn finished(shutdown: bool, cid: u64) -> (BridgeStage, BridgeActionView) {
    (BridgeStage::Ended, BridgeActionView::Finish { shutdown, last: TcpMsgView::Closed(cid) })
}

/// What comes of an event of a bridge: once TCP is connected, what comes on one side goes to the
/// other, until either side ends.
pub open spec fn bridge_step(stage: BridgeStage, event: BridgeEventView, cid: u64) -> (
    BridgeStage,
    BridgeActionView,
) {
    match (stage, event) {
        (BridgeStage::Connecting, BridgeEventView::Connected) => (
            BridgeStage::Relaying,
            BridgeActionView::Relay,
        ),
        (BridgeStage::Connecting, BridgeEventView::ConnectFailed) => finished(false, cid),
        (BridgeStage::Connecting, BridgeEventView::ConnectTimedOut) => finished(false, cid),
        (BridgeStage::Relaying, BridgeEventView::FromChannel(data)) => (
            BridgeStage::Relaying,
            BridgeActionView::Write(data),
        ),
        (BridgeStage::Relaying, BridgeEventView::ChannelEnded) => finished(true, cid),
        (BridgeStage::Relaying, BridgeEventView::WriteFailed) => finished(true, cid),
        (BridgeStage::Relaying, BridgeEventView::Read(data)) => if data.len() > 0 {
            (BridgeStage::Relaying, BridgeActionView::Send(TcpMsgView::Data(cid, data)))
        } else {
            finished(false, cid)
        },
        (BridgeStage::Relaying, BridgeEventView::ReadFailed) => finished(false, cid),
        (BridgeStage::Relaying, BridgeEventView::SendFailed) => finished(false, cid),
        _ => (stage, BridgeActionView::Nothing),
    }
}

fn finish(shutdown: bool, cid: u64) -> (r: (BridgeStage, BridgeAction))
    ensures
        (r.0, r.1@) == finished(shutdown, cid),
{
    (BridgeStage::Ended, BridgeAction::Finish { shutdown, last: TcpMsg::Closed(cid) })
}

/// Bridge between a data channel and a TCP connection to a Tor relay: one step.
pub fn tcp_bridge_task(stage: BridgeStage, event: BridgeEvent, cid: u64) -> (r: (
    BridgeStage,
    BridgeAction,
))
    requires
        event matches BridgeEvent::Read(data) ==> data@.len() <= CHUNK_SIZE,
    ensures
        (r.0, r.1@) == bridge_step(stage, event@, cid),
        r.1@ matches BridgeActionView::Send(TcpMsgView::Data(_, chunk)) ==> 0 < chunk.len()
            <= CHUNK_SIZE,
{
    match (stage, event) {
        (BridgeStage::Connecting, BridgeEvent::Connected) => {
            (BridgeStage::Relaying, BridgeAction::Relay)
        },
        (BridgeStage::Connecting, BridgeEvent::ConnectFailed) => finish(false, cid),
        (BridgeStage::Connecting, BridgeEvent::ConnectTimedOut) => finish(false, cid),
        (BridgeStage::Relaying, BridgeEvent::FromChannel(data)) => {
            (BridgeStage::Relaying, BridgeAction::Write(data))
        },
        (BridgeStage::Relaying, BridgeEvent::ChannelEnded) => finish(true, cid),
        (BridgeStage::Relaying, BridgeEvent::WriteFailed) => finish(true, cid),
        (BridgeStage::Relaying, BridgeEvent::Read(data)) => {
            if data.len() > 0 {
                (BridgeStage::Relaying, BridgeAction::Send(TcpMsg::Data(cid, data)))
            } else {
                finish(false, cid)
            }
        },
        (BridgeStage::Relaying, BridgeEvent::ReadFailed) => finish(false, cid),
        (BridgeStage::Relaying, BridgeEvent::SendFailed) => finish(false, cid),
        _ => (stage, BridgeAction::Nothing),
    }
}

/// The stage of a bridge after these events, and the messages it has sent.
pub open spec fn bridge_run(events: Seq<BridgeEventView>, cid: u64) -> (
    BridgeStage,
    Seq<TcpMsgView>,
)
    decreases events.len(),
{
    if events.len() == 0 {
        (BridgeStage::Connecting, seq![])
    } else {
        let (stage, sent) = bridge_run(events.drop_last(), cid);
        let (next, action) = bridge_step(stage, events.last(), cid);
        match action {
            BridgeActionView::Send(msg) => (next, sent.push(msg)),
            BridgeActionView::Finish { last, .. } => (next, sent.push(last)),
            _ => (next, sent),
        }
    }
}

/// Whatever a bridge meets with, it reports its end exactly once, after everything else, and all
/// that it sends is about its own channel.
pub proof fn law_bridge_closes_once(events: Seq<BridgeEventView>, cid: u64)
    ensures
        ({
            let (stage, sent) = bridge_run(events, cid);
            &&& forall|i: int| 0 <= i < sent.len() ==> channel_of(#[trigger] sent[i]) == cid
            &&& forall|i: int|
                0 <= i < sent.len() ==> ((#[trigger] sent[i]) is Closed <==> stage
                    == BridgeStage::Ended && i == sent.len() - 1)
            &&& stage == BridgeStage::Ended ==> sent.len() > 0
        }),
    decreases events.len(),
{
    if events.len() > 0 {
        law_bridge_closes_once(events.drop_last(), cid);
    }
}

/// What came from the channel, message by message.
pub open spec fn from_channel(events: Seq<BridgeEventView>) -> Seq<Seq<u8>>
    decreases events.len(),
{
    if events.len() == 0 {
        seq![]
    } else {
        let before = from_channel(events.drop_last());
        match events.last() {
            BridgeEventView::FromChannel(data) => before.push(data),
            _ => before,
        }
    }
}

/// What was read from TCP, as messages about the channel.
pub open spec fn from_tcp(events: Seq<BridgeEventView>, cid: u64) -> Seq<TcpMsgView>
    decreases events.len(),
{
    if events.len() == 0 {
        seq![]
    } else {
        let before = from_tcp(events.drop_last(), cid);
        match events.last() {
            BridgeEventView::Read(data) => before.push(TcpMsgView::Data(cid, data)),
            _ => before,
        }
    }
}

/// What a bridge has written to TCP after these events.
pub open spec fn written(events: Seq<BridgeEventView>, cid: u64) -> Seq<Seq<u8>>
    decreases events.len(),
{
    if events.len() == 0 {
        seq![]
    } else {
        let head = events.drop_last();
        match bridge_step(bridge_run(head, cid).0, events.last(), cid).1 {
            BridgeActionView::Write(data) => written(head, cid).push(data),
            _ => written(head, cid),
        }
    }
}

/// The data messages that a bridge has sent after these events.
pub open spec fn data_sent(events: Seq<BridgeEventView>, cid: u64) -> Seq<TcpMsgView>
    decreases events.len(),
{
    if events.len() == 0 {
        seq![]
    } else {
        let head = events.drop_last();
        match bridge_step(bridge_run(head, cid).0, events.last(), cid).1 {
            BridgeActionView::Send(msg) => data_sent(head, cid).push(msg),
            _ => data_sent(head, cid),
        }
    }
}

/// Once a bridge is connected, whatever it meets with, TCP gets what came from the channel, and
/// the event loop what was read from TCP, each unchanged, in order and without a gap, and nothing
/// else but the report of the end; as long as the bridge relays, it is all that came.
pub proof fn law_bridge_hands_on(events: Seq<BridgeEventView>, cid: u64)
    requires
        events.len() > 0,
        events[0] == BridgeEventView::Connected,
    ensures
        written(events, cid).is_prefix_of(from_channel(events)),
        data_sent(events, cid).is_prefix_of(from_tcp(events, cid)),
        match bridge_run(events, cid).0 {
            BridgeStage::Connecting => false,
            BridgeStage::Relaying => {
                &&& written(events, cid) == from_channel(events)
                &&& data_sent(events, cid) == from_tcp(events, cid)
                &&& bridge_run(events, cid).1 == data_sent(events, cid)
            },
            BridgeStage::Ended => bridge_run(events, cid).1 == data_sent(events, cid).push(
                TcpMsgView::Closed(cid),
            ),
        },
    decreases events.len(),
{
    let head = events.drop_last();
    if head.len() == 0 {
        reveal_with_fuel(bridge_run, 2);
        reveal_with_fuel(written, 2);
        reveal_with_fuel(data_sent, 2);
        reveal_with_fuel(from_channel, 2);
        reveal_with_fuel(from_tcp, 2);
        assert(events.last() == events[0]);
    } else {
        assert(head[0] == events[0]);
        law_bridge_hands_on(head, cid);
    }
}

/// A bridge begins once it is connected. It goes on at all data of the channel, which it writes to
/// TCP, and at every read of some bytes, which it sends on, however long they are; it ends at
/// anything else, and does nothing once it has ended. TCP is shut down where the channel ended or
/// TCP could not be written. The end is reported to the event loop.
pub proof fn law_bridge_steps(event: BridgeEventView, cid: u64)
    ensures
        ({
            let end = |shutdown: bool|
                (
                    BridgeStage::Ended,
                    BridgeActionView::Finish { shutdown, last: TcpMsgView::Closed(cid) },
                );
            &&& bridge_step(BridgeStage::Connecting, event, cid) == (match event {
                BridgeEventView::Connected => (BridgeStage::Relaying, BridgeActionView::Relay),
                BridgeEventView::ConnectFailed | BridgeEventView::ConnectTimedOut => end(false),
                _ => (BridgeStage::Connecting, BridgeActionView::Nothing),
            })
            &&& bridge_step(BridgeStage::Ended, event, cid) == (
                BridgeStage::Ended,
                BridgeActionView::Nothing,
            )
            &&& bridge_step(BridgeStage::Relaying, event, cid) == (match event {
                BridgeEventView::FromChannel(data) => (
                    BridgeStage::Relaying,
                    BridgeActionView::Write(data),
                ),
                BridgeEventView::Read(data) => if data == Seq::<u8>::empty() {
                    end(false)
                } else {
                    (BridgeStage::Relaying, BridgeActionView::Send(TcpMsgView::Data(cid, data)))
                },
                BridgeEventView::ChannelEnded | BridgeEventView::WriteFailed => end(true),
                BridgeEventView::ReadFailed | BridgeEventView::SendFailed => end(false),
                _ => (BridgeStage::Relaying, BridgeActionView::Nothing),
            })
        }),
{
    if let BridgeEventView::Read(data) = event {
        if data.len() == 0 {
            assert(data =~= Seq::<u8>::empty());
        }
    }
}

/// A message is about the channel that it names.
pub proof fn law_channel_of(cid: u64, data: Seq<u8>)
    ensures
        channel_of(TcpMsgView::Data(cid, data)) == cid,
        channel_of(TcpMsgView::Closed(cid)) == cid,
{
}

/// What messages, events and actions of a bridge say is what they hold, whole.
pub proof fn law_bridge_views(msg: TcpMsg, event: BridgeEvent, action: BridgeAction)
    ensures
        match msg {
            TcpMsg::Data(cid, data) => msg@ == TcpMsgView::Data(cid, data@),
            TcpMsg::Closed(cid) => msg@ == TcpMsgView::Closed(cid),
        },
        match event {
            BridgeEvent::FromChannel(data) => event@ == BridgeEventView::FromChannel(data@),
            BridgeEvent::Read(data) => event@ == BridgeEventView::Read(data@),
            BridgeEvent::Connected => event@ is Connected,
            BridgeEvent::ConnectFailed => event@ is ConnectFailed,
            BridgeEvent::ConnectTimedOut => event@ is ConnectTimedOut,
            BridgeEvent::ChannelEnded => event@ is ChannelEnded,
            BridgeEvent::WriteFailed => event@ is WriteFailed,
            BridgeEvent::ReadFailed => event@ is ReadFailed,
            BridgeEvent::SendFailed => event@ is SendFailed,
        },
        match action {
            BridgeAction::Write(data) => action@ == BridgeActionView::Write(data@),
            BridgeAction::Send(m) => action@ == BridgeActionView::Send(m@),
            BridgeAction::Finish { shutdown, last } => action@ == (BridgeActionView::Finish {
                shutdown,
                last: last@,
            }),
            BridgeAction::Relay => action@ is Relay,
            BridgeAction::Nothing => action@ is Nothing,
        },
{
}

} // verus!
