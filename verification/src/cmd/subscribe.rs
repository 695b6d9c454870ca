//! `SUBSCRIBE channel [channel ...]`: the messages published on channels,
//! for as long as the session lasts.

use crate::buf::{bytes_contents, bytes_from_string};
use crate::db::{is_subscribe, State};
use crate::frame::{Frame, FrameView};
use crate::parse::{reports, text_of, Parse, ParseError, Parsed};
use crate::text::text_eq;
use bytes::Bytes;
use tokio::sync::broadcast::Receiver;
use vstd::prelude::*;
use vstd::utf8::{encode_utf8, encode_utf8_decode_utf8, encode_utf8_valid_utf8};

verus! {

/// The command that subscribes to channels.
#[derive(Debug)]
pub struct Subscribe {
    channels: Vec<String>,
}

/// What a `Subscribe` command is: the channels, in the order given.
pub struct SubscribeView {
    pub channels: Seq<Seq<char>>,
}

/// The texts that `items` hold, in order.
pub open spec fn texts_view(items: Seq<String>) -> Seq<Seq<char>> {
    Seq::new(items.len(), |i: int| items[i]@)
}

impl View for Subscribe {
    type V = SubscribeView;

    closed spec fn view(&self) -> SubscribeView {
        SubscribeView { channels: texts_view(self.channels@) }
    }
}

/// The items of `args` as texts, where every one of them is a text.
pub open spec fn texts_of(args: Seq<FrameView>) -> Option<Seq<Seq<char>>>
    decreases args.len(),
{
    if args.len() == 0 {
        Some(Seq::empty())
    } else {
        match text_of(args[0]) {
            None => None,
            Some(first) => match texts_of(args.skip(1)) {
                None => None,
                Some(others) => Some(seq![first] + others),
            },
        }
    }
}

/// The fields of a `SUBSCRIBE` command: one text or more, the channels.
pub open spec fn subscribe_fields(args: Seq<FrameView>) -> Parsed<SubscribeView> {
    if args.len() == 0 {
        Parsed::EndOfStream
    } else {
        match texts_of(args) {
            Some(channels) => Parsed::Done {
                value: SubscribeView { channels },
                rest: Seq::empty(),
            },
            None => Parsed::Invalid,
        }
    }
}

/// The encodings of `channels` as bulk frames behind `head`.
pub open spec fn with_channels(head: Seq<FrameView>, channels: Seq<Seq<char>>) -> Seq<FrameView> {
    head + Seq::new(channels.len(), |i: int| FrameView::Bulk(encode_utf8(channels[i])))
}

/// The request that carries a `SUBSCRIBE` command.
pub open spec fn subscribe_request(cmd: SubscribeView) -> FrameView {
    FrameView::Array(with_channels(seq![FrameView::Bulk(encode_utf8("subscribe"@))], cmd.channels))
}

/// Channels that are sent as bulk frames are read back as those channels.
pub proof fn lemma_channels_are_read(channels: Seq<Seq<char>>)
    ensures
        texts_of(with_channels(Seq::empty(), channels)) == Some(channels),
    decreases channels.len(),
{
    let args = with_channels(Seq::empty(), channels);
    if channels.len() == 0 {
        assert(channels =~= Seq::<Seq<char>>::empty());
    } else {
        let tail = channels.skip(1);
        encode_utf8_valid_utf8(channels[0]);
        encode_utf8_decode_utf8(channels[0]);
        assert(args[0] == FrameView::Bulk(encode_utf8(channels[0])));
        assert(args.skip(1) =~= with_channels(Seq::empty(), tail));
        lemma_channels_are_read(tail);
        assert(seq![channels[0]] + tail =~= channels);
    }
}

/// The fields of the request that carries a `SUBSCRIBE` command for one
/// channel or more are read as that command, and nothing is left behind
/// them.
pub proof fn lemma_subscribe_request_is_read(cmd: SubscribeView)
    requires
        cmd.channels.len() > 0,
    ensures
        subscribe_fields(subscribe_request(cmd)->Array_0.skip(1)) == (Parsed::Done {
            value: cmd,
            rest: Seq::<FrameView>::empty(),
        }),
{
    let args = subscribe_request(cmd)->Array_0.skip(1);
    assert(args =~= with_channels(Seq::empty(), cmd.channels));
    lemma_channels_are_read(cmd.channels);
}

/// The acknowledgement of a subscription: the word `subscribe`, the channel
/// and the number of channels that the session is subscribed to.
pub open spec fn subscribe_frame(channel: Seq<char>, num_subs: u64) -> FrameView {
    FrameView::Array(
        seq![
            FrameView::Bulk(encode_utf8("subscribe"@)),
            FrameView::Bulk(encode_utf8(channel)),
            FrameView::Integer(num_subs),
        ],
    )
}

/// A message as a subscriber gets it: the word `message`, the channel and
/// the payload.
pub open spec fn message_frame(channel: Seq<char>, payload: Seq<u8>) -> FrameView {
    FrameView::Array(
        seq![
            FrameView::Bulk(encode_utf8("message"@)),
            FrameView::Bulk(encode_utf8(channel)),
            FrameView::Bulk(payload),
        ],
    )
}

/// Makes the acknowledgement of a subscription to `channel_name`, for a
/// session that is subscribed to `num_subs` channels.
pub fn make_subscribe_frame(channel_name: String, num_subs: usize) -> (response: Frame)
    ensures
        response@ == subscribe_frame(channel_name@, num_subs as u64),
{
    let mut response = Frame::array();
    response.push_bulk(Bytes::copy_from_slice("subscribe".as_bytes()));
    response.push_bulk(bytes_from_string(channel_name));
    response.push_int(num_subs as u64);
    assert(response@->Array_0 =~= subscribe_frame(channel_name@, num_subs as u64)->Array_0);
    response
}

/// Makes the frame that hands a subscriber the message `msg`, published on
/// `channel_name`.
pub fn make_message_frame(channel_name: String, msg: Bytes) -> (response: Frame)
    ensures
        response@ == message_frame(channel_name@, bytes_contents(msg)),
{
    let mut response = Frame::array();
    response.push_bulk(Bytes::copy_from_slice("message".as_bytes()));
    response.push_bulk(bytes_from_string(channel_name));
    response.push_bulk(msg);
    assert(response@->Array_0 =~= message_frame(channel_name@, bytes_contents(msg))->Array_0);
    response
}

/// The channels that a session is subscribed to, each once, in the order in
/// which they were first subscribed to.
pub struct Subscriptions {
    channels: Vec<String>,
}

impl View for Subscriptions {
    type V = Seq<Seq<char>>;

    closed spec fn view(&self) -> Seq<Seq<char>> {
        texts_view(self.channels@)
    }
}

/// `channels` with `channel` behind them, unless it is among them.
pub open spec fn with_channel(channels: Seq<Seq<char>>, channel: Seq<char>) -> Seq<Seq<char>> {
    if channels.contains(channel) {
        channels
    } else {
        channels.push(channel)
    }
}

impl Subscriptions {
    /// The subscriptions of a session that has just begun: none.
    pub fn new() -> (r: Subscriptions)
        ensures
            r@ == Seq::<Seq<char>>::empty(),
    {
        let r = Subscriptions { channels: Vec::new() };
        assert(r@ =~= Seq::<Seq<char>>::empty());
        r
    }

    /// The number of channels that the session is subscribed to.
    pub fn len(&self) -> (r: usize)
        ensures
            r == self@.len(),
    {
        self.channels.len()
    }

    /// Takes note of a subscription to `channel`.
    fn insert(&mut self, channel: &str)
        ensures
            final(self)@ == with_channel(old(self)@, channel@),
    {
        let mut i: usize = 0;
        while i < self.channels.len()
            invariant
                i <= self.channels.len(),
                self.channels@ == old(self).channels@,
                forall|j: int| 0 <= j < i ==> #[trigger] self@[j] != channel@,
            decreases self.channels.len() - i,
        {
            if text_eq(self.channels[i].as_str(), channel) {
                assert(self@[i as int] == channel@);
                return;
            }
            i += 1;
        }
        self.channels.push(channel.to_owned());
        assert(self@ =~= old(self)@.push(channel@));
    }
}

/// Subscribes a session to the channel `channel_name` of `db`.
///
/// Returns the receiver of the channel, and the acknowledgement for the
/// client, which counts the channels that the session is subscribed to now.
/// A channel that the session was subscribed to before counts once.
pub fn subscribe_to_channel(
    channel_name: String,
    subscriptions: &mut Subscriptions,
    db: &mut State,
) -> (r: (Receiver<Bytes>, Frame))
    requires
        old(db).wf(),
    ensures
        final(db).wf(),
        is_subscribe(old(db)@, final(db)@, channel_name@),
        final(subscriptions)@ == with_channel(old(subscriptions)@, channel_name@),
        r.1@ == subscribe_frame(channel_name@, final(subscriptions)@.len() as u64),
{
    let rx = db.subscribe(channel_name.clone());
    subscriptions.insert(channel_name.as_str());
    let response = make_subscribe_frame(channel_name, subscriptions.len());
    (rx, response)
}

/// What waiting on the receiver of a channel comes to.
pub enum Received {
    /// A message.
    Message(Bytes),
    /// The receiver fell behind, and this many messages were lost to it.
    Lagged(u64),
    /// The channel is closed.
    Closed,
}

/// What the stream of a channel's messages does next.
pub enum StreamAction {
    /// Hand the message on to the session.
    Yield(Bytes),
    /// Wait on the receiver again.
    Continue,
    /// End the stream.
    End,
}

/// Decides what the stream of a channel's messages does with what waiting on
/// the receiver came to. A message is handed on as it is. A receiver that
/// fell behind goes on with the messages that are left: delivery is best
/// effort. A closed channel ends its stream, and not the session.
pub fn on_received(outcome: Received) -> (action: StreamAction)
    ensures
        match outcome {
            Received::Message(msg) => action is Yield && action->Yield_0 == msg,
            Received::Lagged(_) => action is Continue,
            Received::Closed => action is End,
        },
{
    match outcome {
        Received::Message(msg) => StreamAction::Yield(msg),
        Received::Lagged(_) => StreamAction::Continue,
        Received::Closed => StreamAction::End,
    }
}

/// Something that happens to a subscribe session.
pub enum SessionEvent {
    /// A message was published on a channel of the session.
    Message { channel: String, payload: Bytes },
    /// The client sent a frame.
    Frame(Frame),
    /// The client closed the connection.
    Closed,
    /// Reading from the client failed.
    ReadError,
    /// The server shuts down.
    Shutdown,
}

/// What a subscribe session does next.
pub enum SessionAction {
    /// Send the frame to the client and go on.
    Send(Frame),
    /// Go on.
    Continue,
    /// End the session in good order.
    Finish,
    /// End the session with the read error.
    Fail,
}

/// What a session event is, with its frames and payloads as what they mean.
pub enum SessionEventView {
    Message { channel: Seq<char>, payload: Seq<u8> },
    Frame(FrameView),
    Closed,
    ReadError,
    Shutdown,
}

impl View for SessionEvent {
    type V = SessionEventView;

    open spec fn view(&self) -> SessionEventView {
        match self {
            SessionEvent::Message { channel, payload } => SessionEventView::Message {
                channel: channel@,
                payload: bytes_contents(*payload),
            },
            SessionEvent::Frame(frame) => SessionEventView::Frame(frame@),
            SessionEvent::Closed => SessionEventView::Closed,
            SessionEvent::ReadError => SessionEventView::ReadError,
            SessionEvent::Shutdown => SessionEventView::Shutdown,
        }
    }
}

/// What a session action is, with its frame as what it means.
pub enum SessionActionView {
    Send(FrameView),
    Continue,
    Finish,
    Fail,
}

impl View for SessionAction {
    type V = SessionActionView;

    open spec fn view(&self) -> SessionActionView {
        match self {
            SessionAction::Send(frame) => SessionActionView::Send(frame@),
            SessionAction::Continue => SessionActionView::Continue,
            SessionAction::Finish => SessionActionView::Finish,
            SessionAction::Fail => SessionActionView::Fail,
        }
    }
}

/// The rule of a subscribe session. A published message goes to the client.
/// The simple frame `shutdown` from the client ends the session, as do the
/// end of the connection and the shutdown of the server; any other frame
/// from the client is passed over. A read error ends the session with that
/// error.
pub open spec fn session_step(event: SessionEventView) -> SessionActionView {
    match event {
        SessionEventView::Message { channel, payload } => SessionActionView::Send(
            message_frame(channel, payload),
        ),
        SessionEventView::Frame(frame) => if frame == FrameView::Simple("shutdown"@) {
            SessionActionView::Finish
        } else {
            SessionActionView::Continue
        },
        SessionEventView::Closed => SessionActionView::Finish,
        SessionEventView::ReadError => SessionActionView::Fail,
        SessionEventView::Shutdown => SessionActionView::Finish,
    }
}

impl Subscribe {
    /// The command that subscribes to `channels`.
    pub fn new(channels: Vec<String>) -> (r: Subscribe)
        ensures
            r@.channels == texts_view(channels@),
    {
        Subscribe { channels }
    }

    /// Reads the fields of a `SUBSCRIBE` command, whose name was read
    /// already.
    pub fn parse_frames(parse: &mut Parse) -> (r: Result<Subscribe, ParseError>)
        ensures
            reports(r, subscribe_fields(old(parse).remaining())),
            r is Ok ==> final(parse).remaining() == subscribe_fields(old(parse).remaining())->rest,
    {
        let ghost args = parse.remaining();
        let first = match parse.next_string() {
            Ok(first) => first,
            Err(e) => {
                return Err(e);
            },
        };
        let mut channels: Vec<String> = Vec::new();
        channels.push(first);
        assert(texts_view(channels@) =~= seq![text_of(args[0])->0]);
        loop
            invariant
                args == old(parse).remaining(),
                args.len() > 0,
                text_of(args[0]) is Some,
                channels@.len() > 0,
                texts_of(args) == match texts_of(parse.remaining()) {
                    Some(others) => Some(texts_view(channels@) + others),
                    None => None,
                },
            ensures
                reports(Ok::<Subscribe, ParseError>(Subscribe { channels }), subscribe_fields(args)),
                parse.remaining() == Seq::<FrameView>::empty(),
            decreases parse.remaining().len(),
        {
            let ghost left = parse.remaining();
            let ghost before = texts_view(channels@);
            match parse.next_string() {
                Ok(channel) => {
                    channels.push(channel);
                    proof {
                        assert(texts_view(channels@) =~= before.push(channel@));
                        let others = texts_of(left.skip(1));
                        if others is Some {
                            assert(before + (seq![channel@] + others->0) =~= before.push(
                                channel@,
                            ) + others->0);
                        }
                    }
                },
                Err(ParseError::EndOfStream) => {
                    proof {
                        assert(left =~= Seq::<FrameView>::empty());
                        assert(texts_view(channels@) + Seq::<Seq<char>>::empty() =~= texts_view(
                            channels@,
                        ));
                    }
                    break;
                },
                Err(e) => {
                    return Err(e);
                },
            }
        }
        Ok(Subscribe { channels })
    }

    /// The channels, in the order given.
    pub fn into_channels(self) -> (r: Vec<String>)
        ensures
            texts_view(r@) == self@.channels,
    {
        self.channels
    }

    /// Decides what a subscribe session does on `event`.
    pub fn on_event(event: SessionEvent) -> (action: SessionAction)
        ensures
            action@ == session_step(event@),
    {
        match event {
            SessionEvent::Message { channel, payload } => SessionAction::Send(
                make_message_frame(channel, payload),
            ),
            SessionEvent::Frame(frame) => match frame {
                Frame::Simple(text) => if text_eq(text.as_str(), "shutdown") {
                    SessionAction::Finish
                } else {
                    SessionAction::Continue
                },
                _ => SessionAction::Continue,
            },
            SessionEvent::Closed => SessionAction::Finish,
            SessionEvent::ReadError => SessionAction::Fail,
            SessionEvent::Shutdown => SessionAction::Finish,
        }
    }

    /// The request that carries this command.
    pub fn into_frame(self) -> (frame: Frame)
        ensures
            frame@ == subscribe_request(self@),
    {
        let mut frame = Frame::array();
        frame.push_bulk(Bytes::copy_from_slice("subscribe".as_bytes()));
        let ghost head = seq![FrameView::Bulk(encode_utf8("subscribe"@))];
        let ghost all = texts_view(self.channels@);
        let mut channels = self.channels;
        let mut i: usize = 0;
        assert(frame@->Array_0 =~= with_channels(head, all.take(0)));
        while i < channels.len()
            invariant
                i <= channels.len(),
                all == texts_view(channels@),
                frame@ == FrameView::Array(with_channels(head, all.take(i as int))),
            decreases channels.len() - i,
        {
            let channel = channels[i].clone();
            frame.push_bulk(bytes_from_string(channel));
            assert(frame@->Array_0 =~= with_channels(head, all.take(i + 1)));
            i += 1;
        }
        assert(all.take(i as int) =~= all);
        frame
    }
}

} // verus!
