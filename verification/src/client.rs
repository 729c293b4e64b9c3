//! Clients.
use std::collections::VecDeque;

use vstd::prelude::*;
use vstd::string::StringExecFns;
use websocket::{CloseData, OwnedMessage};

use crate::compat;
use crate::layout;
use crate::msgpack;
use crate::numerals;
use crate::protocol;
use crate::protocol::{ClientPacket, NodePacket, NodeRequest, NodeResponse};

verus! {

/// The messages of `websocket`, whose variants verified code tells apart.
#[verifier::external_type_specification]
pub struct ExOwnedMessage(websocket::OwnedMessage);

/// What a close message says, whose fields verified code reads.
#[verifier::external_type_specification]
pub struct ExCloseData(websocket::CloseData);

/// How many seconds a client has for its handshake.
pub const CLIENT_HANDSHAKE_TIMEOUT_SECS: u64 = 3;

/// Why a connection is closed, as a mathematical value: a status code and a reason.
#[verifier::ext_equal]
pub struct CloseSpec {
    pub status_code: u16,
    pub reason: Seq<char>,
}

/// A websocket message as a mathematical value.
#[verifier::ext_equal]
pub enum MessageSpec {
    Text(Seq<char>),
    Binary(Seq<u8>),
    Close(Option<CloseSpec>),
    Ping(Seq<u8>),
    Pong(Seq<u8>),
}

/// The value of what a close message says.
pub open spec fn close_view(data: CloseData) -> CloseSpec {
    CloseSpec { status_code: data.status_code, reason: data.reason@ }
}

/// The value of an optional close data.
pub open spec fn closing_view(data: Option<CloseData>) -> Option<CloseSpec> {
    match data {
        Some(data) => Some(close_view(data)),
        None => None,
    }
}

/// The value of a message.
pub open spec fn message_view(message: OwnedMessage) -> MessageSpec {
    match message {
        OwnedMessage::Text(text) => MessageSpec::Text(text@),
        OwnedMessage::Binary(data) => MessageSpec::Binary(data@),
        OwnedMessage::Close(data) => MessageSpec::Close(closing_view(data)),
        OwnedMessage::Ping(data) => MessageSpec::Ping(data@),
        OwnedMessage::Pong(data) => MessageSpec::Pong(data@),
    }
}

/// The values of messages.
pub open spec fn messages_view(messages: Seq<OwnedMessage>) -> Seq<MessageSpec> {
    messages.map_values(|message: OwnedMessage| message_view(message))
}

/// The value of the message that a socket yields; `None` at its end.
pub open spec fn received_view(message: Option<OwnedMessage>) -> Option<MessageSpec> {
    match message {
        Some(message) => Some(message_view(message)),
        None => None,
    }
}

/// A websocket client.
pub struct Client {
    msg_queue: VecDeque<OwnedMessage>,
    closing: Option<CloseData>,
    close_sent: bool,
    max_packet_size: usize,
}

/// A client as a mathematical value.
#[verifier::ext_equal]
pub struct ClientSpec {
    /// The messages that have not been sent yet, oldest first.
    pub queue: Seq<MessageSpec>,
    /// Why the connection is closed; `None` while it is open.
    pub closing: Option<CloseSpec>,
    /// Whether the final close message has been handed over.
    pub close_sent: bool,
    /// The size of the largest packet that is read, in bytes.
    pub max_packet_size: nat,
}

impl ClientSpec {
    /// The client with one more message in its queue, unless the connection is closed.
    pub open spec fn with_message(self, message: MessageSpec) -> ClientSpec {
        if self.closing is Some {
            self
        } else {
            ClientSpec { queue: self.queue.push(message), ..self }
        }
    }

    /// The client after its connection was closed.
    pub open spec fn closed(self, status_code: u16, reason: Seq<char>) -> ClientSpec {
        ClientSpec { closing: Some(CloseSpec { status_code, reason }), ..self }
    }

    /// Whether a close message has been handed over only if the connection is closed.
    pub open spec fn well_formed(self) -> bool {
        self.close_sent ==> self.closing is Some
    }

    /// The messages that are sent when the client is polled: all messages of the queue or, once
    /// the connection is closed, a final close message, which is sent only once.
    pub open spec fn outgoing(self) -> Seq<MessageSpec> {
        match self.closing {
            Some(data) => if self.close_sent {
                Seq::empty()
            } else {
                seq![MessageSpec::Close(Some(data))]
            },
            None => self.queue,
        }
    }

    /// The client after the messages were handed over.
    pub open spec fn sent(self) -> ClientSpec {
        match self.closing {
            Some(_) => ClientSpec { close_sent: true, ..self },
            None => ClientSpec { queue: Seq::empty(), ..self },
        }
    }

    /// Whether there is a rule for a message: for the end of the socket, for packets that are too
    /// large, for pings, and for all that comes after the connection was closed.
    pub open spec fn handles(self, message: Option<MessageSpec>) -> bool {
        match message {
            None => true,
            Some(_) if self.closing is Some => true,
            Some(MessageSpec::Binary(data)) => data.len() > self.max_packet_size,
            Some(MessageSpec::Ping(_)) => true,
            Some(_) => false,
        }
    }

    /// The client after a message for which there is a rule, and what is to be done next. A closed
    /// connection receives no more messages.
    pub open spec fn received(self, message: Option<MessageSpec>) -> (ClientSpec, Received) {
        match message {
            None => (self, Received::Finished),
            Some(_) if self.closing is Some => (self, Received::Wait),
            Some(MessageSpec::Ping(payload)) => (
                self.with_message(MessageSpec::Pong(payload)),
                Received::Continue,
            ),
            Some(MessageSpec::Binary(_)) => (
                self.closed(1009, too_large(self.max_packet_size)),
                Received::Wait,
            ),
            Some(_) => (self, Received::Wait),
        }
    }
}

/// The reason for which a connection is closed after a packet that is too large.
pub open spec fn too_large(max_packet_size: nat) -> Seq<char> {
    "Packet too large (exceeds "@ + numerals::decimal(max_packet_size) + " bytes)"@
}

impl View for Client {
    type V = ClientSpec;

    closed spec fn view(&self) -> ClientSpec {
        ClientSpec {
            queue: messages_view(self.msg_queue@),
            closing: closing_view(self.closing),
            close_sent: self.close_sent,
            max_packet_size: self.max_packet_size as nat,
        }
    }
}

/// What a client does first when it is polled.
pub enum Outgoing {
    /// Sends these messages in this order, flushes them and goes on to read messages.
    Queue(Vec<OwnedMessage>),
    /// Sends this final message and ends when it has been flushed.
    Close(OwnedMessage),
    /// Sends nothing more and ends when the final message has been flushed.
    Flush,
}

impl Outgoing {
    /// The messages that are sent.
    pub open spec fn messages(self) -> Seq<MessageSpec> {
        match self {
            Outgoing::Queue(messages) => messages_view(messages@),
            Outgoing::Close(message) => seq![message_view(message)],
            Outgoing::Flush => Seq::empty(),
        }
    }
}

/// What a client does after it has received a message.
#[derive(Debug, Clone, Copy, PartialEq, Eq, Structural)]
pub enum Received {
    /// Reads the next message.
    Continue,
    /// Waits until it is polled again.
    Wait,
    /// Ends, because the socket was closed.
    Finished,
}

impl Client {
    /// Creates a client with an open connection and an empty queue.
    pub fn new(max_packet_size: usize) -> (r: Client)
        ensures
            r@ == (ClientSpec {
                queue: Seq::empty(),
                closing: None,
                close_sent: false,
                max_packet_size: max_packet_size as nat,
            }),
    {
        let client = Client {
            msg_queue: VecDeque::new(),
            closing: None,
            close_sent: false,
            max_packet_size,
        };
        assert(client@.queue =~= Seq::empty());
        client
    }

    /// Returns true if this connection is considered closed and will not receive nor send any more
    /// messages.
    pub fn is_closed(&self) -> (r: bool)
        ensures
            r == self@.closing is Some,
    {
        self.closing.is_some()
    }

    /// Returns whether there are messages to be sent.
    pub fn has_outgoing(&self) -> (r: bool)
        ensures
            r == (self@.outgoing().len() > 0),
    {
        if self.is_closed() {
            !self.close_sent
        } else {
            self.msg_queue.len() > 0
        }
    }

    /// Sends a websocket message.
    ///
    /// (actually just puts it in a queue)
    pub fn send_msg(&mut self, message: OwnedMessage)
        ensures
            final(self)@ == old(self)@.with_message(message_view(message)),
    {
        if self.is_closed() {
            return;
        }
        self.msg_queue.push_back(message);
        assert(self@.queue =~= old(self)@.queue.push(message_view(message)));
    }

    /// Sends a packet to the client, given in its encoded form; `None` stands for a packet that
    /// could not be encoded, of which nothing is sent.
    pub fn send(&mut self, packet: Option<Vec<u8>>)
        ensures
            final(self)@ == match packet {
                Some(data) => old(self)@.with_message(MessageSpec::Binary(data@)),
                None => old(self)@,
            },
    {
        if let Some(data) = packet {
            self.send_msg(OwnedMessage::Binary(data));
        }
    }

    /// Marks this connection as closed with the given status and reason text.
    ///
    /// This will send a final close message through the websocket when the client is polled, unless
    /// one has been sent already.
    pub fn close(&mut self, status_code: u16, reason: String)
        ensures
            final(self)@ == old(self)@.closed(status_code, reason@),
    {
        self.closing = Some(CloseData { status_code, reason });
    }

    /// Starts to poll the client: takes the messages that are to be sent.
    pub fn poll(&mut self) -> (r: Outgoing)
        ensures
            r.messages() == old(self)@.outgoing(),
            r is Queue == old(self)@.closing is None,
            r is Close == (old(self)@.closing is Some && !old(self)@.close_sent),
            final(self)@ == old(self)@.sent(),
    {
        if let Some(data) = &self.closing {
            if self.close_sent {
                return Outgoing::Flush;
            }
            let data = CloseData { status_code: data.status_code, reason: data.reason.clone() };
            self.close_sent = true;
            return Outgoing::Close(OwnedMessage::Close(Some(data)));
        }
        let mut messages: Vec<OwnedMessage> = Vec::new();
        while self.msg_queue.len() > 0
            invariant
                messages@ + self.msg_queue@ == old(self).msg_queue@,
                self.closing == old(self).closing,
                self.close_sent == old(self).close_sent,
                self.max_packet_size == old(self).max_packet_size,
            decreases self.msg_queue@.len(),
        {
            match self.msg_queue.pop_front() {
                Some(message) => messages.push(message),
                None => {},
            }
        }
        assert(messages@ =~= old(self).msg_queue@);
        assert(self@.queue =~= Seq::empty());
        Outgoing::Queue(messages)
    }

    /// Returns whether there is a rule for a message from the socket: for its end, for packets
    /// that are too large, for pings, and for all that comes after the connection was closed.
    pub fn handles(&self, message: &Option<OwnedMessage>) -> (r: bool)
        ensures
            r == self@.handles(received_view(*message)),
    {
        if self.is_closed() {
            return true;
        }
        match message {
            None => true,
            Some(OwnedMessage::Binary(data)) => data.len() > self.max_packet_size,
            Some(OwnedMessage::Ping(_)) => true,
            Some(_) => false,
        }
    }

    /// Handles a message from the socket; `None` stands for its end.
    pub fn receive(&mut self, message: Option<OwnedMessage>) -> (r: Received)
        requires
            old(self)@.handles(received_view(message)),
        ensures
            (final(self)@, r) == old(self)@.received(received_view(message)),
    {
        let message = match message {
            Some(message) => message,
            None => return Received::Finished,
        };
        if self.is_closed() {
            return Received::Wait;
        }
        match message {
            OwnedMessage::Ping(payload) => {
                self.send_msg(OwnedMessage::Pong(payload));
                Received::Continue
            },
            OwnedMessage::Binary(_) => {
                let mut reason = "Packet too large (exceeds ".to_owned();
                reason.append(numerals::decimal_text(self.max_packet_size).as_str());
                reason.append(" bytes)");
                self.close(1009, reason);
                Received::Wait
            },
            _ => Received::Wait,
        }
    }
}

/// What becomes of a connection after its first message.
pub enum Accepted {
    /// The connection becomes a client, to which this packet is sent first.
    Client(Client, NodePacket),
    /// The connection is dropped after this packet has been sent.
    Rejected(NodePacket),
    /// The connection is dropped.
    Ignored,
}

/// What becomes of a connection after its first message, as a mathematical value.
pub enum AcceptedSpec {
    Client(ClientSpec, protocol::NodePacketSpec),
    Rejected(protocol::NodePacketSpec),
    Ignored,
}

impl View for Accepted {
    type V = AcceptedSpec;

    open spec fn view(&self) -> AcceptedSpec {
        match *self {
            Accepted::Client(client, reply) => AcceptedSpec::Client(client@, reply@),
            Accepted::Rejected(reply) => AcceptedSpec::Rejected(reply@),
            Accepted::Ignored => AcceptedSpec::Ignored,
        }
    }
}

/// The answer to the handshake request with the given ID of a client that speaks the given version
/// of the protocol.
pub open spec fn handshake_reply(id: u8, version: compat::VersionSpec) -> protocol::NodePacketSpec {
    protocol::NodePacketSpec::Response(
        id,
        Ok(
            protocol::NodeResponseSpec::Handshake {
                version: compat::server_version_spec(),
                compatible: compat::is_compatible_spec(version),
            },
        ),
    )
}

/// What becomes of a connection after a handshake request.
pub open spec fn handshaken(
    id: u8,
    version: compat::VersionSpec,
    max_packet_size: nat,
) -> AcceptedSpec {
    let reply = handshake_reply(id, version);
    if compat::is_compatible_spec(version) {
        AcceptedSpec::Client(
            ClientSpec { queue: Seq::empty(), closing: None, close_sent: false, max_packet_size },
            reply,
        )
    } else {
        AcceptedSpec::Rejected(reply)
    }
}

/// What becomes of a connection after its first message.
pub open spec fn accepted_of(message: Option<MessageSpec>, max_packet_size: nat) -> AcceptedSpec {
    match message {
        Some(MessageSpec::Binary(data)) => match protocol::packet_of(data) {
            Ok(
                protocol::ClientPacketSpec::Request(
                    protocol::NodeRequestSpec::Handshake { id, version },
                ),
            ) => handshaken(id, version, max_packet_size),
            Err(_) => AcceptedSpec::Ignored,
        },
        _ => AcceptedSpec::Ignored,
    }
}

/// Whether the first message of a connection is no packet, or one that can be handled.
pub open spec fn acceptable(message: Option<MessageSpec>) -> bool {
    message matches Some(MessageSpec::Binary(data)) ==> protocol::supported(data)
}

/// The state of a connection that waits for a handshake in time.
#[derive(Debug, Clone, Copy, PartialEq, Eq, Structural)]
pub struct ClientAccept {
    /// Whether the timer is running.
    pub timeout: bool,
    /// Whether a client has been accepted.
    pub did_accept: bool,
}

/// What the timer shows.
#[derive(Debug, Clone, Copy, PartialEq, Eq, Structural)]
pub enum Timer {
    /// There is time left.
    NotReady,
    /// The time is over.
    Elapsed,
    /// The timer has failed.
    Failed,
}

/// What is done with a connection after a look at the timer.
#[derive(Debug, Clone, Copy, PartialEq, Eq, Structural)]
pub enum AcceptStep {
    /// The connection goes on.
    Proceed,
    /// The connection is dropped, because its handshake timed out.
    Drop,
    /// The connection ends with an error.
    Fail,
}

impl ClientAccept {
    /// A connection that has just been made.
    pub fn new() -> (r: ClientAccept)
        ensures
            r == (ClientAccept { timeout: true, did_accept: false }),
    {
        ClientAccept { timeout: true, did_accept: false }
    }

    /// What is done after a look at the timer, which counts only while it is running, and the
    /// state after that. The timer is no longer needed when it elapses after the handshake.
    pub open spec fn polled(self, timer: Timer) -> (ClientAccept, AcceptStep) {
        if !self.timeout {
            (self, AcceptStep::Proceed)
        } else {
            match timer {
                Timer::NotReady => (self, AcceptStep::Proceed),
                Timer::Elapsed => if self.did_accept {
                    (ClientAccept { timeout: false, ..self }, AcceptStep::Proceed)
                } else {
                    (self, AcceptStep::Drop)
                },
                Timer::Failed => (self, AcceptStep::Fail),
            }
        }
    }

    /// Decides what is done with the connection after a look at the timer.
    pub fn poll(&mut self, timer: Timer) -> (r: AcceptStep)
        ensures
            (*final(self), r) == old(self).polled(timer),
    {
        if !self.timeout {
            return AcceptStep::Proceed;
        }
        match timer {
            Timer::NotReady => AcceptStep::Proceed,
            Timer::Elapsed => {
                if self.did_accept {
                    self.timeout = false;
                    AcceptStep::Proceed
                } else {
                    AcceptStep::Drop
                }
            },
            Timer::Failed => AcceptStep::Fail,
        }
    }
}

/// Whether a packet answers the handshake request with the given ID: it gives the version 1.0.0 and
/// says whether the client is compatible.
pub open spec fn is_reply(packet: NodePacket, id: u8, compatible: bool) -> bool {
    packet matches NodePacket::Response(to, Ok(NodeResponse::Handshake { version, compatible: c }))
        && {
        &&& to == id && c == compatible
        &&& version.major == 1 && version.minor == 0 && version.patch == 0
        &&& version.pre@.len() == 0 && version.build@.len() == 0
    }
}

/// Answers a handshake request: a client that speaks a compatible version of the protocol is
/// accepted.
pub fn answer_handshake(id: u8, version: &semver::Version, max_packet_size: usize) -> (r: Accepted)
    ensures
        r@ == handshaken(id, compat::version_view(*version), max_packet_size as nat),
        r is Client || r is Rejected,
        r is Client <==> version.major == 1 && version.pre@.len() == 0,
        r matches Accepted::Client(client, reply) ==> {
            &&& is_reply(reply, id, true)
            &&& client@.max_packet_size == max_packet_size
            &&& client@.queue.len() == 0 && client@.closing is None && !client@.close_sent
        },
        r matches Accepted::Rejected(reply) ==> is_reply(reply, id, false),
{
    let compatible = compat::is_compatible(version);
    let reply = NodePacket::Response(
        id,
        Ok(NodeResponse::Handshake { version: compat::server_version(), compatible }),
    );
    if compatible {
        Accepted::Client(Client::new(max_packet_size), reply)
    } else {
        Accepted::Rejected(reply)
    }
}

/// Returns whether the first message of a connection can be handed to `accept`.
pub fn is_acceptable(message: &Option<OwnedMessage>) -> (r: bool)
    ensures
        r == acceptable(received_view(*message)),
{
    match message {
        Some(OwnedMessage::Binary(data)) => ClientPacket::is_supported(data.as_slice()),
        _ => true,
    }
}

/// Accepts a connection and creates a client if its first message is a handshake request.
pub fn accept(
    state: &mut ClientAccept,
    message: Option<OwnedMessage>,
    max_packet_size: usize,
) -> (r: Accepted)
    requires
        acceptable(received_view(message)),
    ensures
        r@ == accepted_of(received_view(message), max_packet_size as nat),
        *final(state) == (ClientAccept {
            did_accept: old(state).did_accept || r is Client,
            ..*old(state)
        }),
{
    let accepted = match &message {
        Some(OwnedMessage::Binary(data)) => match ClientPacket::deserialize(data.as_slice()) {
            Ok(ClientPacket::Request(NodeRequest::Handshake { id, version })) => answer_handshake(
                id,
                &version,
                max_packet_size,
            ),
            Err(_) => Accepted::Ignored,
        },
        _ => Accepted::Ignored,
    };
    if let Accepted::Client(..) = &accepted {
        state.did_accept = true;
    }
    accepted
}

/// Something that happens to a client.
pub enum Event {
    /// A message is sent to it.
    Send(MessageSpec),
    /// Its connection is closed.
    Close(u16, Seq<char>),
    /// It is polled, and sends what there is to send.
    Poll,
    /// It receives a message, or the end of its socket.
    Receive(Option<MessageSpec>),
}

impl ClientSpec {
    /// The client after an event.
    pub open spec fn after(self, event: Event) -> ClientSpec {
        match event {
            Event::Send(message) => self.with_message(message),
            Event::Close(status_code, reason) => self.closed(status_code, reason),
            Event::Poll => self.sent(),
            Event::Receive(message) => self.received(message).0,
        }
    }

    /// The client after events.
    pub open spec fn after_all(self, events: Seq<Event>) -> ClientSpec
        decreases events.len(),
    {
        if events.len() == 0 {
            self
        } else {
            self.after(events[0]).after_all(events.skip(1))
        }
    }

    /// The messages that the client sends during events, in order.
    pub open spec fn transcript(self, events: Seq<Event>) -> Seq<MessageSpec>
        decreases events.len(),
    {
        if events.len() == 0 {
            Seq::empty()
        } else {
            let sent = if events[0] is Poll {
                self.outgoing()
            } else {
                Seq::empty()
            };
            sent + self.after(events[0]).transcript(events.skip(1))
        }
    }
}

/// The messages that are owed to an open client after events: those sent to it, and an answer to
/// each of its pings.
pub open spec fn owed(events: Seq<Event>) -> Seq<MessageSpec>
    decreases events.len(),
{
    if events.len() == 0 {
        Seq::empty()
    } else {
        let message = match events[0] {
            Event::Send(message) => seq![message],
            Event::Receive(Some(MessageSpec::Ping(payload))) => seq![MessageSpec::Pong(payload)],
            _ => Seq::empty(),
        };
        message + owed(events.skip(1))
    }
}

/// Whether the client is polled during events.
pub open spec fn polls(events: Seq<Event>) -> bool {
    exists|i: int| 0 <= i < events.len() && (#[trigger] events[i]) is Poll
}

/// Whether the connection is closed again during events.
pub open spec fn closes(events: Seq<Event>) -> bool {
    exists|i: int| 0 <= i < events.len() && (#[trigger] events[i]) is Close
}

proof fn lemma_first_event(events: Seq<Event>)
    requires
        events.len() > 0,
    ensures
        polls(events) == (events[0] is Poll || polls(events.skip(1))),
        closes(events) == (events[0] is Close || closes(events.skip(1))),
{
    let rest = events.skip(1);
    if polls(rest) {
        let i = choose|i: int| 0 <= i < rest.len() && (#[trigger] rest[i]) is Poll;
        assert(events[i + 1] is Poll);
    }
    if closes(rest) {
        let i = choose|i: int| 0 <= i < rest.len() && (#[trigger] rest[i]) is Close;
        assert(events[i + 1] is Close);
    }
    if polls(events) && !(events[0] is Poll) {
        let i = choose|i: int| 0 <= i < events.len() && (#[trigger] events[i]) is Poll;
        assert(rest[i - 1] is Poll);
    }
    if closes(events) && !(events[0] is Close) {
        let i = choose|i: int| 0 <= i < events.len() && (#[trigger] events[i]) is Close;
        assert(rest[i - 1] is Close);
    }
}

/// A client stays well-formed, whatever happens to it.
pub proof fn law_client_stays_well_formed(client: ClientSpec, events: Seq<Event>)
    requires
        client.well_formed(),
    ensures
        client.after_all(events).well_formed(),
    decreases events.len(),
{
    if events.len() > 0 {
        law_client_stays_well_formed(client.after(events[0]), events.skip(1));
    }
}

/// A closed connection stays closed, and no message enters its queue. All that it sends from then
/// on is one close message: it does so when it is polled for the first time.
pub proof fn law_closed_stays_closed(client: ClientSpec, events: Seq<Event>)
    requires
        client.closing is Some,
    ensures
        client.after_all(events).closing is Some,
        client.after_all(events).queue == client.queue,
        client.after_all(events).close_sent == (client.close_sent || polls(events)),
        client.transcript(events).len() == if !client.close_sent && polls(events) {
            1nat
        } else {
            0nat
        },
        forall|i: int|
            0 <= i < client.transcript(events).len() ==> (
            #[trigger] client.transcript(events)[i]) is Close,
    decreases events.len(),
{
    if events.len() > 0 {
        lemma_first_event(events);
        law_closed_stays_closed(client.after(events[0]), events.skip(1));
    }
}

/// As long as a connection is open, nothing that is owed to its client is lost, sent twice or
/// overtaken: what has been sent, and then what is left in the queue, is what was in the queue
/// before, and then what has become owed.
pub proof fn law_messages_are_sent_in_order(client: ClientSpec, events: Seq<Event>)
    requires
        client.after_all(events).closing is None,
    ensures
        client.transcript(events) + client.after_all(events).queue == client.queue + owed(events),
    decreases events.len(),
{
    if events.len() == 0 {
        assert(client.transcript(events) + client.queue =~= client.queue + owed(events));
    } else {
        let next = client.after(events[0]);
        let rest = events.skip(1);
        if next.closing is Some {
            law_closed_stays_closed(next, rest);
        }
        law_messages_are_sent_in_order(next, rest);
        let tail = next.transcript(rest) + next.after_all(rest).queue;
        match events[0] {
            Event::Poll => {
                assert(next.queue + owed(rest) =~= owed(rest));
                assert(client.transcript(events) + next.after_all(rest).queue =~= client.queue
                    + tail);
            },
            Event::Send(message) => {
                assert(client.queue.push(message) + owed(rest) =~= client.queue + owed(events));
            },
            Event::Receive(Some(MessageSpec::Ping(payload))) => {
                assert(client.queue.push(MessageSpec::Pong(payload)) + owed(rest) =~= client.queue
                    + owed(events));
            },
            _ => {},
        }
        assert(events[0] is Poll || client.transcript(events) =~= next.transcript(rest));
        assert(client.queue + owed(events) =~= client.transcript(events)
            + client.after_all(events).queue);
    }
}

proof fn lemma_final_close(client: ClientSpec, events: Seq<Event>)
    requires
        client.closing is Some,
        !client.close_sent,
        polls(events),
        !closes(events),
    ensures
        client.transcript(events) == seq![MessageSpec::Close(client.closing)],
    decreases events.len(),
{
    lemma_first_event(events);
    let next = client.after(events[0]);
    if events[0] is Poll {
        law_closed_stays_closed(next, events.skip(1));
        assert(client.transcript(events) =~= seq![MessageSpec::Close(client.closing)]);
    } else {
        lemma_final_close(next, events.skip(1));
        assert(client.transcript(events) =~= next.transcript(events.skip(1)));
    }
}

/// When an open connection is closed, all that is sent from then on is one close message with the
/// given status and reason, whatever the queue still holds and however often the client is polled.
pub proof fn law_close_is_final(
    client: ClientSpec,
    status_code: u16,
    reason: Seq<char>,
    events: Seq<Event>,
)
    requires
        client.well_formed(),
        client.closing is None,
        polls(events),
        !closes(events),
    ensures
        client.closed(status_code, reason).transcript(events) == seq![
            MessageSpec::Close(Some(CloseSpec { status_code, reason })),
        ],
{
    lemma_final_close(client.closed(status_code, reason), events);
}

/// Where a connection is closed twice before it is polled, the later status and reason count.
pub proof fn law_latest_close_counts(
    client: ClientSpec,
    first: (u16, Seq<char>),
    second: (u16, Seq<char>),
)
    ensures
        client.closed(first.0, first.1).closed(second.0, second.1) == client.closed(
            second.0,
            second.1,
        ),
{
}

impl ClientAccept {
    /// The state after looks at the timer.
    pub open spec fn polled_all(self, timers: Seq<Timer>) -> ClientAccept
        decreases timers.len(),
    {
        if timers.len() == 0 {
            self
        } else {
            self.polled(timers[0]).0.polled_all(timers.skip(1))
        }
    }
}

/// A connection whose handshake was accepted is never dropped for its age, and goes on as long as
/// the timer works.
pub proof fn law_accepted_in_time(state: ClientAccept, timers: Seq<Timer>, timer: Timer)
    requires
        state.did_accept,
    ensures
        state.polled_all(timers).did_accept,
        state.polled_all(timers).polled(timer).1 != AcceptStep::Drop,
        timer != Timer::Failed ==> state.polled_all(timers).polled(timer).1 == AcceptStep::Proceed,
    decreases timers.len(),
{
    if timers.len() > 0 {
        law_accepted_in_time(state.polled(timers[0]).0, timers.skip(1), timer);
    }
}

/// A connection without an accepted handshake is dropped when its time is over, and only then.
pub proof fn law_dropped_when_late(state: ClientAccept, timers: Seq<Timer>, timer: Timer)
    requires
        state.timeout && !state.did_accept,
    ensures
        state.polled_all(timers) == state,
        state.polled_all(timers).polled(timer).1 == AcceptStep::Drop <==> timer == Timer::Elapsed,
    decreases timers.len(),
{
    if timers.len() > 0 {
        law_dropped_when_late(state.polled(timers[0]).0, timers.skip(1), timer);
    }
}

/// A client is told the version of the node under the ID of its request, and that it is compatible
/// exactly if it is accepted. A client of the node's own version is.
pub proof fn law_reply_tells_the_outcome(
    id: u8,
    version: compat::VersionSpec,
    max_packet_size: nat,
)
    ensures
        handshaken(id, version, max_packet_size) is Client <==> {
            &&& version.pre.len() == 0
            &&& !compat::precedes_release(version, 1, 0, 0)
            &&& compat::precedes_release(version, 2, 0, 0)
        },
        match handshaken(id, version, max_packet_size) {
            AcceptedSpec::Client(client, reply) => reply == protocol::NodePacketSpec::Response(
                id,
                Ok(
                    protocol::NodeResponseSpec::Handshake {
                        version: compat::VersionSpec {
                            major: 1,
                            minor: 0,
                            patch: 0,
                            pre: Seq::empty(),
                            build: Seq::empty(),
                        },
                        compatible: true,
                    },
                ),
            ) && client == (ClientSpec {
                queue: Seq::empty(),
                closing: None,
                close_sent: false,
                max_packet_size,
            }),
            AcceptedSpec::Rejected(reply) => reply == protocol::NodePacketSpec::Response(
                id,
                Ok(
                    protocol::NodeResponseSpec::Handshake {
                        version: compat::VersionSpec {
                            major: 1,
                            minor: 0,
                            patch: 0,
                            pre: Seq::empty(),
                            build: Seq::empty(),
                        },
                        compatible: false,
                    },
                ),
            ),
            AcceptedSpec::Ignored => false,
        },
        version == compat::server_version_spec() ==> handshaken(
            id,
            version,
            max_packet_size,
        ) is Client,
{
}

/// A well-formed handshake request whose body gives a version is answered according to that
/// version. Where the body gives a text that is no version, the connection is dropped.
pub proof fn law_handshake_is_answered(
    head: Seq<u8>,
    entries: Seq<layout::Entry>,
    id: layout::Entry,
    packet_type: layout::Entry,
    req_type: layout::Entry,
    body: layout::Entry,
    map_head: Seq<u8>,
    key_head: Seq<u8>,
    text_head: Seq<u8>,
    text: Seq<u8>,
    tail: Seq<u8>,
    max_packet_size: nat,
)
    requires
        layout::is_map_head(head, entries.len()) && layout::well_formed(entries),
        entries.contains(id) && id.name() == protocol::id_key(),
        entries.contains(packet_type) && packet_type.name() == protocol::pakt_key(),
        entries.contains(req_type) && req_type.name() == protocol::reqt_key(),
        entries.contains(body) && body.name() == protocol::body_key(),
        msgpack::u8_of(packet_type.value) matches Some((n, _)) && n == 0,
        msgpack::u8_of(req_type.value) matches Some((n, _)) && n == 0,
        layout::is_map_head(map_head, 1),
        msgpack::str_head(key_head) == Some((3nat, key_head.len())),
        msgpack::str_head(text_head) == Some((text.len(), text_head.len())),
        vstd::utf8::valid_utf8(text),
        body.value == layout::version_body(map_head, key_head, text_head, text),
    ensures
        ({
            let message = Some(MessageSpec::Binary(layout::packet_bytes(head, entries) + tail));
            &&& acceptable(message)
            &&& accepted_of(message, max_packet_size) == match compat::parsed_version(
                vstd::utf8::decode_utf8(text),
            ) {
                Some(version) => handshaken(
                    msgpack::u8_of(id.value).unwrap().0,
                    version,
                    max_packet_size,
                ),
                None => AcceptedSpec::Ignored,
            }
        }),
{
    layout::law_handshake_is_read(head, entries, id, packet_type, req_type, body, tail);
    layout::law_version_is_read(map_head, key_head, text_head, text);
}

/// A message to an open connection goes to the end of the queue and changes nothing else; one to a
/// closed connection changes nothing.
pub proof fn law_sending_queues(client: ClientSpec, message: MessageSpec)
    ensures
        client.closing is None ==> {
            let after = client.with_message(message);
            &&& after.queue.len() == client.queue.len() + 1
            &&& after.queue.last() == message
            &&& after.queue.drop_last() == client.queue
            &&& after.closing is None && after.close_sent == client.close_sent
            &&& after.max_packet_size == client.max_packet_size
        },
        client.closing is Some ==> client.with_message(message) == client,
{
    if client.closing is None {
        assert(client.with_message(message).queue.drop_last() =~= client.queue);
    }
}

/// A poll of an open connection sends the whole queue, empties it and changes nothing else.
pub proof fn law_poll_sends_all(client: ClientSpec)
    requires
        client.closing is None,
    ensures
        client.outgoing() == client.queue,
        client.sent().queue.len() == 0,
        client.sent().closing is None,
        client.sent().close_sent == client.close_sent,
        client.sent().max_packet_size == client.max_packet_size,
{
}

/// To close a connection is to give it a status and a reason; the queue and the limit stay.
pub proof fn law_closing(client: ClientSpec, status_code: u16, reason: Seq<char>)
    ensures
        ({
            let after = client.closed(status_code, reason);
            &&& after.closing matches Some(data) && data.status_code == status_code && data.reason
                == reason
            &&& after.queue == client.queue && after.close_sent == client.close_sent
            &&& after.max_packet_size == client.max_packet_size
        }),
{
}

/// A ping with any payload is answered with exactly one pong with that payload: an open connection
/// stays open and goes on reading.
pub proof fn law_ping_is_answered(client: ClientSpec, payload: Seq<u8>)
    requires
        client.closing is None,
    ensures
        ({
            let (after, next) = client.received(Some(MessageSpec::Ping(payload)));
            &&& client.handles(Some(MessageSpec::Ping(payload)))
            &&& next == Received::Continue
            &&& after.closing is None && after.close_sent == client.close_sent
            &&& after.queue.len() == client.queue.len() + 1
            &&& after.queue.last() == MessageSpec::Pong(payload)
            &&& after.queue.drop_last() == client.queue
            &&& after.max_packet_size == client.max_packet_size
        }),
{
    assert(client.received(Some(MessageSpec::Ping(payload))).0.queue.drop_last() =~= client.queue);
}

/// A binary message closes an open connection if it is larger than the limit: with the status 1009
/// and a reason that gives the limit. Nothing is queued.
pub proof fn law_large_packet_closes(client: ClientSpec, data: Seq<u8>)
    requires
        client.closing is None,
        data.len() > client.max_packet_size,
    ensures
        ({
            let (after, next) = client.received(Some(MessageSpec::Binary(data)));
            &&& client.handles(Some(MessageSpec::Binary(data)))
            &&& next == Received::Wait
            &&& after.closing matches Some(close) && close.status_code == 1009 && close.reason
                == "Packet too large (exceeds "@ + numerals::decimal(client.max_packet_size)
                + " bytes)"@
            &&& after.queue == client.queue && after.close_sent == client.close_sent
        }),
{
}

/// An open connection is closed only by a call of `close` or by a binary message that is larger
/// than the limit, and by each of these.
pub proof fn law_what_closes(client: ClientSpec, event: Event)
    requires
        client.closing is None,
        event matches Event::Receive(message) ==> client.handles(message),
    ensures
        client.after(event).closing is Some <==> (event is Close || (event matches Event::Receive(
            Some(MessageSpec::Binary(data)),
        ) && data.len() > client.max_packet_size)),
{
}

/// The events during which an open connection stays open.
pub open spec fn leaves_open(events: Seq<Event>) -> bool {
    forall|i: int|
        0 <= i < events.len() ==> match #[trigger] events[i] {
            Event::Send(_) => true,
            Event::Close(_, _) => false,
            Event::Poll => true,
            Event::Receive(None) => true,
            Event::Receive(Some(MessageSpec::Ping(_))) => true,
            Event::Receive(Some(_)) => false,
        }
}

/// However many messages an open connection sends, and however many pings it receives, it stays
/// open, and nothing that is owed to its client is lost, sent twice or overtaken.
pub proof fn law_open_connections_serve(client: ClientSpec, events: Seq<Event>)
    requires
        client.closing is None,
        leaves_open(events),
    ensures
        client.after_all(events).closing is None,
        client.transcript(events) + client.after_all(events).queue == client.queue + owed(events),
    decreases events.len(),
{
    if events.len() > 0 {
        let next = client.after(events[0]);
        let rest = events.skip(1);
        assert(next.closing is None);
        assert forall|i: int| 0 <= i < rest.len() implies match #[trigger] rest[i] {
            Event::Send(_) => true,
            Event::Close(_, _) => false,
            Event::Poll => true,
            Event::Receive(None) => true,
            Event::Receive(Some(MessageSpec::Ping(_))) => true,
            Event::Receive(Some(_)) => false,
        } by {
            assert(rest[i] == events[i + 1]);
        }
        law_open_connections_serve(next, rest);
    }
    law_messages_are_sent_in_order(client, events);
}

/// A timer that is not running has no effect. One that is lets the connection go on until it
/// elapses, which stops it after the handshake and drops the connection before, and its failure
/// ends the connection.
pub proof fn law_timer(state: ClientAccept)
    ensures
        !state.timeout ==> forall|timer: Timer| #[trigger]
            state.polled(timer) == (state, AcceptStep::Proceed),
        state.timeout ==> {
            &&& state.polled(Timer::NotReady) == (state, AcceptStep::Proceed)
            &&& state.polled(Timer::Failed).1 == AcceptStep::Fail
            &&& state.polled(Timer::Elapsed).1 == (if state.did_accept {
                AcceptStep::Proceed
            } else {
                AcceptStep::Drop
            })
            &&& state.did_accept ==> !state.polled(Timer::Elapsed).0.timeout && state.polled(
                Timer::Elapsed,
            ).0.did_accept
        },
{
}

/// The end of the socket ends a client, whatever its state, and changes nothing.
pub proof fn law_end_of_socket(client: ClientSpec)
    ensures
        client.handles(None),
        client.received(None) == (client, Received::Finished),
{
}

/// There is a rule for a message to an open connection exactly if it is a ping or a binary message
/// that is larger than the limit. A closed connection takes no notice of any message.
pub proof fn law_handled_messages(client: ClientSpec, message: MessageSpec)
    ensures
        client.closing is None ==> (client.handles(Some(message)) <==> (message is Ping || (
        message matches MessageSpec::Binary(data) && data.len() > client.max_packet_size))),
        client.closing is Some ==> client.handles(Some(message)) && client.received(Some(message))
            == (client, Received::Wait),
{
}

/// The value of a message is its kind and all that it holds.
pub proof fn law_message_view(message: OwnedMessage)
    ensures
        match message {
            OwnedMessage::Text(text) => message_view(message) == MessageSpec::Text(text@),
            OwnedMessage::Binary(data) => message_view(message) == MessageSpec::Binary(data@),
            OwnedMessage::Close(None) => message_view(message) == MessageSpec::Close(None),
            OwnedMessage::Close(Some(data)) => message_view(message) == MessageSpec::Close(
                Some(CloseSpec { status_code: data.status_code, reason: data.reason@ }),
            ),
            OwnedMessage::Ping(data) => message_view(message) == MessageSpec::Ping(data@),
            OwnedMessage::Pong(data) => message_view(message) == MessageSpec::Pong(data@),
        },
        received_view(Some(message)) == Some(message_view(message)),
        received_view(None) is None,
{
}

/// What is handed over are the messages themselves, one by one.
pub proof fn law_outgoing_messages(outgoing: Outgoing)
    ensures
        outgoing is Flush ==> outgoing.messages().len() == 0,
        outgoing matches Outgoing::Close(message) ==> outgoing.messages() == seq![
            message_view(message),
        ],
        outgoing matches Outgoing::Queue(messages) ==> {
            &&& outgoing.messages().len() == messages@.len()
            &&& forall|i: int|
                0 <= i < messages@.len() ==> #[trigger] outgoing.messages()[i] == message_view(
                    messages@[i],
                )
        },
{
}

/// The first message of a connection gets an answer only if it is a packet that is read as a
/// handshake request; any other is ignored. It can be handled unless it is a packet of a kind that
/// is not implemented.
pub proof fn law_first_message(message: Option<MessageSpec>, max_packet_size: nat)
    ensures
        !(message is Some && message->0 is Binary) ==> acceptable(message) && accepted_of(
            message,
            max_packet_size,
        ) is Ignored,
        message matches Some(MessageSpec::Binary(data)) ==> {
            &&& acceptable(message) <==> protocol::supported(data)
            &&& protocol::packet_of(data) is Err <==> accepted_of(
                message,
                max_packet_size,
            ) is Ignored
            &&& protocol::packet_of(data) matches Ok(
                protocol::ClientPacketSpec::Request(
                    protocol::NodeRequestSpec::Handshake { id, version },
                ),
            ) ==> accepted_of(message, max_packet_size) == handshaken(id, version, max_packet_size)
        },
{
}

/// The value of what becomes of a connection is all that it holds.
pub proof fn law_accepted_view(accepted: Accepted)
    ensures
        match accepted {
            Accepted::Client(client, reply) => accepted@ == AcceptedSpec::Client(client@, reply@),
            Accepted::Rejected(reply) => accepted@ == AcceptedSpec::Rejected(reply@),
            Accepted::Ignored => accepted@ == AcceptedSpec::Ignored,
        },
{
}

} // verus!
