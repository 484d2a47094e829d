//! The connection manager: what a client sends to its elders, and what it makes of
//! what they send back.

use crate::elders::{addresses_view, joined_by, ElderRound, ElderStream, Round};
use crate::error::Error;
use crate::message_id::MessageId;
use crate::pending::{Pending, QueryKey};
use crate::tally::{fresh, QueryTally};
use crate::wire;
use crate::wire::{
    Contact, EnvelopeContents, HandshakeReply, HandshakeRequest, HandshakeResponse, Received, ReceivedEvent,
};
use bincode::ErrorKind;
use sn_data_types::{Keypair, TransferValidated};
use sn_messaging::{CmdError, Message, MsgSender};
use std::sync::Arc;
use vstd::prelude::*;

verus! {

/// The port that a client asks for: none in particular.
pub const CLIENT_PORT: u16 = 0;

/// The state of a [`ConnectionManager`].
#[verifier::reject_recursive_types(C)]
#[verifier::reject_recursive_types(T)]
#[verifier::reject_recursive_types(Q)]
pub ghost struct Connections<C, T, Q> {
    pub keypair: Keypair,
    pub simulated_payouts: bool,
    /// The elders that the client is connected to.
    pub elders: Seq<ElderStream<C>>,
    /// The callers that wait for the validation of a transfer, by the message that
    /// asks for it.
    pub pending_transfer_validations: Map<Seq<u8>, T>,
    /// The tasks that wait for the response to a query, by elder and message.
    pub pending_query_responses: Map<(Seq<char>, Seq<u8>), Q>,
}

/// Keeps the connections to several nodes, establishes new ones and sends messages,
/// as well as awaits responses from them. An elder is reached by a `C`, a caller
/// that waits for the validation of a transfer by a `T`, and a task that waits for
/// the response to a query by a `Q`.
pub struct ConnectionManager<C, T, Q> {
    keypair: Arc<Keypair>,
    simulated_payouts: bool,
    elders: Vec<ElderStream<C>>,
    pending_transfer_validations: Pending<MessageId, T>,
    pending_query_responses: Pending<QueryKey, Q>,
}

/// A message on its way to elders.
pub struct Broadcast<'a, C> {
    /// What is sent.
    pub msg_bytes: Vec<u8>,
    /// To whom it is sent.
    pub elders: &'a Vec<ElderStream<C>>,
}

/// A query on its way to elders.
pub struct QueryRound<'a, C> {
    /// The query, and to whom it is sent.
    pub broadcast: Broadcast<'a, C>,
    /// The identifier of the query.
    pub msg_id: MessageId,
    /// The election of the response.
    pub tally: QueryTally,
}

/// A message that came in at the endpoint.
pub enum EndpointMessage {
    /// On a stream that can be answered on.
    BiStream { bytes: Vec<u8> },
    /// On a stream that cannot.
    UniStream { bytes: Vec<u8> },
}

/// What is to be done with a message that came in.
pub enum Delivery<S> {
    /// The caller gets the validation that it waits for.
    Validated { sender: S, event: TransferValidated },
    /// The error goes to the client, and to the caller, if one waits.
    CmdError { waiting: Option<S>, error: CmdError },
    /// Nothing.
    Ignored,
}

/// The origin of a message that a client signs: the client, with its public key and its
/// signature over the encoding of the message alone.
pub open spec fn signed_origin(keypair: Keypair, message: Message) -> MsgSender {
    wire::client_sender(
        wire::public_key(keypair),
        wire::signature(keypair, wire::message_encoding(message)->Ok_0),
    )
}

/// The encoding of the envelope of a message that a client signs, which has passed no
/// proxies. Or why the message or the envelope has no encoding.
pub open spec fn signed_envelope(keypair: Keypair, message: Message) -> Result<
    Seq<u8>,
    ErrorKind,
> {
    match wire::message_encoding(message) {
        Ok(_) => wire::envelope_encoding(
            message,
            signed_origin(keypair, message),
            Seq::<MsgSender>::empty(),
        ),
        Err(error) => Err(error),
    }
}

/// Whether bytes are the envelope of a message that a client signs, and hold it.
pub open spec fn is_signed_envelope(bytes: Seq<u8>, keypair: Keypair, message: Message) -> bool {
    &&& wire::message_encoding(message) is Ok
    &&& signed_envelope(keypair, message) == Ok::<_, ErrorKind>(bytes)
    &&& wire::opens_to(
        bytes,
        message,
        signed_origin(keypair, message),
        Seq::<MsgSender>::empty(),
    )
}

/// The state once a caller waits for the validation of a transfer.
pub open spec fn awaiting_validation<C, T, Q>(
    connections: Connections<C, T, Q>,
    msg_id: Seq<u8>,
    sender: T,
) -> Connections<C, T, Q> {
    Connections {
        pending_transfer_validations: connections.pending_transfer_validations.insert(
            msg_id,
            sender,
        ),
        ..connections
    }
}

/// The addresses of contacts.
pub open spec fn socket_addrs(contacts: Seq<(Seq<u8>, Seq<char>)>) -> Seq<Seq<char>> {
    contacts.map_values(|contact: (Seq<u8>, Seq<char>)| contact.1)
}

/// How many of the results are failures.
pub open spec fn failures(results: Seq<bool>) -> nat
    decreases results.len(),
{
    if results.len() == 0 {
        0
    } else {
        failures(results.drop_last()) + if results.last() {
            0nat
        } else {
            1
        }
    }
}

/// Whether this is what is to be done with a message that came in, with these
/// callers waiting.
pub open spec fn is_delivery<T>(
    waiting: Map<Seq<u8>, T>,
    received: Received,
    delivery: Delivery<&T>,
) -> bool {
    match received {
        Received::Event {
            event: ReceivedEvent::TransferValidated(event),
            correlation_id,
        } => if waiting.contains_key(correlation_id@) {
            delivery == (Delivery::Validated { sender: &waiting[correlation_id@], event })
        } else {
            delivery is Ignored
        },
        Received::CmdError { error, correlation_id } => if waiting.contains_key(correlation_id@) {
            delivery == (Delivery::CmdError { waiting: Some(&waiting[correlation_id@]), error })
        } else {
            delivery == (Delivery::<&T>::CmdError { waiting: None, error })
        },
        _ => delivery is Ignored,
    }
}

/// Whether a result holds the encoding, or fails with the reason why there is none.
pub open spec fn is_encoding(
    encoded: Result<Vec<u8>, Error>,
    encoding: Result<Seq<u8>, ErrorKind>,
) -> bool {
    match encoded {
        Ok(bytes) => encoding == Ok::<_, ErrorKind>(bytes@),
        Err(error) => fails_with(error, encoding),
    }
}

/// Whether an error gives the reason for which a result is not there.
pub open spec fn fails_with<A>(error: Error, result: Result<A, ErrorKind>) -> bool {
    result matches Err(reason) && error == Error::Serialisation(Box::new(reason))
}

/// How many sends failed, where each result says whether one succeeded.
pub fn failed_sends(results: &Vec<bool>) -> (count: usize)
    ensures
        count == failures(results@),
{
    let mut count: usize = 0;
    let mut i: usize = 0;
    while i < results.len()
        invariant
            i <= results.len(),
            count <= i,
            count == failures(results@.take(i as int)),
        decreases results.len() - i,
    {
        assert(results@.take(i + 1).drop_last() =~= results@.take(i as int));
        if !results[i] {
            count += 1;
        }
        i += 1;
    }
    assert(results@.take(i as int) =~= results@);
    count
}

/// The elders to connect to by a handshake response.
///
/// There is no answer to a response that asks the client to bootstrap again.
pub fn elders_to_join(response: HandshakeResponse) -> (addresses: Result<Vec<String>, Error>)
    requires
        !(response is Rebootstrap),
    ensures
        match response@ {
            HandshakeReply::Join(elders) => addresses matches Ok(addresses) && addresses_view(
                addresses@,
            ) == socket_addrs(elders),
            _ => addresses matches Err(Error::UnexpectedMessageOnJoin),
        },
        response matches HandshakeResponse::Join(elders) ==> addresses matches Ok(addresses)
            && addresses.len() == elders.len() && forall|i: int|
            0 <= i < elders.len() ==> (#[trigger] addresses@[i])@ == elders@[i].socket_addr@,
{
    match response {
        HandshakeResponse::Join(elders) => Ok(contact_addresses(elders)),
        _ => Err(Error::UnexpectedMessageOnJoin),
    }
}

/// The addresses of contacts, in their order.
fn contact_addresses(contacts: Vec<Contact>) -> (addresses: Vec<String>)
    ensures
        addresses_view(addresses@) == socket_addrs(wire::contacts_view(contacts@)),
        addresses.len() == contacts.len(),
        forall|i: int|
            0 <= i < contacts.len() ==> (#[trigger] addresses@[i])@ == contacts@[i].socket_addr@,
{
    let mut addresses: Vec<String> = Vec::new();
    let mut i: usize = 0;
    while i < contacts.len()
        invariant
            i <= contacts.len(),
            addresses_view(addresses@) == socket_addrs(wire::contacts_view(contacts@)).take(
                i as int,
            ),
        decreases contacts.len() - i,
    {
        let ghost before = addresses@;
        addresses.push(contacts[i].socket_addr.clone());
        assert(addresses_view(addresses@) =~= addresses_view(before).push(
            contacts@[i as int].socket_addr@,
        ));
        assert(addresses_view(addresses@) =~= socket_addrs(wire::contacts_view(contacts@)).take(
            i + 1,
        ));
        i += 1;
    }
    assert(addresses_view(addresses@) =~= socket_addrs(wire::contacts_view(contacts@)));
    assert(addresses_view(addresses@).len() == contacts.len());
    assert forall|i: int| 0 <= i < contacts.len() implies (#[trigger] addresses@[i])@
        == contacts@[i].socket_addr@ by {
        assert(addresses_view(addresses@)[i] == socket_addrs(wire::contacts_view(contacts@))[i]);
    }
    addresses
}

impl<C, T, Q> View for ConnectionManager<C, T, Q> {
    type V = Connections<C, T, Q>;

    closed spec fn view(&self) -> Connections<C, T, Q> {
        Connections {
            keypair: *self.keypair,
            simulated_payouts: self.simulated_payouts,
            elders: self.elders@,
            pending_transfer_validations: self.pending_transfer_validations@,
            pending_query_responses: self.pending_query_responses@,
        }
    }
}

impl<C, T, Q> ConnectionManager<C, T, Q> {
    /// Whether nobody waits twice under the same key.
    pub closed spec fn wf(self) -> bool {
        self.pending_transfer_validations.wf() && self.pending_query_responses.wf()
    }

    /// Create a new connection manager, which is not connected to any elder and on
    /// which nobody waits. With simulated payouts, a longer history is preferred
    /// among responses with as many votes.
    pub fn new(keypair: Arc<Keypair>, simulated_payouts: bool) -> (manager: Self)
        ensures
            manager@ == (Connections {
                keypair: *keypair,
                simulated_payouts,
                elders: Seq::<ElderStream<C>>::empty(),
                pending_transfer_validations: Map::<Seq<u8>, T>::empty(),
                pending_query_responses: Map::<(Seq<char>, Seq<u8>), Q>::empty(),
            }),
            manager.wf(),
    {
        ConnectionManager {
            keypair,
            simulated_payouts,
            elders: Vec::new(),
            pending_transfer_validations: Pending::new(),
            pending_query_responses: Pending::new(),
        }
    }

    /// The elders that the client is connected to.
    pub fn elders(&self) -> (elders: &Vec<ElderStream<C>>)
        ensures
            elders@ == self@.elders,
    {
        &self.elders
    }

    /// The number of elders that the client is connected to.
    pub fn number_of_connected_elders(&self) -> (number: usize)
        ensures
            number == self@.elders.len(),
    {
        self.elders.len()
    }

    /// Put a `Message` in an envelope so it can be sent to the network.
    pub fn serialise_in_envelope(&self, message: &Message) -> (envelope: Result<Vec<u8>, Error>)
        ensures
            match envelope {
                Ok(bytes) => is_signed_envelope(bytes@, self@.keypair, *message),
                Err(error) => fails_with(error, signed_envelope(self@.keypair, *message)),
            },
    {
        let payload = match wire::encode_message(message) {
            Ok(payload) => payload,
            Err(error) => return Err(Error::Serialisation(error)),
        };
        let sign = wire::sign(&self.keypair, &payload);
        let origin = match wire::make_client_sender(wire::read_public_key(&self.keypair), sign) {
            Ok(origin) => origin,
            Err(error) => return Err(Error::DataTypes(error)),
        };
        match wire::encode_envelope(message, origin, Vec::new()) {
            Ok(bytes) => Ok(bytes),
            Err(error) => Err(Error::Serialisation(error)),
        }
    }

    /// What is sent, and to whom, to send a `Message` to the network without
    /// awaiting for a response: its envelope to all elders.
    pub fn send_cmd<'a>(&'a self, msg: &Message) -> (sent: Result<Broadcast<'a, C>, Error>)
        ensures
            match sent {
                Ok(broadcast) => {
                    &&& is_signed_envelope(broadcast.msg_bytes@, self@.keypair, *msg)
                    &&& broadcast.elders@ == self@.elders
                },
                Err(error) => fails_with(error, signed_envelope(self@.keypair, *msg)),
            },
    {
        match self.serialise_in_envelope(msg) {
            Ok(msg_bytes) => Ok(Broadcast { msg_bytes, elders: &self.elders }),
            Err(error) => Err(error),
        }
    }

    /// What is sent, and to whom, to have a transfer validated: the envelope of the
    /// message to all elders. The caller waits for the validations under the identifier
    /// of the message from then on, in place of the one that waited under it. Fails,
    /// and lets nobody wait, where the message has no envelope.
    pub fn send_transfer_validation<'a>(&'a mut self, msg: &Message, sender: T) -> (sent: Result<
        Broadcast<'a, C>,
        Error,
    >)
        requires
            old(self).wf(),
        ensures
            match sent {
                Ok(broadcast) => {
                    &&& is_signed_envelope(broadcast.msg_bytes@, old(self)@.keypair, *msg)
                    &&& broadcast.elders@ == old(self)@.elders
                    &&& final(self)@ == awaiting_validation(
                        old(self)@,
                        wire::message_id(*msg),
                        sender,
                    )
                },
                Err(error) => {
                    &&& fails_with(error, signed_envelope(old(self)@.keypair, *msg))
                    &&& final(self)@ == old(self)@
                },
            },
            final(self).wf(),
    {
        let msg_bytes = match self.serialise_in_envelope(msg) {
            Ok(msg_bytes) => msg_bytes,
            Err(error) => return Err(error),
        };
        self.await_transfer_validation(wire::read_message_id(msg), sender);
        Ok(Broadcast { msg_bytes, elders: &self.elders })
    }

    /// Lets a caller wait for the validations of a transfer under the identifier of the
    /// message that asks for them, in place of the one that waited under it.
    pub fn await_transfer_validation(&mut self, msg_id: MessageId, sender: T)
        requires
            old(self).wf(),
        ensures
            final(self)@ == awaiting_validation(old(self)@, msg_id@, sender),
            final(self).wf(),
    {
        self.pending_transfer_validations.insert(msg_id, sender);
    }

    /// What is sent, and to whom, to send a Query `Message` to the network, and the
    /// election of the response among those elders.
    pub fn send_query<'a>(&'a self, msg: &Message) -> (sent: Result<QueryRound<'a, C>, Error>)
        ensures
            match sent {
                Ok(round) => {
                    &&& is_signed_envelope(round.broadcast.msg_bytes@, self@.keypair, *msg)
                    &&& round.broadcast.elders@ == self@.elders
                    &&& round.msg_id@ == wire::message_id(*msg)
                    &&& round.tally@ == fresh(self@.elders.len(), self@.simulated_payouts)
                    &&& round.tally@.wf()
                },
                Err(error) => fails_with(error, signed_envelope(self@.keypair, *msg)),
            },
    {
        match self.serialise_in_envelope(msg) {
            Ok(msg_bytes) => Ok(
                QueryRound {
                    broadcast: Broadcast { msg_bytes, elders: &self.elders },
                    msg_id: wire::read_message_id(msg),
                    tally: QueryTally::new(self.elders.len(), self.simulated_payouts),
                },
            ),
            Err(error) => Err(error),
        }
    }

    /// Lets the task that sent a query to one elder wait for the response, in place
    /// of the one that waited for it.
    pub fn await_query_response(&mut self, socket_addr: String, msg_id: MessageId, sender: Q)
        requires
            old(self).wf(),
        ensures
            final(self)@ == (Connections {
                pending_query_responses: old(self)@.pending_query_responses.insert(
                    (socket_addr@, msg_id@),
                    sender,
                ),
                ..old(self)@
            }),
            final(self).wf(),
    {
        self.pending_query_responses.insert(QueryKey { socket_addr, msg_id }, sender);
    }

    /// What is sent to a node to obtain the list of nodes we should establish
    /// connections with.
    pub fn bootstrap_request(&self) -> (request: Result<Vec<u8>, Error>)
        ensures
            is_encoding(
                request,
                wire::handshake_encoding(
                    HandshakeRequest::Bootstrap(wire::public_key(self@.keypair)),
                ),
            ),
    {
        let public_key = wire::read_public_key(&self.keypair);
        match wire::encode_handshake(HandshakeRequest::Bootstrap(public_key)) {
            Ok(bytes) => Ok(bytes),
            Err(error) => Err(Error::Serialisation(error)),
        }
    }

    /// The elders to connect to by what a node answered to the bootstrap request,
    /// `None` where it asks the client to bootstrap again.
    pub fn bootstrap_and_handshake(&self, response: &[u8]) -> (addresses: Result<
        Option<Vec<String>>,
        Error,
    >)
        ensures
            match wire::decoded_handshake(response@) {
                Ok(HandshakeReply::Join(elders)) => addresses matches Ok(Some(addresses))
                    && addresses_view(addresses@) == socket_addrs(elders),
                Ok(HandshakeReply::Rebootstrap(_)) => addresses matches Ok(None),
                Ok(HandshakeReply::InvalidSection) => addresses matches Err(
                    Error::UnexpectedMessageOnJoin,
                ),
                Err(reason) => addresses matches Err(error) && error == Error::Serialisation(
                    Box::new(reason),
                ),
            },
    {
        match wire::decode_handshake(response) {
            Ok(HandshakeResponse::Rebootstrap(_)) => Ok(None),
            Ok(response) => match elders_to_join(response) {
                Ok(addresses) => Ok(Some(addresses)),
                Err(error) => Err(error),
            },
            Err(error) => Err(Error::Serialisation(error)),
        }
    }

    /// Starts to connect to the elders by what a node answered to the bootstrap
    /// request; `None` where it asks the client to bootstrap again.
    pub fn bootstrap(&self, response: &[u8]) -> (round: Result<Option<ElderRound>, Error>)
        ensures
            match wire::decoded_handshake(response@) {
                Ok(HandshakeReply::Join(elders)) => round matches Ok(Some(round)) && round@
                    == Round::start(socket_addrs(elders)),
                Ok(HandshakeReply::Rebootstrap(_)) => round matches Ok(None),
                Ok(HandshakeReply::InvalidSection) => round matches Err(
                    Error::UnexpectedMessageOnJoin,
                ),
                Err(reason) => round matches Err(error) && error == Error::Serialisation(
                    Box::new(reason),
                ),
            },
    {
        match self.bootstrap_and_handshake(response) {
            Ok(Some(addresses)) => Ok(Some(ElderRound::new(addresses))),
            Ok(None) => Ok(None),
            Err(error) => Err(error),
        }
    }

    /// What is sent to one specific elder to connect to it.
    pub fn connect_to_elder(&self) -> (request: Result<Vec<u8>, Error>)
        ensures
            is_encoding(
                request,
                wire::handshake_encoding(HandshakeRequest::Join(wire::public_key(self@.keypair))),
            ),
    {
        let public_key = wire::read_public_key(&self.keypair);
        match wire::encode_handshake(HandshakeRequest::Join(public_key)) {
            Ok(bytes) => Ok(bytes),
            Err(error) => Err(Error::Serialisation(error)),
        }
    }

    /// Takes what came of connecting to one of a set of Elders nodes: the elder, which
    /// will then be a recipient of our messages on the network, or `None` where it
    /// could not be connected to. Fails where too few elders are connected to and no
    /// more can be.
    pub fn connect_to_elders(
        &mut self,
        round: &mut ElderRound,
        result: Option<ElderStream<C>>,
    ) -> (going: Result<(), Error>)
        requires
            old(self).wf(),
            !old(round)@.finished(),
        ensures
            final(self)@ == (Connections {
                elders: joined_by(old(self)@.elders, result),
                ..old(self)@
            }),
            final(round)@ == old(round)@.after(final(self)@.elders.len()),
            if final(round)@.failed(final(self)@.elders.len()) {
                going matches Err(Error::InsufficientElderConnections)
            } else {
                going is Ok
            },
            final(self).wf(),
    {
        round.on_result(&mut self.elders, result)
    }

    /// Listen for incoming messages on a connection: the message that came in, as far
    /// as the client acts on it. Only messages on streams that cannot be answered on
    /// are supported.
    pub fn listen_on_endpoint(&self, message: EndpointMessage) -> (received: Result<
        Received,
        Error,
    >)
        requires
            message is UniStream,
        ensures
            match wire::decoded_envelope(message->UniStream_bytes@) {
                Ok(envelope) => received == Ok::<Received, Error>(wire::received(envelope.message)),
                Err(reason) => received matches Err(error) && error == Error::Serialisation(
                    Box::new(reason),
                ),
            },
    {
        let bytes = match message {
            EndpointMessage::UniStream { bytes } => bytes,
            EndpointMessage::BiStream { .. } => vstd::pervasive::unreached(),
        };
        match wire::decode_envelope(&bytes) {
            Ok(envelope) => Ok(wire::read_message(envelope.message)),
            Err(error) => Err(Error::Serialisation(error)),
        }
    }

    /// What is to be done with a message that came in on a stream from an elder.
    /// Bytes that are not a message are ignored.
    pub fn listen_to_receive_stream<'a>(&'a self, bytes: &[u8]) -> (delivery: Delivery<&'a T>)
        requires
            self.wf(),
        ensures
            match wire::decoded_envelope(bytes@) {
                Ok(envelope) => is_delivery(
                    self@.pending_transfer_validations,
                    wire::received(envelope.message),
                    delivery,
                ),
                Err(_) => delivery is Ignored,
            },
    {
        match wire::decode_envelope(bytes) {
            Ok(envelope) => self.deliver(wire::read_message(envelope.message)),
            Err(_) => Delivery::Ignored,
        }
    }

    /// What is to be done with a message: the validation of a transfer goes to the
    /// caller that waits for it, the failure of a command to that caller and to the
    /// client. The caller goes on waiting.
    pub fn deliver<'a>(&'a self, received: Received) -> (delivery: Delivery<&'a T>)
        requires
            self.wf(),
        ensures
            is_delivery(self@.pending_transfer_validations, received, delivery),
    {
        match received {
            Received::Event { event, correlation_id } => match event {
                ReceivedEvent::TransferValidated(event) => {
                    match self.pending_transfer_validations.get(&correlation_id) {
                        Some(sender) => Delivery::Validated { sender, event },
                        None => Delivery::Ignored,
                    }
                },
                ReceivedEvent::Other => Delivery::Ignored,
            },
            Received::CmdError { error, correlation_id } => Delivery::CmdError {
                waiting: self.pending_transfer_validations.get(&correlation_id),
                error,
            },
            Received::Other => Delivery::Ignored,
        }
    }
}

/// Decoding what a client sends gives back the message, the client as its origin, with
/// its signature over the encoding of the message, and no proxies. The message has to be
/// one that an encoding holds in full.
pub proof fn law_envelope_opens_to_its_message(keypair: Keypair, message: Message, bytes: Seq<u8>)
    requires
        is_signed_envelope(bytes, keypair, message),
        wire::is_transmissible(message),
    ensures
        wire::decoded_envelope(bytes) == Ok::<_, ErrorKind>(
            EnvelopeContents {
                message,
                origin: signed_origin(keypair, message),
                proxies: Seq::empty(),
            },
        ),
{
    lemma_signed_origin_is_client(keypair, message);
}

/// Whatever the message, an envelope that can be decoded holds one with the same
/// identifier and the same encoding, and the signature in it is the client's over the
/// encoding of the message that it holds, and over nothing else.
pub proof fn law_opened_envelope_is_signed(keypair: Keypair, message: Message, bytes: Seq<u8>)
    requires
        is_signed_envelope(bytes, keypair, message),
        wire::decoded_envelope(bytes) is Ok,
    ensures
        ({
            let envelope = wire::decoded_envelope(bytes)->Ok_0;
            &&& wire::message_id(envelope.message) == wire::message_id(message)
            &&& wire::message_encoding(envelope.message) == wire::message_encoding(message)
            &&& envelope.origin == signed_origin(keypair, envelope.message)
            &&& envelope.proxies == Seq::<MsgSender>::empty()
        }),
{
}

/// Different messages never give the same bytes, whoever signs them. The messages have
/// to be ones that an encoding holds in full.
pub proof fn law_different_messages_have_different_envelopes(
    left_keypair: Keypair,
    left: Message,
    left_bytes: Seq<u8>,
    right_keypair: Keypair,
    right: Message,
    right_bytes: Seq<u8>,
)
    requires
        is_signed_envelope(left_bytes, left_keypair, left),
        is_signed_envelope(right_bytes, right_keypair, right),
        wire::is_transmissible(left),
        wire::is_transmissible(right),
        left != right,
    ensures
        left_bytes != right_bytes,
{
    lemma_signed_origin_is_client(left_keypair, left);
    lemma_signed_origin_is_client(right_keypair, right);
}

/// The origin of a message that a client signs is a client.
proof fn lemma_signed_origin_is_client(keypair: Keypair, message: Message)
    ensures
        wire::is_client_origin(signed_origin(keypair, message)),
{
    let data = wire::message_encoding(message)->Ok_0;
    assert(signed_origin(keypair, message) == wire::client_sender(
        wire::public_key(keypair),
        wire::signature(keypair, data),
    ));
}

/// The validation of a transfer reaches the caller that asked for it last by that
/// message, also when it comes more than once; the callers that asked by other
/// messages are left as they were.
pub proof fn law_validation_reaches_its_caller<C, T, Q>(
    connections: Connections<C, T, Q>,
    msg_id: Seq<u8>,
    sender: T,
    event: TransferValidated,
    correlation_id: MessageId,
    delivery: Delivery<&T>,
)
    requires
        is_delivery(
            awaiting_validation(connections, msg_id, sender).pending_transfer_validations,
            Received::Event { event: ReceivedEvent::TransferValidated(event), correlation_id },
            delivery,
        ),
    ensures
        correlation_id@ == msg_id ==> delivery == (Delivery::Validated { sender: &sender, event }),
        correlation_id@ != msg_id ==> is_delivery(
            connections.pending_transfer_validations,
            Received::Event { event: ReceivedEvent::TransferValidated(event), correlation_id },
            delivery,
        ),
{
}

/// The failure of a command always reaches the client, and the caller that waits
/// under the message, if there is one.
pub proof fn law_cmd_error_reaches_client<T>(
    waiting: Map<Seq<u8>, T>,
    error: CmdError,
    correlation_id: MessageId,
    delivery: Delivery<&T>,
)
    requires
        is_delivery(waiting, Received::CmdError { error, correlation_id }, delivery),
    ensures
        delivery matches Delivery::CmdError { waiting: caller, error: reported } && reported
            == error && (caller is Some <==> waiting.contains_key(correlation_id@)) && (
        caller matches Some(sender) ==> *sender == waiting[correlation_id@]),
{
}

/// What a client sends is signed over the whole encoding of the message: the origin in it
/// is the client with its public key and its signature over all of those bytes, both in
/// what is encoded and in what the bytes decode to.
pub proof fn law_signature_covers_the_whole_message(
    keypair: Keypair,
    message: Message,
    bytes: Seq<u8>,
)
    requires
        is_signed_envelope(bytes, keypair, message),
    ensures
        wire::message_encoding(message) matches Ok(whole) && ({
            let origin = wire::client_sender(
                wire::public_key(keypair),
                wire::signature(keypair, whole),
            );
            &&& wire::envelope_encoding(message, origin, Seq::<MsgSender>::empty()) == Ok::<
                _,
                ErrorKind,
            >(bytes)
            &&& wire::decoded_envelope(bytes) matches Ok(envelope) ==> {
                &&& envelope.origin == origin
                &&& envelope.proxies.len() == 0
                &&& wire::message_id(envelope.message) == wire::message_id(message)
                &&& wire::message_encoding(envelope.message) == Ok::<_, ErrorKind>(whole)
            }
            &&& wire::is_transmissible(message) ==> wire::decoded_envelope(bytes) == Ok::<
                _,
                ErrorKind,
            >(EnvelopeContents { message, origin, proxies: Seq::empty() })
        }),
{
    lemma_signed_origin_is_client(keypair, message);
}

/// There is no envelope only where the message has no encoding, or the envelope with the
/// signature over the whole of that encoding has none, and the reason is that one.
pub proof fn law_envelope_is_missing_only_without_encoding(
    keypair: Keypair,
    message: Message,
    reason: ErrorKind,
)
    ensures
        signed_envelope(keypair, message) == Err::<Seq<u8>, ErrorKind>(reason) <==> match wire::message_encoding(
            message,
        ) {
            Err(error) => error == reason,
            Ok(whole) => wire::envelope_encoding(
                message,
                wire::client_sender(wire::public_key(keypair), wire::signature(keypair, whole)),
                Seq::<MsgSender>::empty(),
            ) == Err::<Seq<u8>, ErrorKind>(reason),
        },
{
}

/// An error stands for the reason for which something could not be encoded or decoded, and
/// never for something that could.
pub proof fn law_error_holds_the_reason<A>(error: Error, result: Result<A, ErrorKind>)
    ensures
        fails_with(error, result) <==> result is Err && error == Error::Serialisation(
            Box::new(result->Err_0),
        ),
{
}

/// What is sent is the encoding where there is one, and an error with the reason where
/// there is none.
pub proof fn law_request_is_the_encoding(
    encoded: Result<Vec<u8>, Error>,
    encoding: Result<Seq<u8>, ErrorKind>,
)
    requires
        is_encoding(encoded, encoding),
    ensures
        match encoding {
            Ok(bytes) => encoded matches Ok(sent) && sent@ == bytes,
            Err(reason) => encoded matches Err(error) && error == Error::Serialisation(
                Box::new(reason),
            ),
        },
{
}

/// Every contact gives one address, its own, in its place.
pub proof fn law_every_contact_gives_its_address(contacts: Seq<(Seq<u8>, Seq<char>)>)
    ensures
        socket_addrs(contacts).len() == contacts.len(),
        forall|i: int|
            0 <= i < contacts.len() ==> #[trigger] socket_addrs(contacts)[i] == contacts[i].1,
{
}

/// A caller that waits for a validation is found under its message, in place of the one
/// that waited there. Nobody else, and nothing else of the client, changes by it.
pub proof fn law_caller_waits_under_its_message<C, T, Q>(
    connections: Connections<C, T, Q>,
    msg_id: Seq<u8>,
    sender: T,
    other: Seq<u8>,
)
    ensures
        ({
            let after = awaiting_validation(connections, msg_id, sender);
            let before_callers = connections.pending_transfer_validations;
            let callers = after.pending_transfer_validations;
            &&& callers.contains_key(msg_id)
            &&& callers[msg_id] == sender
            &&& other != msg_id ==> (callers.contains_key(other) <==> before_callers.contains_key(
                other,
            ))
            &&& other != msg_id && callers.contains_key(other) ==> callers[other]
                == before_callers[other]
            &&& after.keypair == connections.keypair
            &&& after.simulated_payouts == connections.simulated_payouts
            &&& after.elders == connections.elders
            &&& after.pending_query_responses == connections.pending_query_responses
        }),
{
}

/// A validation goes, whole, to the caller that waits under the bytes that it names, and
/// to nobody where none does.
pub proof fn law_validation_goes_to_the_caller_it_names<T>(
    waiting: Map<Seq<u8>, T>,
    event: TransferValidated,
    correlation_id: MessageId,
    delivery: Delivery<&T>,
)
    requires
        is_delivery(
            waiting,
            Received::Event { event: ReceivedEvent::TransferValidated(event), correlation_id },
            delivery,
        ),
    ensures
        waiting.contains_key(correlation_id.bytes@) ==> delivery == (Delivery::Validated {
            sender: &waiting[correlation_id.bytes@],
            event,
        }),
        !waiting.contains_key(correlation_id.bytes@) ==> delivery is Ignored,
{
}

/// The failure of a command goes, whole, to the client, and to the caller that waits under
/// the bytes that it names, if there is one.
pub proof fn law_failure_goes_to_client_and_caller<T>(
    waiting: Map<Seq<u8>, T>,
    error: CmdError,
    correlation_id: MessageId,
    delivery: Delivery<&T>,
)
    requires
        is_delivery(waiting, Received::CmdError { error, correlation_id }, delivery),
    ensures
        waiting.contains_key(correlation_id.bytes@) ==> delivery == (Delivery::CmdError {
            waiting: Some(&waiting[correlation_id.bytes@]),
            error,
        }),
        !waiting.contains_key(correlation_id.bytes@) ==> delivery == (Delivery::<&T>::CmdError {
            waiting: None,
            error,
        }),
{
}

/// Nothing is done with any other message, whoever waits.
pub proof fn law_other_messages_are_ignored<T>(
    waiting: Map<Seq<u8>, T>,
    correlation_id: MessageId,
    delivery: Delivery<&T>,
)
    requires
        is_delivery(waiting, Received::Other, delivery) || is_delivery(
            waiting,
            Received::Event { event: ReceivedEvent::Other, correlation_id },
            delivery,
        ),
    ensures
        delivery is Ignored,
{
}

/// The failures are the results that say so, each counted once.
pub proof fn law_every_failed_send_is_counted(results: Seq<bool>)
    ensures
        failures(results) == results.to_multiset().count(false),
    decreases results.len(),
{
    broadcast use vstd::seq_lib::group_to_multiset_ensures;

    if results.len() == 0 {
        assert(results =~= Seq::<bool>::empty());
        assert(!results.contains(false));
    } else {
        law_every_failed_send_is_counted(results.drop_last());
        assert(results.drop_last().push(results.last()) =~= results);
    }
}

} // verus!
