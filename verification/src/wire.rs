//! What goes over the wire, and the calls into the crates that hold the network's
//! data types and encodings, each with what is relied on of it.

use crate::message_id::MessageId;
use bincode::ErrorKind;
use qp2p::Error as TransportError;
use sn_data_types::Error as DataTypesError;
use sn_data_types::{Keypair, PublicKey, Signature, TransferValidated};
use sn_messaging::{
    Cmd, CmdError, Event, Message, MsgEnvelope, MsgSender, QueryResponse as ResponseMessage,
};
use vstd::prelude::*;
use xor_name::XorName;

verus! {

#[verifier::external_type_specification]
#[verifier::external_body]
pub struct ExErrorKind(ErrorKind);

#[verifier::external_type_specification]
#[verifier::external_body]
pub struct ExDataTypesError(DataTypesError);

#[verifier::external_type_specification]
#[verifier::external_body]
pub struct ExTransportError(TransportError);

#[verifier::external_type_specification]
#[verifier::external_body]
pub struct ExCmdError(CmdError);

#[verifier::external_type_specification]
#[verifier::external_body]
pub struct ExResponseMessage(ResponseMessage);

#[verifier::external_type_specification]
#[verifier::external_body]
pub struct ExKeypair(Keypair);

#[verifier::external_type_specification]
#[verifier::external_body]
pub struct ExPublicKey(PublicKey);

#[verifier::external_type_specification]
#[verifier::external_body]
pub struct ExSignature(Signature);

#[verifier::external_type_specification]
#[verifier::external_body]
pub struct ExTransferValidated(TransferValidated);

#[verifier::external_type_specification]
#[verifier::external_body]
pub struct ExCmd(Cmd);

#[verifier::external_type_specification]
#[verifier::external_body]
pub struct ExMessage(Message);

#[verifier::external_type_specification]
#[verifier::external_body]
pub struct ExMsgSender(MsgSender);

/// What a client asks of a node when it first reaches it.
pub enum HandshakeRequest {
    /// Which elders the client should connect to.
    Bootstrap(PublicKey),
    /// To be connected to this elder.
    Join(PublicKey),
}

/// A node of the network.
pub struct Contact {
    /// The name of the node in the network.
    pub name: [u8; 32],
    /// The address of the node.
    pub socket_addr: String,
}

impl View for Contact {
    type V = (Seq<u8>, Seq<char>);

    open spec fn view(&self) -> (Seq<u8>, Seq<char>) {
        (self.name@, self.socket_addr@)
    }
}

/// Contacts as the specifications speak of them.
pub open spec fn contacts_view(contacts: Seq<Contact>) -> Seq<(Seq<u8>, Seq<char>)> {
    contacts.map_values(|contact: Contact| contact@)
}

/// What a node answers to a [`HandshakeRequest`].
pub enum HandshakeResponse {
    /// The client should bootstrap with these nodes instead.
    Rebootstrap(Vec<Contact>),
    /// The client should connect to these elders.
    Join(Vec<Contact>),
    /// The client asked the wrong section.
    InvalidSection,
}

/// A [`HandshakeResponse`] as the specifications speak of it.
pub ghost enum HandshakeReply {
    Rebootstrap(Seq<(Seq<u8>, Seq<char>)>),
    Join(Seq<(Seq<u8>, Seq<char>)>),
    InvalidSection,
}

impl View for HandshakeResponse {
    type V = HandshakeReply;

    open spec fn view(&self) -> HandshakeReply {
        match self {
            HandshakeResponse::Rebootstrap(elders) => HandshakeReply::Rebootstrap(
                contacts_view(elders@),
            ),
            HandshakeResponse::Join(elders) => HandshakeReply::Join(contacts_view(elders@)),
            HandshakeResponse::InvalidSection => HandshakeReply::InvalidSection,
        }
    }
}

/// A message with the one that it comes from.
pub struct Envelope {
    /// The message.
    pub message: Message,
    /// The source of the message.
    pub origin: MsgSender,
    /// Intermediate actors on the path of the message.
    pub proxies: Vec<MsgSender>,
}

/// An [`Envelope`] as the specifications speak of it.
pub ghost struct EnvelopeContents {
    pub message: Message,
    pub origin: MsgSender,
    pub proxies: Seq<MsgSender>,
}

impl View for Envelope {
    type V = EnvelopeContents;

    open spec fn view(&self) -> EnvelopeContents {
        EnvelopeContents {
            message: self.message,
            origin: self.origin,
            proxies: self.proxies@,
        }
    }
}

/// A message that came in, as far as the client acts on it.
pub enum Received {
    /// Something happened that a caller may wait for.
    Event { event: ReceivedEvent, correlation_id: MessageId },
    /// A command of the client failed.
    CmdError { error: CmdError, correlation_id: MessageId },
    /// Any other message.
    Other,
}

/// An event that came in.
pub enum ReceivedEvent {
    /// An elder validated a transfer.
    TransferValidated(TransferValidated),
    /// Any other event.
    Other,
}

/// The length of the history that a response carries, as its own `len` counts it.
pub uninterp spec fn history_len(response: ResponseMessage) -> Option<usize>;

/// Reads the length of a history by `sn_data_types::ActorHistory::len`, where the
/// response is `GetHistory` with a history. The result, the absence of a history
/// included, is the one that `history_len` names.
#[verifier::external_body]
pub(crate) fn read_history_len(response: &ResponseMessage) -> (len: Option<usize>)
    ensures
        len == history_len(*response),
{
    match response {
        ResponseMessage::GetHistory(Ok(history)) => Some(history.len()),
        _ => None,
    }
}

/// Duplicates a response by `sn_messaging::QueryResponse::clone`, which is derived:
/// the copy is the response.
#[verifier::external_body]
pub(crate) fn clone_response(response: &ResponseMessage) -> (copy: ResponseMessage)
    ensures
        copy == *response,
{
    response.clone()
}

/// The encoding of a response, or why it has none.
pub uninterp spec fn response_encoding(response: ResponseMessage) -> Result<Seq<u8>, ErrorKind>;

/// Encodes a response by `bincode::serialize`. The result, the bytes or the error, is
/// what `response_encoding` names.
#[verifier::external_body]
pub(crate) fn encode_response(response: &ResponseMessage) -> (encoded: Result<
    Vec<u8>,
    Box<ErrorKind>,
>)
    ensures
        match encoded {
            Ok(bytes) => response_encoding(*response) == Ok::<_, ErrorKind>(bytes@),
            Err(error) => response_encoding(*response) == Err::<Seq<u8>, ErrorKind>(*error),
        },
{
    bincode::serialize(response)
}

/// The encoding of a message, or why it has none.
pub uninterp spec fn message_encoding(message: Message) -> Result<Seq<u8>, ErrorKind>;

/// Encodes a message by `bincode::serialize`. The result, the bytes or the error, is
/// what `message_encoding` names.
#[verifier::external_body]
pub(crate) fn encode_message(message: &Message) -> (encoded: Result<Vec<u8>, Box<ErrorKind>>)
    ensures
        match encoded {
            Ok(bytes) => message_encoding(*message) == Ok::<_, ErrorKind>(bytes@),
            Err(error) => message_encoding(*message) == Err::<Seq<u8>, ErrorKind>(*error),
        },
{
    bincode::serialize(message)
}

/// The encoding of an envelope that holds a message, its origin and the proxies that
/// it has passed, or why it has none.
pub uninterp spec fn envelope_encoding(
    message: Message,
    origin: MsgSender,
    proxies: Seq<MsgSender>,
) -> Result<Seq<u8>, ErrorKind>;

/// Whether a message is one that an encoding holds in full: some bytes decode to it.
/// A message with a part that is left out when it is encoded is none.
pub open spec fn is_transmissible(message: Message) -> bool {
    exists|bytes: Seq<u8>|
        (#[trigger] decoded_envelope(bytes)) matches Ok(envelope) && envelope.message == message
}

/// Whether an origin is a client with its public key and its signature over something.
pub open spec fn is_client_origin(origin: MsgSender) -> bool {
    exists|keypair: Keypair, data: Seq<u8>|
        origin == client_sender(public_key(keypair), #[trigger] signature(keypair, data))
}

/// Whether bytes hold an envelope as far as an encoding can: what they decode to has
/// the same origin and proxies, and a message with the same identifier and encoding. A
/// message that is transmissible, from a client and without proxies, comes back whole.
pub open spec fn opens_to(
    bytes: Seq<u8>,
    message: Message,
    origin: MsgSender,
    proxies: Seq<MsgSender>,
) -> bool {
    &&& decoded_envelope(bytes) matches Ok(envelope) ==> {
        &&& envelope.origin == origin
        &&& envelope.proxies == proxies
        &&& message_id(envelope.message) == message_id(message)
        &&& message_encoding(envelope.message) == message_encoding(message)
    }
    &&& is_transmissible(message) && is_client_origin(origin) && proxies.len() == 0
        ==> decoded_envelope(bytes) == Ok::<_, ErrorKind>(
        EnvelopeContents { message, origin, proxies },
    )
}

/// Encodes an envelope by `bincode::serialize`. The result, the bytes or the error, is
/// what `envelope_encoding` names.
///
/// The bytes decode to what was encoded as far as `opens_to` says. Nothing is said of
/// the rest of a message that is not transmissible: the encoding of a sequence leaves
/// out the strategies that `crdts::lseq::ident::IdentGen` keeps. Nor is it said that
/// such a message can be decoded: a BLS signature may be made of a point that the
/// decoding refuses.
#[verifier::external_body]
pub(crate) fn encode_envelope(
    message: &Message,
    origin: MsgSender,
    proxies: Vec<MsgSender>,
) -> (encoded: Result<Vec<u8>, Box<ErrorKind>>)
    ensures
        match encoded {
            Ok(bytes) => envelope_encoding(*message, origin, proxies@) == Ok::<_, ErrorKind>(bytes@),
            Err(error) => envelope_encoding(*message, origin, proxies@) == Err::<
                Seq<u8>,
                ErrorKind,
            >(*error),
        },
        encoded matches Ok(bytes) ==> opens_to(bytes@, *message, origin, proxies@),
{
    let message = message.clone();
    bincode::serialize(&MsgEnvelope { message, origin, proxies })
}

/// The envelope that is encoded, or why the bytes are not one.
pub uninterp spec fn decoded_envelope(bytes: Seq<u8>) -> Result<EnvelopeContents, ErrorKind>;

/// Decodes an envelope by `bincode::deserialize`. The result, the envelope or the
/// error, is what `decoded_envelope` names.
#[verifier::external_body]
pub(crate) fn decode_envelope(bytes: &[u8]) -> (decoded: Result<Envelope, Box<ErrorKind>>)
    ensures
        match decoded {
            Ok(envelope) => decoded_envelope(bytes@) == Ok::<_, ErrorKind>(envelope@),
            Err(error) => decoded_envelope(bytes@) == Err::<EnvelopeContents, ErrorKind>(*error),
        },
{
    let envelope: MsgEnvelope = bincode::deserialize(bytes)?;
    let MsgEnvelope { message, origin, proxies } = envelope;
    Ok(Envelope { message, origin, proxies })
}

/// What a client takes from a message that came in.
pub uninterp spec fn received(message: Message) -> Received;

/// Takes a message, a variant of `sn_messaging::Message`, apart: an event and the
/// failure of a command with their fields, each other variant as itself alone. The
/// result is what `received` names.
#[verifier::external_body]
pub(crate) fn read_message(message: Message) -> (read: Received)
    ensures
        read == received(message),
{
    let (event, id) = match message {
        Message::Event { event, correlation_id: id, .. } => match event {
            Event::TransferValidated { event, .. } => (ReceivedEvent::TransferValidated(event), id),
            Event::TransferAgreementReached { .. } => (ReceivedEvent::Other, id),
        },
        Message::CmdError { error, correlation_id: id, .. } => {
            return Received::CmdError { error, correlation_id: MessageId { bytes: id.0.0 } };
        },
        Message::Cmd { .. } | Message::Query { .. } | Message::QueryResponse { .. }
        | Message::NodeCmd { .. } | Message::NodeCmdError { .. } | Message::NodeEvent { .. }
        | Message::NodeQuery { .. } | Message::NodeQueryResponse { .. } => return Received::Other,
    };
    Received::Event { event, correlation_id: MessageId { bytes: id.0.0 } }
}

/// The encoding of a handshake request, or why it has none.
pub uninterp spec fn handshake_encoding(request: HandshakeRequest) -> Result<Seq<u8>, ErrorKind>;

/// Encodes a handshake request by `bincode::serialize`. The result, the bytes or the
/// error, is what `handshake_encoding` names.
#[verifier::external_body]
pub(crate) fn encode_handshake(request: HandshakeRequest) -> (encoded: Result<
    Vec<u8>,
    Box<ErrorKind>,
>)
    ensures
        match encoded {
            Ok(bytes) => handshake_encoding(request) == Ok::<_, ErrorKind>(bytes@),
            Err(error) => handshake_encoding(request) == Err::<Seq<u8>, ErrorKind>(*error),
        },
{
    bincode::serialize(&match request {
        HandshakeRequest::Bootstrap(key) => sn_data_types::HandshakeRequest::Bootstrap(key),
        HandshakeRequest::Join(key) => sn_data_types::HandshakeRequest::Join(key),
    })
}

/// The handshake response that is encoded, or why the bytes are not one.
pub uninterp spec fn decoded_handshake(bytes: Seq<u8>) -> Result<HandshakeReply, ErrorKind>;

/// Decodes a handshake response by `bincode::deserialize`. The result, the response
/// or the error, is what `decoded_handshake` names.
#[verifier::external_body]
pub(crate) fn decode_handshake(bytes: &[u8]) -> (decoded: Result<
    HandshakeResponse,
    Box<ErrorKind>,
>)
    ensures
        match decoded {
            Ok(response) => decoded_handshake(bytes@) == Ok::<_, ErrorKind>(response@),
            Err(error) => decoded_handshake(bytes@) == Err::<HandshakeReply, ErrorKind>(*error),
        },
{
    let contact = |(name, addr): (XorName, _)| {
        Contact { name: name.0, socket_addr: ToString::to_string(&addr) }
    };
    Ok(match bincode::deserialize(bytes)? {
        sn_data_types::HandshakeResponse::Rebootstrap(elders) => {
            HandshakeResponse::Rebootstrap(elders.into_iter().map(contact).collect())
        },
        sn_data_types::HandshakeResponse::Join(elders) => {
            HandshakeResponse::Join(elders.into_iter().map(contact).collect())
        },
        sn_data_types::HandshakeResponse::InvalidSection => HandshakeResponse::InvalidSection,
    })
}

/// The public key of a keypair.
pub uninterp spec fn public_key(keypair: Keypair) -> PublicKey;

/// Reads the public key by `sn_data_types::Keypair::public_key`. The result is what
/// `public_key` names.
#[verifier::external_body]
pub(crate) fn read_public_key(keypair: &Keypair) -> (key: PublicKey)
    ensures
        key == public_key(*keypair),
{
    keypair.public_key()
}

/// The signature of a keypair over some bytes.
pub uninterp spec fn signature(keypair: Keypair, data: Seq<u8>) -> Signature;

/// Signs some bytes by `sn_data_types::Keypair::sign`, which draws no random numbers.
/// The result is what `signature` names. Nothing is said of whether it verifies: a
/// `Keypair` can hold a public key that is not the one of its secret key, and then it
/// does not.
#[verifier::external_body]
pub(crate) fn sign(keypair: &Keypair, data: &[u8]) -> (made: Signature)
    ensures
        made == signature(*keypair, data@),
{
    keypair.sign(data)
}

/// A client with this key and signature, as the origin of a message.
pub uninterp spec fn client_sender(key: PublicKey, sign: Signature) -> MsgSender;

/// Makes the origin of a client's message by `sn_messaging::MsgSender::client`, which
/// always succeeds. The origin is what `client_sender` names.
#[verifier::external_body]
pub(crate) fn make_client_sender(key: PublicKey, sign: Signature) -> (origin: Result<
    MsgSender,
    DataTypesError,
>)
    ensures
        origin is Ok,
        origin->Ok_0 == client_sender(key, sign),
{
    MsgSender::client(key, sign)
}

/// The identifier of a message.
pub uninterp spec fn message_id(message: Message) -> Seq<u8>;

/// Reads the identifier of a message by `sn_messaging::Message::id`. The result is
/// what `message_id` names.
#[verifier::external_body]
pub(crate) fn read_message_id(message: &Message) -> (id: MessageId)
    ensures
        id@ == message_id(*message),
{
    MessageId { bytes: message.id().0.0 }
}

/// The message that is a command with this identifier.
pub uninterp spec fn cmd_message(cmd: Cmd, id: Seq<u8>) -> Message;

/// Makes a message, the variant `Cmd` of `sn_messaging::Message`. The result is what
/// `cmd_message` names, and its identifier is the one given.
#[verifier::external_body]
pub(crate) fn make_cmd_message(cmd: Cmd, id: MessageId) -> (message: Message)
    ensures
        message == cmd_message(cmd, id@),
        message_id(message) == id@,
{
    Message::Cmd { cmd, id: sn_messaging::MessageId(XorName(id.bytes)) }
}

/// Draws an identifier by `sn_messaging::MessageId::new`. It is random: nothing is
/// said of it.
#[verifier::external_body]
pub(crate) fn random_message_id() -> (id: MessageId) {
    MessageId { bytes: sn_messaging::MessageId::new().0.0 }
}

/// The SHA3-256 hash of some bytes.
pub uninterp spec fn sha3_256(data: Seq<u8>) -> Seq<u8>;

/// Hashes some bytes by `tiny_keccak::sha3_256`. The result is what `sha3_256` names.
#[verifier::external_body]
pub(crate) fn hash(data: &[u8]) -> (digest: [u8; 32])
    ensures
        digest@ == sha3_256(data@),
{
    tiny_keccak::sha3_256(data)
}

/// Contacts are seen in full: each one, in its place, with its name and its address.
pub proof fn law_contacts_are_seen_in_full(contacts: Seq<Contact>)
    ensures
        contacts_view(contacts).len() == contacts.len(),
        forall|i: int|
            0 <= i < contacts.len() ==> (#[trigger] contacts_view(contacts)[i]).0
                == contacts[i].name@ && contacts_view(contacts)[i].1 == contacts[i].socket_addr@,
{
}

/// A handshake response is seen as what it is, with all of its contacts.
pub proof fn law_handshake_response_is_seen_in_full(response: HandshakeResponse)
    ensures
        match response {
            HandshakeResponse::Rebootstrap(contacts) => response@ == HandshakeReply::Rebootstrap(
                contacts_view(contacts@),
            ),
            HandshakeResponse::Join(contacts) => response@ == HandshakeReply::Join(
                contacts_view(contacts@),
            ),
            HandshakeResponse::InvalidSection => response@ is InvalidSection,
        },
{
}

/// An envelope is seen in full.
pub proof fn law_envelope_is_seen_in_full(envelope: Envelope)
    ensures
        envelope@.message == envelope.message,
        envelope@.origin == envelope.origin,
        envelope@.proxies == envelope.proxies@,
{
}

} // verus!
