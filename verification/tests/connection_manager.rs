use rand::rngs::StdRng;
use rand::SeedableRng;
use sn_client::client::{cmd_message_with_id, create_cmd_message};
use sn_client::connection_manager::{
    elders_to_join, failed_sends, ConnectionManager, Delivery, EndpointMessage, CLIENT_PORT,
};
use sn_client::elders::{ElderRound, ElderStream};
use sn_client::error::Error;
use sn_client::message_id::MessageId;
use sn_client::query_response::QueryResponse;
use sn_client::tally::{QueryTally, QueryTaskResult};
use sn_client::wire::{Contact, HandshakeResponse, Received, ReceivedEvent};
use sn_data_types::{
    ActorHistory, Credit, Debit, HandshakeRequest, Keypair, Money, PublicKey, Sequence,
    SignatureShare, SignedCredit, SignedDebit, SignedTransfer, TransferAgreementProof, TransferValidated,
};
use sn_messaging::{
    Address, Cmd, CmdError, DataCmd, Event, Message, MsgEnvelope, MsgSender, Query,
    QueryResponse as ResponseMessage, SequenceWrite, TransferCmd, TransferQuery,
};
use std::collections::BTreeMap;
use std::sync::Arc;
use xor_name::XorName;

type Manager = ConnectionManager<u8, &'static str, &'static str>;

fn keypair(seed: u64) -> Keypair {
    Keypair::new_ed25519(&mut StdRng::seed_from_u64(seed))
}

fn manager(seed: u64) -> Manager {
    ConnectionManager::new(Arc::new(keypair(seed)), false)
}

fn with_elders(seed: u64, count: u8) -> Manager {
    let mut manager = manager(seed);
    let addresses = (0..count).map(|i| format!("127.0.0.1:{}", 6000 + i as usize)).collect();
    let mut round = ElderRound::new(addresses);
    for i in 0..count {
        let socket_addr = format!("127.0.0.1:{}", 6000 + i as usize);
        let elder = ElderStream { socket_addr, connection: i };
        assert!(manager.connect_to_elders(&mut round, Some(elder)).is_ok());
    }
    manager
}

fn outside_id(byte: u8) -> sn_messaging::MessageId {
    sn_messaging::MessageId(XorName([byte; 32]))
}

fn query(byte: u8) -> Message {
    let at = keypair(9).public_key();
    Message::Query { query: Query::Transfer(TransferQuery::GetBalance(at)), id: outside_id(byte) }
}

fn signed_transfer() -> SignedTransfer {
    let keypair = keypair(3);
    let id = crdts::Dot { actor: keypair.public_key(), counter: 0 };
    let debit = Debit { id, amount: Money::from_nano(5) };
    let credit = Credit {
        id: [4; 32],
        amount: Money::from_nano(5),
        recipient: self::keypair(4).public_key(),
        msg: "thanks".to_string(),
    };
    SignedTransfer {
        debit: SignedDebit { debit, actor_signature: keypair.sign(b"debit") },
        credit: SignedCredit { credit, actor_signature: keypair.sign(b"credit") },
    }
}

fn replicas() -> threshold_crypto::SecretKeySet {
    threshold_crypto::SecretKeySet::random(1, &mut StdRng::seed_from_u64(1))
}

fn validated(index: usize) -> TransferValidated {
    let transfer = signed_transfer();
    let share = |data: &[u8]| SignatureShare {
        index,
        share: replicas().secret_key_share(index).sign(data),
    };
    TransferValidated {
        signed_debit: transfer.debit,
        signed_credit: transfer.credit,
        replica_debit_sig: share(b"debit"),
        replica_credit_sig: share(b"credit"),
        replicas: replicas().public_keys(),
    }
}

fn agreed() -> TransferAgreementProof {
    let transfer = signed_transfer();
    TransferAgreementProof {
        signed_debit: transfer.debit,
        signed_credit: transfer.credit,
        debit_sig: keypair(5).sign(b"debit"),
        credit_sig: keypair(5).sign(b"credit"),
        debiting_replicas_keys: replicas().public_keys(),
    }
}

fn history(debits: usize, credits: usize) -> ResponseMessage {
    let mut history = ActorHistory::empty();
    history.debits = vec![agreed(); debits];
    history.credits = vec![agreed().credit_proof(); credits];
    ResponseMessage::GetHistory(Ok(history))
}

fn new_sequence(byte: u8) -> Message {
    let owner = keypair(3).public_key();
    let mut sequence = Sequence::new_public(owner, "actor".to_string(), XorName([byte; 32]), 1);
    assert!(sequence.create_unsigned_public_policy_op(owner, BTreeMap::new()).is_ok());
    let cmd = DataCmd::Sequence(SequenceWrite::New(sequence));
    Message::Cmd { cmd: Cmd::Data { cmd, payment: agreed() }, id: outside_id(byte) }
}

fn envelope(message: Message) -> Vec<u8> {
    let origin = MsgSender::client(keypair(8).public_key(), keypair(8).sign(b"")).unwrap();
    bincode::serialize(&MsgEnvelope { message, origin, proxies: vec![] }).unwrap()
}

fn event(event: Event, correlation_id: u8) -> Vec<u8> {
    envelope(Message::Event {
        event,
        id: outside_id(200),
        correlation_id: outside_id(correlation_id),
    })
}

fn validation(index: usize, correlation_id: u8) -> Vec<u8> {
    let client = XorName([1; 32]);
    event(Event::TransferValidated { client, event: validated(index) }, correlation_id)
}

fn cmd_error(correlation_id: u8) -> Vec<u8> {
    envelope(Message::CmdError {
        error: CmdError::Data(sn_messaging::Error::NoSuchKey),
        id: outside_id(201),
        correlation_id: outside_id(correlation_id),
        cmd_origin: Address::Client(XorName([2; 32])),
    })
}

#[test]
fn new_manager_has_no_elders() {
    assert_eq!(manager(1).number_of_connected_elders(), 0);
    assert!(manager(1).elders().is_empty());
    assert_eq!(CLIENT_PORT, 0);
}

#[test]
fn connected_elders_are_counted() {
    let manager = with_elders(1, 4);
    assert_eq!(manager.number_of_connected_elders(), 4);
    assert_eq!(manager.elders()[3].connection, 3);
}

#[test]
fn envelope_holds_the_message_signed_by_the_client() {
    let message = query(7);
    let bytes = manager(2).serialise_in_envelope(&message).unwrap();
    let envelope: MsgEnvelope = bincode::deserialize(&bytes).unwrap();
    let payload = bincode::serialize(&message).unwrap();
    let client = keypair(2);
    let origin = MsgSender::client(client.public_key(), client.sign(&payload)).unwrap();
    assert_eq!(envelope, MsgEnvelope { message, origin, proxies: vec![] });
    assert!(envelope.origin.verify(&payload));
    assert!(!envelope.origin.verify(b"something else"));
}

#[test]
fn envelope_opens_to_its_message_for_both_kinds_of_keys() {
    let share = replicas().secret_key_share(2);
    let keypairs = vec![keypair(2), Keypair::new_bls_share(2, share, replicas().public_keys())];
    let transfer = Cmd::Transfer(TransferCmd::ValidateTransfer(signed_transfer()));
    for client in keypairs {
        let manager: Manager = ConnectionManager::new(Arc::new(client.clone()), false);
        for message in vec![query(7), Message::Cmd { cmd: transfer.clone(), id: outside_id(8) }] {
            let bytes = manager.serialise_in_envelope(&message).unwrap();
            let opened: MsgEnvelope = bincode::deserialize(&bytes).unwrap();
            let payload = bincode::serialize(&opened.message).unwrap();
            assert_eq!(opened.message, message);
            assert!(opened.proxies.is_empty());
            assert!(opened.origin.is_client());
            assert_eq!(opened.origin.id().public_key(), client.public_key());
            assert!(opened.origin.verify(&payload));
            assert!(!opened.origin.verify(&bytes));
        }
    }
}

#[test]
fn sequence_arrives_with_its_identifier_and_encoding() {
    let message = new_sequence(5);
    let bytes = manager(2).serialise_in_envelope(&message).unwrap();
    let opened: MsgEnvelope = bincode::deserialize(&bytes).unwrap();
    // How the sequence chose its identifiers stays behind.
    assert!(opened.message != message);
    assert_eq!(opened.message.id(), message.id());
    let payload = bincode::serialize(&message).unwrap();
    assert_eq!(bincode::serialize(&opened.message).unwrap(), payload);
    assert!(opened.origin.verify(&payload));
    // What came in can be sent on, and comes back whole.
    let bytes = manager(2).serialise_in_envelope(&opened.message).unwrap();
    let again: MsgEnvelope = bincode::deserialize(&bytes).unwrap();
    assert_eq!(again, opened);
}

#[test]
fn different_messages_have_different_envelopes() {
    let manager = manager(2);
    let left = manager.serialise_in_envelope(&query(7)).unwrap();
    let right = manager.serialise_in_envelope(&query(8)).unwrap();
    assert_ne!(left, right);
    assert_ne!(left, self::manager(3).serialise_in_envelope(&query(8)).unwrap());
    assert_eq!(left, manager.serialise_in_envelope(&query(7)).unwrap());
}

#[test]
fn command_goes_to_all_elders() {
    let manager = with_elders(2, 3);
    let message = query(7);
    let broadcast = manager.send_cmd(&message).unwrap();
    assert_eq!(broadcast.msg_bytes, manager.serialise_in_envelope(&message).unwrap());
    let elders: Vec<u8> = broadcast.elders.iter().map(|elder| elder.connection).collect();
    assert_eq!(elders, vec![0, 1, 2]);
}

#[test]
fn failed_sends_are_counted() {
    assert_eq!(failed_sends(&vec![]), 0);
    assert_eq!(failed_sends(&vec![true, false, true, false, false]), 3);
    assert_eq!(failed_sends(&vec![true, true]), 0);
}

#[test]
fn query_goes_to_all_elders_and_is_voted_on() {
    let manager = with_elders(2, 3);
    let message = query(7);
    let mut round = manager.send_query(&message).unwrap();
    assert_eq!(round.broadcast.msg_bytes, manager.serialise_in_envelope(&message).unwrap());
    assert_eq!(round.msg_id.bytes, [7; 32]);
    let addresses: Vec<&str> =
        round.broadcast.elders.iter().map(|elder| elder.socket_addr.as_str()).collect();
    assert_eq!(addresses, vec!["127.0.0.1:6000", "127.0.0.1:6001", "127.0.0.1:6002"]);
    let response = || ResponseMessage::GetBalance(Ok(Money::from_nano(3)));
    for _ in 0..3 {
        assert!(!round.tally.is_finished());
        let result = QueryTaskResult::Response(QueryResponse::new(response()));
        assert!(round.tally.on_result(result).is_ok());
    }
    assert!(round.tally.is_finished());
    assert!(round.tally.outcome().unwrap().message == response());
}

#[test]
fn simulated_payouts_reach_the_election() {
    let mut manager: Manager = ConnectionManager::new(Arc::new(keypair(1)), true);
    let mut round = ElderRound::new(vec!["127.0.0.1:1".to_string(); 3]);
    for i in 0..3 {
        let elder = ElderStream { socket_addr: "127.0.0.1:1".to_string(), connection: i };
        assert!(manager.connect_to_elders(&mut round, Some(elder)).is_ok());
    }
    let mut tally = manager.send_query(&query(1)).unwrap().tally;
    for (debits, credits) in vec![(1, 0), (1, 1), (0, 1)] {
        let response = QueryResponse::new(history(debits, credits));
        assert!(tally.on_result(QueryTaskResult::Response(response)).is_ok());
    }
    assert!(tally.outcome().unwrap().message == history(1, 1));
}

#[test]
fn longest_real_history_is_elected_only_with_simulated_payouts() {
    for (simulated_payouts, expected) in vec![(true, history(2, 3)), (false, history(1, 0))] {
        let mut tally = QueryTally::new(4, simulated_payouts);
        for (debits, credits) in vec![(1, 0), (2, 3), (3, 1)] {
            assert!(!tally.is_finished());
            let response = QueryResponse::new(history(debits, credits));
            assert_eq!(response.history_len, Some(debits + credits));
            assert!(tally.on_result(QueryTaskResult::Response(response)).is_ok());
        }
        assert!(tally.is_finished());
        assert!(tally.outcome().unwrap().message == expected);
    }
}

#[test]
fn validation_reaches_the_caller_each_time() {
    let mut manager = with_elders(2, 3);
    let sent = manager.send_transfer_validation(&query(7), "caller").unwrap();
    assert_eq!(sent.elders.len(), 3);
    let bytes = sent.msg_bytes;
    assert_eq!(bytes, manager.serialise_in_envelope(&query(7)).unwrap());
    for index in 0..3 {
        match manager.listen_to_receive_stream(&validation(index, 7)) {
            Delivery::Validated { sender, event } => {
                assert_eq!(*sender, "caller");
                assert_eq!(event, validated(index));
            }
            _ => panic!("not delivered"),
        }
    }
}

#[test]
fn later_caller_gets_the_validation() {
    let mut manager = manager(2);
    assert!(manager.send_transfer_validation(&query(7), "first").is_ok());
    assert!(manager.send_transfer_validation(&query(8), "other").is_ok());
    assert!(manager.send_transfer_validation(&query(7), "second").is_ok());
    let delivery = manager.listen_to_receive_stream(&validation(0, 7));
    assert!(matches!(delivery, Delivery::Validated { sender: &"second", .. }));
    let delivery = manager.listen_to_receive_stream(&validation(0, 8));
    assert!(matches!(delivery, Delivery::Validated { sender: &"other", .. }));
}

#[test]
fn validation_that_nobody_waits_for_is_ignored() {
    let mut manager = manager(2);
    assert!(manager.send_transfer_validation(&query(7), "caller").is_ok());
    let delivery = manager.listen_to_receive_stream(&validation(0, 8));
    assert!(matches!(delivery, Delivery::Ignored));
}

#[test]
fn command_error_reaches_client_and_caller() {
    let mut manager = manager(2);
    assert!(manager.send_transfer_validation(&query(7), "caller").is_ok());
    match manager.listen_to_receive_stream(&cmd_error(7)) {
        Delivery::CmdError { waiting, error } => {
            assert_eq!(waiting, Some(&"caller"));
            assert_eq!(error, CmdError::Data(sn_messaging::Error::NoSuchKey));
        }
        _ => panic!("not delivered"),
    }
    match manager.listen_to_receive_stream(&cmd_error(8)) {
        Delivery::CmdError { waiting, error } => {
            assert_eq!(waiting, None);
            assert_eq!(error, CmdError::Data(sn_messaging::Error::NoSuchKey));
        }
        _ => panic!("not delivered"),
    }
}

#[test]
fn other_messages_are_ignored() {
    let mut manager = manager(2);
    assert!(manager.send_transfer_validation(&query(7), "caller").is_ok());
    let client = XorName([1; 32]);
    let agreement = event(Event::TransferAgreementReached { client, proof: agreed() }, 7);
    assert!(matches!(manager.listen_to_receive_stream(&agreement), Delivery::Ignored));
    assert!(matches!(manager.listen_to_receive_stream(&envelope(query(7))), Delivery::Ignored));
    assert!(matches!(manager.listen_to_receive_stream(&[1, 2, 3]), Delivery::Ignored));
    assert!(matches!(manager.listen_to_receive_stream(&[]), Delivery::Ignored));
}

#[test]
fn query_tasks_do_not_wait_for_validations() {
    let mut manager = manager(2);
    let msg_id = MessageId { bytes: [7; 32] };
    manager.await_query_response("127.0.0.1:1".to_string(), msg_id, "task");
    let delivery = manager.listen_to_receive_stream(&validation(0, 7));
    assert!(matches!(delivery, Delivery::Ignored));
}

#[test]
fn endpoint_messages_are_decoded() {
    let manager = manager(2);
    let message = |bytes: Vec<u8>| EndpointMessage::UniStream { bytes };
    match manager.listen_on_endpoint(message(validation(1, 7))) {
        Ok(Received::Event { event: ReceivedEvent::TransferValidated(event), correlation_id }) => {
            assert_eq!(event, validated(1));
            assert_eq!(correlation_id.bytes, [7; 32]);
        }
        _ => panic!("not decoded"),
    }
    match manager.listen_on_endpoint(message(cmd_error(9))) {
        Ok(Received::CmdError { error, correlation_id }) => {
            assert_eq!(error, CmdError::Data(sn_messaging::Error::NoSuchKey));
            assert_eq!(correlation_id.bytes, [9; 32]);
        }
        _ => panic!("not decoded"),
    }
    let other = manager.listen_on_endpoint(message(envelope(query(1))));
    assert!(matches!(other, Ok(Received::Other)));
    let broken = manager.listen_on_endpoint(message(vec![0]));
    assert!(matches!(broken, Err(Error::Serialisation(_))));
}

#[test]
fn handshake_requests_carry_the_public_key() {
    let key = keypair(6).public_key();
    let bootstrap = manager(6).bootstrap_request().unwrap();
    assert_eq!(bootstrap, bincode::serialize(&HandshakeRequest::Bootstrap(key)).unwrap());
    let join = manager(6).connect_to_elder().unwrap();
    assert_eq!(join, bincode::serialize(&HandshakeRequest::Join(key)).unwrap());
    assert_ne!(bootstrap, join);
    match bincode::deserialize(&join) {
        Ok(HandshakeRequest::Join(PublicKey::Ed25519(_))) => {}
        _ => panic!("not a request to join"),
    }
}

fn handshake(join: bool) -> Vec<u8> {
    let elders = vec![
        (XorName([1; 32]), "127.0.0.1:7001".parse().unwrap()),
        (XorName([2; 32]), "[::1]:7002".parse().unwrap()),
    ];
    let response = if join {
        sn_data_types::HandshakeResponse::Join(elders)
    } else {
        sn_data_types::HandshakeResponse::Rebootstrap(elders)
    };
    bincode::serialize(&response).unwrap()
}

#[test]
fn joining_gives_the_addresses_of_the_elders() {
    let addresses = manager(1).bootstrap_and_handshake(&handshake(true)).unwrap();
    let expected = vec!["127.0.0.1:7001".to_string(), "[::1]:7002".to_string()];
    assert_eq!(addresses, Some(expected.clone()));
    let round = manager(1).bootstrap(&handshake(true)).unwrap().unwrap();
    assert_eq!(round.addresses(), &expected);
    assert!(!round.is_finished());
}

#[test]
fn bootstrapping_again_is_told_apart() {
    assert!(matches!(manager(1).bootstrap_and_handshake(&handshake(false)), Ok(None)));
    assert!(matches!(manager(1).bootstrap(&handshake(false)), Ok(None)));
}

#[test]
fn invalid_section_is_unexpected() {
    let invalid = bincode::serialize(&sn_data_types::HandshakeResponse::InvalidSection).unwrap();
    let addresses = manager(1).bootstrap_and_handshake(&invalid);
    assert!(matches!(addresses, Err(Error::UnexpectedMessageOnJoin)));
    let round = manager(1).bootstrap(&invalid);
    assert!(matches!(round, Err(Error::UnexpectedMessageOnJoin)));
    let addresses = elders_to_join(HandshakeResponse::InvalidSection);
    assert!(matches!(addresses, Err(Error::UnexpectedMessageOnJoin)));
}

#[test]
fn broken_handshake_is_an_error() {
    let addresses = manager(1).bootstrap_and_handshake(&[9, 9]);
    assert!(matches!(addresses, Err(Error::Serialisation(_))));
    assert!(matches!(manager(1).bootstrap(&[9, 9]), Err(Error::Serialisation(_))));
}

#[test]
fn elders_to_join_keep_their_order() {
    let contact = |address: &str| Contact { name: [0; 32], socket_addr: address.to_string() };
    let response = HandshakeResponse::Join(vec![contact("b:2"), contact("a:1"), contact("b:2")]);
    assert_eq!(elders_to_join(response).unwrap(), vec!["b:2", "a:1", "b:2"]);
}

#[test]
fn too_few_elders_fail_the_bootstrap() {
    let mut manager = manager(1);
    let mut round = manager.bootstrap(&handshake(true)).unwrap().unwrap();
    assert!(manager.connect_to_elders(&mut round, None).is_ok());
    let elder = ElderStream { socket_addr: "[::1]:7002".to_string(), connection: 2 };
    let going = manager.connect_to_elders(&mut round, Some(elder));
    assert!(matches!(going, Err(Error::InsufficientElderConnections)));
    assert_eq!(manager.number_of_connected_elders(), 1);
}

#[test]
fn command_message_has_a_new_identifier() {
    let cmd = Cmd::Transfer(TransferCmd::ValidateTransfer(signed_transfer()));
    let ids: Vec<sn_messaging::MessageId> = (0..2)
        .map(|_| match create_cmd_message(cmd.clone()) {
            Ok(Message::Cmd { cmd: contents, id }) => {
                assert_eq!(contents, cmd);
                id
            }
            _ => panic!("not a command"),
        })
        .collect();
    assert_ne!(ids[0], ids[1]);
}

#[test]
fn command_message_has_the_given_identifier() {
    let cmd = Cmd::Transfer(TransferCmd::ValidateTransfer(signed_transfer()));
    let message = cmd_message_with_id(cmd.clone(), MessageId { bytes: [3; 32] });
    assert_eq!(message, Message::Cmd { cmd, id: outside_id(3) });
}

#[test]
fn history_length_counts_credits_and_debits() {
    let response = QueryResponse::new(history(2, 1));
    assert_eq!(response.history_len, Some(3));
}
