use sn_client::elders::{ElderRound, ElderStream, STANDARD_ELDERS_COUNT};
use sn_client::error::Error;

fn addresses(count: usize) -> Vec<String> {
    (0..count).map(|i| format!("127.0.0.1:{}", 5000 + i)).collect()
}

fn elder(i: usize) -> ElderStream<usize> {
    ElderStream { socket_addr: format!("127.0.0.1:{}", 5000 + i), connection: i }
}

fn connect(
    elders: &mut Vec<ElderStream<usize>>,
    results: Vec<bool>,
) -> (usize, Result<(), Error>) {
    let mut round = ElderRound::new(addresses(results.len()));
    let mut heard = 0;
    for (i, connected) in results.into_iter().enumerate() {
        if round.is_finished() {
            break;
        }
        heard += 1;
        let result = if connected { Some(elder(i)) } else { None };
        let going = round.on_result(elders, result);
        if going.is_err() {
            assert!(round.is_finished());
            return (heard, going);
        }
    }
    assert!(round.is_finished());
    (heard, Ok(()))
}

#[test]
fn standard_count_of_elders_is_enough() {
    let mut elders = vec![];
    let (heard, result) = connect(&mut elders, vec![true; 7]);
    assert_eq!(heard, STANDARD_ELDERS_COUNT);
    assert_eq!(heard, 5);
    assert!(result.is_ok());
    assert_eq!(elders.len(), 5);
    assert_eq!(elders[4].connection, 4);
    assert_eq!(elders[4].socket_addr, "127.0.0.1:5004");
}

#[test]
fn three_elders_will_do() {
    let mut elders = vec![];
    let (heard, result) = connect(&mut elders, vec![true, false, true, false, true]);
    assert_eq!(heard, 5);
    assert!(result.is_ok());
    assert_eq!(elders.iter().map(|e| e.connection).collect::<Vec<_>>(), vec![0, 2, 4]);
}

#[test]
fn two_elders_are_too_few() {
    let mut elders = vec![];
    let (heard, result) = connect(&mut elders, vec![true, true, false, false]);
    assert_eq!(heard, 4);
    assert!(matches!(result, Err(Error::InsufficientElderConnections)));
    assert_eq!(elders.len(), 2);
}

#[test]
fn failed_connections_do_not_fail_a_round_that_is_still_on() {
    let mut elders: Vec<ElderStream<usize>> = vec![];
    let mut round = ElderRound::new(addresses(2));
    assert!(round.on_result(&mut elders, None).is_ok());
    assert!(!round.is_finished());
    assert!(round.on_result(&mut elders, None).is_err());
    assert!(round.is_finished());
}

#[test]
fn elders_from_before_count() {
    let mut elders = vec![elder(10), elder(11)];
    let (_, result) = connect(&mut elders, vec![false, true]);
    assert!(result.is_ok());
    assert_eq!(elders.iter().map(|e| e.connection).collect::<Vec<_>>(), vec![10, 11, 1]);
}

#[test]
fn round_adds_one_elder_to_enough_of_them() {
    let mut elders: Vec<ElderStream<usize>> = (10..17).map(elder).collect();
    let (_, result) = connect(&mut elders, vec![true, true, true]);
    assert!(result.is_ok());
    assert_eq!(elders.len(), 8);
    assert_eq!(elders[7].connection, 0);
}

#[test]
fn round_adds_only_its_addresses_in_any_order() {
    let given = vec!["a:1".to_string(), "b:2".to_string(), "a:1".to_string(), "c:3".to_string()];
    let mut round = ElderRound::new(given.clone());
    let mut elders: Vec<ElderStream<usize>> = vec![elder(10)];
    for (task, connected) in vec![(2, true), (3, false), (0, true), (1, true)] {
        let socket_addr = round.addresses()[task].clone();
        let result = if connected { Some(ElderStream { socket_addr, connection: task }) } else { None };
        assert!(round.on_result(&mut elders, result).is_ok());
    }
    assert!(round.is_finished());
    let mut left = given;
    for elder in &elders[1..] {
        let place = left.iter().position(|address| *address == elder.socket_addr).unwrap();
        let _ = left.remove(place);
    }
    assert_eq!(left, vec!["c:3"]);
}

#[test]
fn round_without_addresses_is_over_and_succeeds() {
    let round = ElderRound::new(vec![]);
    assert!(round.is_finished());
    assert!(round.addresses().is_empty());
}

#[test]
fn round_keeps_its_addresses() {
    let round = ElderRound::new(addresses(3));
    assert_eq!(round.addresses(), &addresses(3));
    assert!(!round.is_finished());
}
