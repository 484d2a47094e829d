use sn_client::error::Error;
use sn_client::query_response::QueryResponse;
use sn_client::tally::{QueryTally, QueryTaskResult};
use sn_data_types::{ActorHistory, Money};
use sn_messaging::QueryResponse as ResponseMessage;

fn balance(nano: u64) -> QueryResponse {
    QueryResponse::new(ResponseMessage::GetBalance(Ok(Money::from_nano(nano))))
}

fn history(nano: u64, len: usize) -> QueryResponse {
    QueryResponse {
        message: ResponseMessage::GetStoreCost(Ok(Money::from_nano(nano))),
        history_len: Some(len),
    }
}

fn given(response: QueryResponse) -> QueryTaskResult {
    QueryTaskResult::Response(response)
}

fn hear(tally: &mut QueryTally, results: Vec<QueryTaskResult>) -> usize {
    let mut heard = 0;
    for result in results {
        if tally.is_finished() {
            break;
        }
        assert!(tally.on_result(result).is_ok());
        heard += 1;
    }
    heard
}

fn elected(tally: QueryTally) -> ResponseMessage {
    match tally.outcome() {
        Ok(response) => response.message,
        Err(error) => panic!("no response: {:?}", error),
    }
}

#[test]
fn response_above_threshold_is_elected_at_once() {
    // Three of five is the threshold, and four is above it.
    let mut tally = QueryTally::new(5, false);
    let key = [7u8; 32];
    for _ in 0..3 {
        assert!(!tally.is_finished());
        tally.count_response(key, balance(1));
    }
    assert!(!tally.is_finished());
    tally.count_response(key, balance(1));
    assert!(tally.is_finished());
    assert!(elected(tally) == balance(1).message);
}

#[test]
fn latest_response_wins_above_threshold() {
    let mut tally = QueryTally::new(2, false);
    let key = [7u8; 32];
    tally.count_response(key, balance(1));
    assert!(!tally.is_finished());
    tally.count_response(key, balance(2));
    assert!(tally.is_finished());
    assert!(elected(tally) == balance(2).message);
}

#[test]
fn most_popular_response_is_elected_once_enough_have_answered() {
    let mut tally = QueryTally::new(5, false);
    let heard = hear(
        &mut tally,
        vec![
            given(balance(1)),
            given(balance(2)),
            given(balance(2)),
            given(balance(3)),
            given(balance(1)),
        ],
    );
    assert_eq!(heard, 4);
    assert!(elected(tally) == balance(2).message);
}

#[test]
fn first_of_equals_is_kept() {
    let mut tally = QueryTally::new(5, false);
    let heard = hear(
        &mut tally,
        vec![
            given(balance(4)),
            given(balance(5)),
            given(balance(5)),
            given(balance(4)),
        ],
    );
    assert_eq!(heard, 4);
    assert!(elected(tally) == balance(5).message);
}

#[test]
fn errors_count_once_for_each_different_response() {
    // One error and two different responses count as four, which is above three.
    let mut tally = QueryTally::new(5, false);
    let heard = hear(
        &mut tally,
        vec![
            QueryTaskResult::Aborted,
            given(balance(1)),
            given(balance(2)),
            given(balance(2)),
        ],
    );
    assert_eq!(heard, 3);
    assert!(elected(tally) == balance(1).message);
}

#[test]
fn errors_alone_elect_nothing() {
    let mut tally = QueryTally::new(3, false);
    let heard = hear(
        &mut tally,
        vec![
            QueryTaskResult::Error(Error::ReceivingQuery),
            QueryTaskResult::Aborted,
            QueryTaskResult::Error(Error::ReceivingQuery),
        ],
    );
    assert_eq!(heard, 3);
    assert!(tally.is_finished());
    assert!(matches!(tally.outcome(), Err(Error::NoResponse)));
}

#[test]
fn one_response_among_errors_is_the_outcome() {
    let mut tally = QueryTally::new(3, false);
    let _ = hear(
        &mut tally,
        vec![
            QueryTaskResult::Error(Error::ReceivingQuery),
            given(balance(9)),
            QueryTaskResult::Aborted,
        ],
    );
    assert!(tally.is_finished());
    assert!(elected(tally) == balance(9).message);
}

#[test]
fn without_elders_there_is_no_response() {
    let tally = QueryTally::new(0, false);
    assert!(tally.is_finished());
    assert!(matches!(tally.outcome(), Err(Error::NoResponse)));
}

#[test]
fn single_elder_is_believed() {
    let mut tally = QueryTally::new(1, false);
    assert_eq!(hear(&mut tally, vec![given(balance(3)), given(balance(4))]), 1);
    assert!(elected(tally) == balance(3).message);
}

#[test]
fn equal_responses_are_counted_together_and_different_ones_apart() {
    // With seven elders the threshold is four.
    let mut tally = QueryTally::new(7, false);
    let heard = hear(
        &mut tally,
        vec![
            given(balance(1)),
            given(balance(2)),
            given(balance(2)),
            given(balance(2)),
            given(balance(1)),
        ],
    );
    assert_eq!(heard, 5);
    assert!(elected(tally) == balance(2).message);
}

#[test]
fn longer_history_is_preferred_with_simulated_payouts() {
    let results = || vec![given(history(1, 2)), given(history(2, 5)), given(history(3, 3))];
    let mut tally = QueryTally::new(3, true);
    assert_eq!(hear(&mut tally, results()), 3);
    assert!(elected(tally) == history(2, 5).message);

    let mut tally = QueryTally::new(3, false);
    assert_eq!(hear(&mut tally, results()), 3);
    assert!(elected(tally) == history(1, 2).message);
}

#[test]
fn more_votes_beat_a_longer_history() {
    let mut tally = QueryTally::new(4, true);
    let heard = hear(
        &mut tally,
        vec![given(history(1, 9)), given(history(2, 1)), given(history(2, 1))],
    );
    assert_eq!(heard, 3);
    assert!(elected(tally) == history(2, 1).message);
}

#[test]
fn history_length_is_read_from_the_response() {
    let empty = QueryResponse::new(ResponseMessage::GetHistory(Ok(ActorHistory::empty())));
    assert_eq!(empty.history_len, Some(0));
    assert_eq!(balance(1).history_len, None);
    let failed = ResponseMessage::GetHistory(Err(sn_messaging::Error::NoSuchData));
    assert_eq!(QueryResponse::new(failed).history_len, None);
}

#[test]
fn copy_of_a_response_is_the_response() {
    let copy = history(8, 4).clone();
    assert!(copy.message == history(8, 4).message);
    assert_eq!(copy.history_len, Some(4));
}
