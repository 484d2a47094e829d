use sn_client::error::Error;
use sn_client::query_response::QueryResponse;
use sn_client::retry::{Attempts, QueryEvent, Step, NUMBER_OF_RETRIES};
use sn_data_types::Money;
use sn_messaging::QueryResponse as ResponseMessage;

fn balance(nano: u64) -> QueryResponse {
    QueryResponse::new(ResponseMessage::GetBalance(Ok(Money::from_nano(nano))))
}

#[test]
fn success_ends_the_attempts() {
    let mut attempts = Attempts::new();
    assert!(matches!(attempts.after_attempt(Ok(5)), Step::Done(Ok(5))));
}

#[test]
fn failure_is_retried_three_times() {
    assert_eq!(NUMBER_OF_RETRIES, 3);
    let mut attempts = Attempts::new();
    for _ in 0..3 {
        let step = attempts.after_attempt::<()>(Err(Error::NoResponse));
        assert!(matches!(step, Step::Retry));
    }
    let step = attempts.after_attempt::<()>(Err(Error::NoResponse));
    assert!(matches!(step, Step::Done(Err(Error::NoResponse))));
}

#[test]
fn success_of_the_last_attempt_counts() {
    let mut attempts = Attempts::new();
    for _ in 0..3 {
        assert!(matches!(attempts.after_attempt::<u8>(Err(Error::NoResponse)), Step::Retry));
    }
    assert!(matches!(attempts.after_attempt(Ok(1)), Step::Done(Ok(1))));
}

#[test]
fn query_is_retried_when_it_is_not_sent_or_answered() {
    let mut attempts = Attempts::new();
    assert!(matches!(attempts.after_query(QueryEvent::SendFailed), Step::Retry));
    assert!(matches!(attempts.after_query(QueryEvent::Reply(None)), Step::Retry));
    let refused = QueryEvent::Reply(Some(Err(Error::NoResponse)));
    assert!(matches!(attempts.after_query(refused), Step::Retry));
    let step = attempts.after_query(QueryEvent::SendFailed);
    assert!(matches!(step, Step::Done(Err(Error::ReceivingQuery))));
}

#[test]
fn query_error_does_not_matter() {
    let mut attempts = Attempts::new();
    for _ in 0..3 {
        let refused = QueryEvent::Reply(Some(Err(Error::NoResponse)));
        assert!(matches!(attempts.after_query(refused), Step::Retry));
    }
    let step = attempts.after_query(QueryEvent::Reply(Some(Err(Error::NoResponse))));
    assert!(matches!(step, Step::Done(Err(Error::ReceivingQuery))));
}

#[test]
fn elder_that_cannot_be_connected_to_is_given_up() {
    let mut attempts = Attempts::new();
    let step = attempts.after_query(QueryEvent::ConnectFailed(Error::NoResponse));
    assert!(matches!(step, Step::Done(Err(Error::NoResponse))));
}

#[test]
fn query_response_ends_the_attempts() {
    let mut attempts = Attempts::new();
    assert!(matches!(attempts.after_query(QueryEvent::SendFailed), Step::Retry));
    match attempts.after_query(QueryEvent::Reply(Some(Ok(balance(6))))) {
        Step::Done(Ok(response)) => assert!(response.message == balance(6).message),
        _ => panic!("no response"),
    }
}
