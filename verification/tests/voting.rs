use sn_client::query_response::QueryResponse;
use sn_client::voting::{select_best_of_the_rest_response, Vote, VoteMap};
use sn_data_types::Money;
use sn_messaging::QueryResponse as ResponseMessage;

fn balance(nano: u64) -> QueryResponse {
    QueryResponse::new(ResponseMessage::GetBalance(Ok(Money::from_nano(nano))))
}

fn vote(nano: u64, votes: usize, history_len: Option<usize>) -> Vote {
    let mut response = balance(nano);
    response.history_len = history_len;
    Vote { key: [nano as u8; 32], response, votes }
}

fn selected(
    current: Option<(u64, usize)>,
    threshold: usize,
    entries: Vec<Vote>,
    errors: usize,
    simulated_payouts: bool,
) -> (Option<ResponseMessage>, usize, bool) {
    let winner = match current {
        Some((nano, votes)) => (Some(balance(nano)), votes),
        None => (None, threshold),
    };
    let mut elected = false;
    match select_best_of_the_rest_response(
        winner,
        threshold,
        &VoteMap { entries },
        errors,
        simulated_payouts,
        &mut elected,
    ) {
        Ok((response, votes)) => (response.map(|response| response.message), votes, elected),
        Err(error) => panic!("not selected: {:?}", error),
    }
}

#[test]
fn casting_counts_votes_by_key() {
    let mut votes = VoteMap::new();
    assert_eq!(votes.cast([1; 32], &balance(1)), 1);
    assert_eq!(votes.cast([2; 32], &balance(2)), 1);
    assert_eq!(votes.cast([1; 32], &balance(3)), 2);
    assert_eq!(votes.entries.len(), 2);
    assert!(votes.entries[0].response.message == balance(1).message);
    assert_eq!(votes.entries[0].votes, 2);
    assert_eq!(votes.entries[1].votes, 1);
}

#[test]
fn keys_that_differ_in_the_last_byte_are_apart() {
    let mut votes = VoteMap::new();
    let mut other = [1; 32];
    other[31] = 2;
    assert_eq!(votes.cast([1; 32], &balance(1)), 1);
    assert_eq!(votes.cast(other, &balance(1)), 1);
    assert_eq!(votes.cast(other, &balance(1)), 2);
}

#[test]
fn nothing_is_selected_without_votes() {
    assert!(selected(None, 3, vec![], 2, false) == (None, 3, false));
}

#[test]
fn first_with_most_votes_is_selected() {
    let entries = vec![vote(1, 1, None), vote(2, 2, None), vote(3, 2, None)];
    assert!(selected(None, 5, entries, 0, false) == (Some(balance(2).message), 2, false));
}

#[test]
fn current_winner_stays_until_outvoted() {
    let entries = vec![vote(1, 2, None), vote(2, 2, None)];
    assert!(selected(Some((2, 2)), 5, entries, 0, false) == (Some(balance(2).message), 2, false));
    let entries = vec![vote(1, 3, None), vote(2, 2, None)];
    assert!(selected(Some((2, 2)), 5, entries, 0, false) == (Some(balance(1).message), 3, false));
}

#[test]
fn election_needs_more_responses_than_the_threshold() {
    let entries = || vec![vote(1, 2, None), vote(2, 1, None)];
    assert!(!selected(None, 3, entries(), 0, false).2);
    assert!(selected(None, 2, entries(), 0, false).2);
    // The errors count for each of the two responses.
    assert!(selected(None, 4, entries(), 1, false).2);
    assert!(!selected(None, 5, entries(), 1, false).2);
}

#[test]
fn counting_responses_does_not_overflow() {
    let entries = vec![vote(1, usize::MAX, None), vote(2, usize::MAX, None)];
    assert!(selected(None, usize::MAX, entries, usize::MAX, false).2);
}

#[test]
fn longer_history_takes_over_only_from_a_history() {
    let entries = || vec![vote(1, 1, None), vote(2, 1, Some(7))];
    assert!(selected(None, 5, entries(), 0, true).0 == Some(balance(1).message));
    let entries = || vec![vote(1, 1, Some(6)), vote(2, 1, Some(7)), vote(3, 1, Some(7))];
    assert!(selected(None, 5, entries(), 0, true).0 == Some(balance(2).message));
    assert!(selected(None, 5, entries(), 0, false).0 == Some(balance(1).message));
}
