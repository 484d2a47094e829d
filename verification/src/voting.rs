//! The votes that elders cast for the responses to one query, and the choice
//! among them when no single response has passed the threshold.

use crate::error::Error;
use crate::message_id::same_bytes;
use crate::query_response::QueryResponse;
use vstd::prelude::*;

verus! {

/// A response and the number of elders that gave it. Responses are told apart by
/// a key, the hash of their encoding.
pub ghost struct Tallied {
    pub key: Seq<u8>,
    pub response: QueryResponse,
    pub votes: nat,
}

/// The best response so far, if there is one, and the votes it was chosen with.
pub type Winner = (Option<QueryResponse>, usize);

/// One entry of a [`VoteMap`].
pub struct Vote {
    pub key: [u8; 32],
    pub response: QueryResponse,
    pub votes: usize,
}

impl View for Vote {
    type V = Tallied;

    open spec fn view(&self) -> Tallied {
        Tallied { key: self.key@, response: self.response, votes: self.votes as nat }
    }
}

/// Simple map for correlating a response with votes from various elder responses.
/// No key occurs twice; an entry keeps its place once it is there.
pub struct VoteMap {
    pub entries: Vec<Vote>,
}

impl View for VoteMap {
    type V = Seq<Tallied>;

    open spec fn view(&self) -> Seq<Tallied> {
        self.entries@.map_values(|vote: Vote| vote@)
    }
}

/// The keys of the responses, in their order.
pub open spec fn keys(votes: Seq<Tallied>) -> Seq<Seq<u8>> {
    votes.map_values(|tallied: Tallied| tallied.key)
}

/// The votes for the response with this key.
pub open spec fn votes_for(votes: Seq<Tallied>, key: Seq<u8>) -> nat {
    if keys(votes).contains(key) {
        votes[keys(votes).index_of(key)].votes
    } else {
        0
    }
}

/// All votes together.
pub open spec fn total_votes(votes: Seq<Tallied>) -> nat
    decreases votes.len(),
{
    if votes.len() == 0 {
        0
    } else {
        total_votes(votes.drop_last()) + votes.last().votes
    }
}

/// The votes once an elder has given the response with this key: one more for it
/// where it is known already, else one vote for a new last entry.
pub open spec fn cast(votes: Seq<Tallied>, key: Seq<u8>, response: QueryResponse) -> Seq<Tallied> {
    if keys(votes).contains(key) {
        let i = keys(votes).index_of(key);
        votes.update(i, Tallied { votes: votes[i].votes + 1, ..votes[i] })
    } else {
        votes.push(Tallied { key, response, votes: 1 })
    }
}

/// Whether a response carries a longer history than another one does.
pub open spec fn has_longer_history(response: QueryResponse, than: QueryResponse) -> bool {
    match (response.history_len, than.history_len) {
        (Some(len), Some(other)) => len > other,
        _ => false,
    }
}

/// Whether a response takes the place of the best one so far: where there is
/// none, where it has more votes, or, with simulated payouts, where it has as many
/// and a longer history.
pub open spec fn takes_over(
    simulated_payouts: bool,
    best: (Option<QueryResponse>, nat),
    candidate: Tallied,
) -> bool {
    match best.0 {
        None => true,
        Some(response) => {
            ||| candidate.votes > best.1
            ||| simulated_payouts && candidate.votes == best.1 && has_longer_history(
                candidate.response,
                response,
            )
        },
    }
}

/// The best response after a walk over the votes that starts with `current`.
pub open spec fn best_of(
    simulated_payouts: bool,
    current: (Option<QueryResponse>, nat),
    walk: Seq<Tallied>,
) -> (Option<QueryResponse>, nat)
    decreases walk.len(),
{
    if walk.len() == 0 {
        current
    } else {
        let best = best_of(simulated_payouts, current, walk.drop_last());
        if takes_over(simulated_payouts, best, walk.last()) {
            (Some(walk.last().response), walk.last().votes)
        } else {
            best
        }
    }
}

/// The responses that the choice counts: each different response with its votes
/// and, each time, the errors.
pub open spec fn responses_counted(walk: Seq<Tallied>, errors: nat) -> nat
    decreases walk.len(),
{
    if walk.len() == 0 {
        0
    } else {
        responses_counted(walk.drop_last(), errors) + walk.last().votes + errors
    }
}

/// A winner as the specifications speak of it.
pub open spec fn winner_view(winner: Winner) -> (Option<QueryResponse>, nat) {
    (winner.0, winner.1 as nat)
}

impl VoteMap {
    /// A map without votes.
    pub fn new() -> (votes: VoteMap)
        ensures
            votes@ == Seq::<Tallied>::empty(),
    {
        VoteMap { entries: Vec::new() }
    }

    /// Adds one vote for the response with this key, and returns how many votes it
    /// has then.
    pub fn cast(&mut self, key: [u8; 32], response: &QueryResponse) -> (counter: usize)
        requires
            keys(old(self)@).no_duplicates(),
            votes_for(old(self)@, key@) < usize::MAX,
        ensures
            final(self)@ == cast(old(self)@, key@, *response),
            counter == votes_for(final(self)@, key@),
            keys(final(self)@).no_duplicates(),
    {
        let ghost before = self@;
        let mut i: usize = 0;
        while i < self.entries.len()
            invariant
                i <= self.entries.len(),
                self@ == before,
                before == old(self)@,
                keys(before).no_duplicates(),
                votes_for(before, key@) < usize::MAX,
                forall|j: int| 0 <= j < i ==> #[trigger] before[j].key != key@,
            decreases self.entries.len() - i,
        {
            if same_bytes(&self.entries[i].key, &key) {
                assert(before[i as int] == self.entries@[i as int]@);
                assert(keys(before)[i as int] == key@);
                assert(keys(before).index_of(key@) == i);
                let counter: usize = self.entries[i].votes + 1;
                self.entries[i].votes = counter;
                proof {
                    assert(self@ =~= cast(before, key@, *response));
                    assert(keys(self@) =~= keys(before));
                }
                return counter;
            }
            assert(before[i as int] == self.entries@[i as int]@);
            i += 1;
        }
        assert(!keys(before).contains(key@));
        self.entries.push(Vote { key, response: response.clone(), votes: 1 });
        proof {
            assert(self@ =~= cast(before, key@, *response));
            assert(keys(self@) =~= keys(before).push(key@));
            assert(keys(self@)[before.len() as int] == key@);
            assert(keys(self@).index_of(key@) == before.len());
        }
        1
    }
}

/// One entry's votes are among all votes, and a change of them is a change of all.
pub proof fn lemma_total_votes_update(votes: Seq<Tallied>, i: int, tallied: Tallied)
    requires
        0 <= i < votes.len(),
    ensures
        votes[i].votes <= total_votes(votes),
        total_votes(votes.update(i, tallied)) == total_votes(votes) - votes[i].votes
            + tallied.votes,
    decreases votes.len(),
{
    let updated = votes.update(i, tallied);
    if i == votes.len() - 1 {
        assert(updated.drop_last() =~= votes.drop_last());
    } else {
        lemma_total_votes_update(votes.drop_last(), i, tallied);
        assert(updated.drop_last() =~= votes.drop_last().update(i, tallied));
    }
}

/// A response has no more votes than all have together.
pub proof fn lemma_votes_for_bound(votes: Seq<Tallied>, key: Seq<u8>)
    ensures
        votes_for(votes, key) <= total_votes(votes),
{
    if keys(votes).contains(key) {
        let i = keys(votes).index_of(key);
        lemma_total_votes_update(votes, i, votes[i]);
    }
}

/// A vote counts for its own response, for that one alone, and once.
pub proof fn law_vote_counts_once(votes: Seq<Tallied>, key: Seq<u8>, response: QueryResponse)
    requires
        keys(votes).no_duplicates(),
    ensures
        keys(cast(votes, key, response)).no_duplicates(),
        votes_for(cast(votes, key, response), key) == votes_for(votes, key) + 1,
        forall|other: Seq<u8>|
            other != key ==> #[trigger] votes_for(cast(votes, key, response), other) == votes_for(
                votes,
                other,
            ),
        total_votes(cast(votes, key, response)) == total_votes(votes) + 1,
{
    let after = cast(votes, key, response);
    if keys(votes).contains(key) {
        let i = keys(votes).index_of(key);
        lemma_total_votes_update(votes, i, after[i]);
        assert(keys(after) =~= keys(votes));
    } else {
        assert(after.drop_last() =~= votes);
        assert(keys(after) =~= keys(votes).push(key));
        assert(keys(after)[votes.len() as int] == key);
        assert(keys(after).index_of(key) == votes.len());
        assert forall|other: Seq<u8>| other != key implies #[trigger] votes_for(after, other)
            == votes_for(votes, other) by {
            if keys(votes).contains(other) {
                let j = keys(votes).index_of(other);
                assert(keys(after)[j] == other);
                assert(keys(after).index_of(other) == j);
            } else if keys(after).contains(other) {
                let j = keys(after).index_of(other);
                assert(keys(votes)[j] == other);
            }
        }
    }
}

/// Choose the best response when no single responses passes the threshold.
///
/// The walk starts with the winner so far. The election is over when more
/// responses have been counted than the threshold.
pub fn select_best_of_the_rest_response(
    current_winner: Winner,
    threshold: usize,
    vote_map: &VoteMap,
    received_errors: usize,
    simulated_payouts: bool,
    has_elected_a_response: &mut bool,
) -> (selected: Result<Winner, Error>)
    ensures
        selected matches Ok(winner) && winner_view(winner) == best_of(
            simulated_payouts,
            winner_view(current_winner),
            vote_map@,
        ),
        *final(has_elected_a_response) == (*old(has_elected_a_response) || responses_counted(
            vote_map@,
            received_errors as nat,
        ) > threshold),
{
    let mut most_popular_response: Winner = current_winner;
    let mut number_of_responses: usize = 0;
    let mut above_threshold: bool = false;
    let mut i: usize = 0;
    while i < vote_map.entries.len()
        invariant
            i <= vote_map.entries.len(),
            winner_view(most_popular_response) == best_of(
                simulated_payouts,
                winner_view(current_winner),
                vote_map@.take(i as int),
            ),
            above_threshold ==> responses_counted(vote_map@.take(i as int), received_errors as nat)
                > threshold,
            !above_threshold ==> number_of_responses == responses_counted(
                vote_map@.take(i as int),
                received_errors as nat,
            ) && number_of_responses <= threshold,
        decreases vote_map.entries.len() - i,
    {
        proof {
            assert(vote_map@.take(i + 1).drop_last() =~= vote_map@.take(i as int));
            assert(vote_map@.take(i + 1).last() == vote_map.entries@[i as int]@);
        }
        let vote = &vote_map.entries[i];
        if !above_threshold {
            let room: usize = threshold - number_of_responses;
            if vote.votes > room || received_errors > room - vote.votes {
                above_threshold = true;
            } else {
                number_of_responses = number_of_responses + vote.votes + received_errors;
            }
        }
        let takes_over = match &most_popular_response.0 {
            None => true,
            Some(popular) => {
                if vote.votes > most_popular_response.1 {
                    true
                } else if simulated_payouts && vote.votes == most_popular_response.1 {
                    match (vote.response.history_len, popular.history_len) {
                        (Some(history), Some(popular_history)) => history > popular_history,
                        _ => false,
                    }
                } else {
                    false
                }
            },
        };
        if takes_over {
            most_popular_response = (Some(vote.response.clone()), vote.votes);
        }
        i += 1;
    }
    assert(vote_map@.take(i as int) =~= vote_map@);
    if above_threshold {
        *has_elected_a_response = true;
    }
    Ok(most_popular_response)
}

/// A vote map is seen in full: each entry, in its place, with its key, its response and
/// its votes.
pub proof fn law_vote_map_is_seen_in_full(vote_map: VoteMap)
    ensures
        vote_map@.len() == vote_map.entries.len(),
        forall|i: int|
            0 <= i < vote_map@.len() ==> {
                &&& (#[trigger] vote_map@[i]).key == vote_map.entries@[i].key@
                &&& vote_map@[i].response == vote_map.entries@[i].response
                &&& vote_map@[i].votes == vote_map.entries@[i].votes
            },
{
}

/// A winner is seen in full.
pub proof fn law_winner_is_seen_in_full(winner: Winner)
    ensures
        winner_view(winner).0 == winner.0,
        winner_view(winner).1 == winner.1,
{
}

/// The votes for a key are those of the entry that has it, and none where no entry does.
pub proof fn law_votes_are_those_of_the_entry(votes: Seq<Tallied>, key: Seq<u8>)
    requires
        forall|i: int, j: int|
            0 <= i < j < votes.len() ==> (#[trigger] votes[i]).key != (#[trigger] votes[j]).key,
    ensures
        keys(votes).no_duplicates(),
        forall|i: int|
            0 <= i < votes.len() && (#[trigger] votes[i]).key == key ==> votes_for(votes, key)
                == votes[i].votes,
        (forall|i: int| 0 <= i < votes.len() ==> (#[trigger] votes[i]).key != key) ==> votes_for(
            votes,
            key,
        ) == 0,
{
    assert(keys(votes).len() == votes.len());
    assert forall|i: int, j: int| 0 <= i < j < votes.len() implies keys(votes)[i] != keys(
        votes,
    )[j] by {
        assert(votes[i].key != votes[j].key);
    }
    assert forall|i: int| 0 <= i < votes.len() && (#[trigger] votes[i]).key == key implies votes_for(
        votes,
        key,
    ) == votes[i].votes by {
        assert(keys(votes)[i] == key);
        assert(keys(votes).index_of(key) == i);
    }
    if keys(votes).contains(key) {
        let i = keys(votes).index_of(key);
        assert(votes[i].key == key);
    }
}

/// A vote for a key that is known adds one to its entry and changes nothing else: the
/// entry keeps the response that was given first.
pub proof fn law_vote_for_known_key(
    votes: Seq<Tallied>,
    key: Seq<u8>,
    response: QueryResponse,
    i: int,
)
    requires
        keys(votes).no_duplicates(),
        0 <= i < votes.len(),
        votes[i].key == key,
    ensures
        ({
            let after = cast(votes, key, response);
            &&& after.len() == votes.len()
            &&& after[i].key == key
            &&& after[i].response == votes[i].response
            &&& after[i].votes == votes[i].votes + 1
            &&& forall|j: int| 0 <= j < votes.len() && j != i ==> #[trigger] after[j] == votes[j]
        }),
{
    assert(keys(votes)[i] == key);
    assert(keys(votes).index_of(key) == i);
}

/// A vote for a key that is not known adds an entry with that response and one vote,
/// and changes nothing else.
pub proof fn law_vote_for_new_key(votes: Seq<Tallied>, key: Seq<u8>, response: QueryResponse)
    requires
        forall|i: int| 0 <= i < votes.len() ==> (#[trigger] votes[i]).key != key,
    ensures
        ({
            let after = cast(votes, key, response);
            &&& after.len() == votes.len() + 1
            &&& after.last().key == key
            &&& after.last().response == response
            &&& after.last().votes == 1
            &&& forall|j: int| 0 <= j < votes.len() ==> #[trigger] after[j] == votes[j]
        }),
{
    if keys(votes).contains(key) {
        let i = keys(votes).index_of(key);
        assert(votes[i].key == key);
    }
}

/// All votes together are those of the entries, added up.
pub proof fn law_total_votes_add_up(left: Seq<Tallied>, right: Seq<Tallied>, tallied: Tallied)
    ensures
        total_votes(Seq::empty()) == 0,
        total_votes(seq![tallied]) == tallied.votes,
        total_votes(left + right) == total_votes(left) + total_votes(right),
    decreases right.len(),
{
    assert(seq![tallied].drop_last() =~= Seq::<Tallied>::empty());
    assert(total_votes(seq![tallied].drop_last()) == 0);
    if right.len() == 0 {
        assert(left + right =~= left);
    } else {
        law_total_votes_add_up(left, right.drop_last(), tallied);
        assert((left + right).drop_last() =~= left + right.drop_last());
    }
}

/// The responses counted add up over the entries, each with its votes and the errors.
pub proof fn law_responses_counted_add_up(
    left: Seq<Tallied>,
    right: Seq<Tallied>,
    tallied: Tallied,
    errors: nat,
)
    ensures
        responses_counted(Seq::empty(), errors) == 0,
        responses_counted(seq![tallied], errors) == tallied.votes + errors,
        responses_counted(left + right, errors) == responses_counted(left, errors)
            + responses_counted(right, errors),
    decreases right.len(),
{
    assert(seq![tallied].drop_last() =~= Seq::<Tallied>::empty());
    assert(responses_counted(seq![tallied].drop_last(), errors) == 0);
    if right.len() == 0 {
        assert(left + right =~= left);
    } else {
        law_responses_counted_add_up(left, right.drop_last(), tallied, errors);
        assert((left + right).drop_last() =~= left + right.drop_last());
    }
}

/// A choice among some responses and then among others, starting with the first choice,
/// is the choice among all of them. Without responses the winner so far stays.
pub proof fn law_choice_goes_on(
    simulated_payouts: bool,
    current: (Option<QueryResponse>, nat),
    left: Seq<Tallied>,
    right: Seq<Tallied>,
)
    ensures
        best_of(simulated_payouts, current, Seq::empty()) == current,
        best_of(simulated_payouts, current, left + right) == best_of(
            simulated_payouts,
            best_of(simulated_payouts, current, left),
            right,
        ),
    decreases right.len(),
{
    if right.len() == 0 {
        assert(left + right =~= left);
    } else {
        law_choice_goes_on(simulated_payouts, current, left, right.drop_last());
        assert((left + right).drop_last() =~= left + right.drop_last());
    }
}

/// One response is chosen over the winner so far if there is none, if it has more votes,
/// or, with simulated payouts alone, if it has as many and both are histories of which it
/// is the longer. Otherwise the winner so far stays, with the votes that it had.
pub proof fn law_choice_between_two(
    simulated_payouts: bool,
    current: (Option<QueryResponse>, nat),
    candidate: Tallied,
)
    ensures
        ({
            let chosen = best_of(simulated_payouts, current, seq![candidate]);
            let first = current.0 is None;
            let more_votes = candidate.votes > current.1;
            let longer = simulated_payouts && candidate.votes == current.1
                && candidate.response.history_len is Some && current.0->0.history_len is Some
                && candidate.response.history_len->0 > current.0->0.history_len->0;
            &&& first || more_votes || longer ==> chosen == (
                Some(candidate.response),
                candidate.votes,
            )
            &&& !first && !more_votes && !longer ==> chosen == current
        }),
{
    let walk = seq![candidate];
    assert(walk.drop_last() =~= Seq::<Tallied>::empty());
    assert(best_of(simulated_payouts, current, walk.drop_last()) == current);
    assert(walk.last() == candidate);
}

/// Without simulated payouts, the first of those with the most votes is chosen, if they
/// are more than the winner so far has.
pub proof fn law_first_with_most_votes_is_chosen(
    current: (Option<QueryResponse>, nat),
    walk: Seq<Tallied>,
    i: int,
)
    requires
        0 <= i < walk.len(),
        current.0 is Some ==> walk[i].votes > current.1,
        forall|j: int| 0 <= j < i ==> (#[trigger] walk[j]).votes < walk[i].votes,
        forall|j: int| i < j < walk.len() ==> (#[trigger] walk[j]).votes <= walk[i].votes,
    ensures
        best_of(false, current, walk) == (Some(walk[i].response), walk[i].votes),
    decreases walk.len(),
{
    let shorter = walk.drop_last();
    if i < walk.len() - 1 {
        assert forall|j: int| 0 <= j < i implies (#[trigger] shorter[j]).votes < shorter[i].votes by {
            assert(walk[j].votes < walk[i].votes);
        }
        assert forall|j: int| i < j < shorter.len() implies (#[trigger] shorter[j]).votes
            <= shorter[i].votes by {
            assert(walk[j].votes <= walk[i].votes);
        }
        law_first_with_most_votes_is_chosen(current, shorter, i);
        assert(walk[walk.len() - 1].votes <= walk[i].votes);
    } else {
        assert forall|j: int| 0 <= j < shorter.len() implies (#[trigger] shorter[j]).votes
            < walk[i].votes by {
            assert(walk[j].votes < walk[i].votes);
        }
        lemma_chosen_votes_below(current, shorter, walk[i].votes);
    }
}

/// No choice has as many votes as are above all.
proof fn lemma_chosen_votes_below(
    current: (Option<QueryResponse>, nat),
    walk: Seq<Tallied>,
    bound: nat,
)
    requires
        current.0 is Some ==> current.1 < bound,
        forall|j: int| 0 <= j < walk.len() ==> (#[trigger] walk[j]).votes < bound,
    ensures
        best_of(false, current, walk).0 is Some ==> best_of(false, current, walk).1 < bound,
    decreases walk.len(),
{
    if walk.len() > 0 {
        let shorter = walk.drop_last();
        assert forall|j: int| 0 <= j < shorter.len() implies (#[trigger] shorter[j]).votes < bound by {
            assert(walk[j].votes < bound);
        }
        lemma_chosen_votes_below(current, shorter, bound);
        assert(walk[walk.len() - 1].votes < bound);
    }
}

/// Without simulated payouts, the winner so far stays if no response has more votes.
pub proof fn law_winner_stays_until_outvoted(
    current: (Option<QueryResponse>, nat),
    walk: Seq<Tallied>,
)
    requires
        current.0 is Some,
        forall|j: int| 0 <= j < walk.len() ==> (#[trigger] walk[j]).votes <= current.1,
    ensures
        best_of(false, current, walk) == current,
    decreases walk.len(),
{
    if walk.len() > 0 {
        let shorter = walk.drop_last();
        assert forall|j: int| 0 <= j < shorter.len() implies (#[trigger] shorter[j]).votes
            <= current.1 by {
            assert(walk[j].votes <= current.1);
        }
        law_winner_stays_until_outvoted(current, shorter);
        assert(walk[walk.len() - 1].votes <= current.1);
    }
}

} // verus!
