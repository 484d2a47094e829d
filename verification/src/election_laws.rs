//! What holds of every election, whatever the elders answer and in whatever order.

use crate::query_response::QueryResponse;
use crate::tally::{
    fresh, has_most_votes, lemma_after_wf, lemma_best_of, vote_key, Ballot, Tally,
};
use crate::voting::{
    best_of, cast, has_longer_history, keys, law_choice_between_two, law_choice_goes_on,
    law_vote_counts_once, law_vote_for_known_key, law_vote_for_new_key, lemma_votes_for_bound,
    responses_counted, takes_over, total_votes, votes_for, Tallied,
};
use crate::wire;
use vstd::prelude::*;

verus! {

/// The election among so many elders that the ballots lead to, in the order in
/// which they come in. Ballots that come after its end are not heard.
pub open spec fn election(elders: nat, simulated_payouts: bool, ballots: Seq<Ballot>) -> Tally
    decreases ballots.len(),
{
    if ballots.len() == 0 {
        fresh(elders, simulated_payouts)
    } else {
        let tally = election(elders, simulated_payouts, ballots.drop_last());
        if tally.finished() {
            tally
        } else {
            tally.after(ballots.last())
        }
    }
}

/// Whether the election was still on when the last of the ballots came in.
pub open spec fn all_heard(elders: nat, simulated_payouts: bool, ballots: Seq<Ballot>) -> bool {
    ballots.len() == 0 || !election(elders, simulated_payouts, ballots.drop_last()).finished()
}

/// How many ballots give the response with this key.
pub open spec fn ballots_for(ballots: Seq<Ballot>, key: Seq<u8>) -> nat
    decreases ballots.len(),
{
    if ballots.len() == 0 {
        0
    } else {
        let rest = ballots_for(ballots.drop_last(), key);
        match ballots.last() {
            Ballot::Response { key: given, .. } => if given == key {
                rest + 1
            } else {
                rest
            },
            Ballot::Error => rest,
        }
    }
}

/// How many ballots are errors.
pub open spec fn error_ballots(ballots: Seq<Ballot>) -> nat
    decreases ballots.len(),
{
    if ballots.len() == 0 {
        0
    } else {
        error_ballots(ballots.drop_last()) + if ballots.last() is Error {
            1nat
        } else {
            0
        }
    }
}

/// Every state of an election is well-formed.
pub proof fn law_election_is_well_formed(
    elders: nat,
    simulated_payouts: bool,
    ballots: Seq<Ballot>,
)
    ensures
        election(elders, simulated_payouts, ballots).wf(),
        election(elders, simulated_payouts, ballots).elders == elders,
        election(elders, simulated_payouts, ballots).simulated_payouts == simulated_payouts,
    decreases ballots.len(),
{
    if ballots.len() == 0 {
        assert(keys(Seq::<Tallied>::empty()).no_duplicates());
    } else {
        law_election_is_well_formed(elders, simulated_payouts, ballots.drop_last());
        let tally = election(elders, simulated_payouts, ballots.drop_last());
        if !tally.finished() {
            lemma_after_wf(tally, ballots.last());
        }
    }
}

proof fn lemma_all_heard_before(elders: nat, simulated_payouts: bool, ballots: Seq<Ballot>)
    requires
        ballots.len() > 0,
        all_heard(elders, simulated_payouts, ballots),
    ensures
        all_heard(elders, simulated_payouts, ballots.drop_last()),
{
}

/// Every elder that was heard is counted: under the key of the response that it
/// gave, or as an error. The others are outstanding.
pub proof fn law_every_ballot_counts(
    elders: nat,
    simulated_payouts: bool,
    ballots: Seq<Ballot>,
    key: Seq<u8>,
)
    requires
        all_heard(elders, simulated_payouts, ballots),
    ensures
        votes_for(election(elders, simulated_payouts, ballots).votes, key) == ballots_for(
            ballots,
            key,
        ),
        election(elders, simulated_payouts, ballots).errors == error_ballots(ballots),
        election(elders, simulated_payouts, ballots).outstanding == elders - ballots.len(),
    decreases ballots.len(),
{
    if ballots.len() > 0 {
        let earlier = ballots.drop_last();
        lemma_all_heard_before(elders, simulated_payouts, ballots);
        law_every_ballot_counts(elders, simulated_payouts, earlier, key);
        law_election_is_well_formed(elders, simulated_payouts, earlier);
        let tally = election(elders, simulated_payouts, earlier);
        lemma_after_wf(tally, ballots.last());
        if let Ballot::Response { key: given, response } = ballots.last() {
            law_vote_counts_once(tally.votes, given, response);
        }
    }
}

/// An election is over once all elders have been heard.
pub proof fn law_election_ends(elders: nat, simulated_payouts: bool, ballots: Seq<Ballot>)
    requires
        ballots.len() >= elders,
    ensures
        election(elders, simulated_payouts, ballots).finished(),
    decreases ballots.len(),
{
    if ballots.len() > 0 {
        if all_heard(elders, simulated_payouts, ballots) {
            law_every_ballot_counts(elders, simulated_payouts, ballots, Seq::empty());
        }
    }
}

/// What is decided once an election is over stands, whatever comes in later.
pub proof fn law_finished_election_stands(
    elders: nat,
    simulated_payouts: bool,
    ballots: Seq<Ballot>,
    later: Seq<Ballot>,
)
    requires
        election(elders, simulated_payouts, ballots).finished(),
    ensures
        election(elders, simulated_payouts, ballots + later) == election(
            elders,
            simulated_payouts,
            ballots,
        ),
    decreases later.len(),
{
    if later.len() == 0 {
        assert(ballots + later =~= ballots);
    } else {
        law_finished_election_stands(elders, simulated_payouts, ballots, later.drop_last());
        assert((ballots + later).drop_last() =~= ballots + later.drop_last());
    }
}

/// There is no response to a query if and only if no elder gave one.
pub proof fn law_no_response_only_without_responses(
    elders: nat,
    simulated_payouts: bool,
    ballots: Seq<Ballot>,
)
    requires
        ballots.len() <= elders,
    ensures
        election(elders, simulated_payouts, ballots).outcome() is None <==> (forall|j: int|
            0 <= j < ballots.len() ==> ballots[j] is Error),
    decreases ballots.len(),
{
    if ballots.len() > 0 {
        let earlier = ballots.drop_last();
        law_no_response_only_without_responses(elders, simulated_payouts, earlier);
        law_election_is_well_formed(elders, simulated_payouts, earlier);
        law_election_is_well_formed(elders, simulated_payouts, ballots);
        let tally = election(elders, simulated_payouts, earlier);
        assert(forall|j: int| 0 <= j < earlier.len() ==> earlier[j] == ballots[j]);
        if tally.finished() {
            if !tally.elected {
                lemma_unfinished_prefix(elders, simulated_payouts, earlier);
            }
            assert(tally.outcome() is Some);
            let j = choose|j: int| 0 <= j < earlier.len() && !(earlier[j] is Error);
            assert(!(ballots[j] is Error));
        } else {
            match ballots.last() {
                Ballot::Response { key, response } => {
                    law_vote_counts_once(tally.votes, key, response);
                    assert(!(ballots[ballots.len() - 1] is Error));
                },
                Ballot::Error => {
                    assert(tally.after(ballots.last()).votes == tally.votes);
                },
            }
        }
    }
}

/// With fewer ballots than elders, only an elected response ends an election.
proof fn lemma_unfinished_prefix(elders: nat, simulated_payouts: bool, ballots: Seq<Ballot>)
    requires
        ballots.len() < elders,
    ensures
        election(elders, simulated_payouts, ballots).finished() ==> election(
            elders,
            simulated_payouts,
            ballots,
        ).elected,
    decreases ballots.len(),
{
    if ballots.len() > 0 {
        lemma_unfinished_prefix(elders, simulated_payouts, ballots.drop_last());
        if all_heard(elders, simulated_payouts, ballots) {
            law_every_ballot_counts(elders, simulated_payouts, ballots, Seq::empty());
        }
    }
}

/// Whether some ballot gives this response under this key.
pub open spec fn was_given(ballots: Seq<Ballot>, key: Seq<u8>, response: QueryResponse) -> bool {
    ballots.contains(Ballot::Response { key, response })
}

/// Every response that is voted on was given by some elder.
proof fn lemma_votes_were_given(elders: nat, simulated_payouts: bool, ballots: Seq<Ballot>)
    ensures
        ({
            let votes = election(elders, simulated_payouts, ballots).votes;
            forall|i: int|
                0 <= i < votes.len() ==> was_given(
                    ballots,
                    (#[trigger] votes[i]).key,
                    votes[i].response,
                )
        }),
    decreases ballots.len(),
{
    if ballots.len() > 0 {
        let earlier = ballots.drop_last();
        lemma_votes_were_given(elders, simulated_payouts, earlier);
        let tally = election(elders, simulated_payouts, earlier);
        let votes = election(elders, simulated_payouts, ballots).votes;
        assert forall|i: int| 0 <= i < votes.len() implies was_given(
            ballots,
            (#[trigger] votes[i]).key,
            votes[i].response,
        ) by {
            if i < tally.votes.len() {
                let ballot = Ballot::Response {
                    key: tally.votes[i].key,
                    response: tally.votes[i].response,
                };
                assert(was_given(earlier, tally.votes[i].key, tally.votes[i].response));
                let j = choose|j: int| 0 <= j < earlier.len() && earlier[j] == ballot;
                assert(ballots[j] == ballot);
            } else {
                assert(ballots[ballots.len() - 1] == ballots.last());
            }
        }
    }
}

/// The votes for the key of an entry are the votes of that entry.
proof fn lemma_votes_of_entry(votes: Seq<Tallied>, i: int)
    requires
        0 <= i < votes.len(),
        keys(votes).no_duplicates(),
    ensures
        votes_for(votes, votes[i].key) == votes[i].votes,
{
    assert(keys(votes)[i] == votes[i].key);
    assert(keys(votes).index_of(votes[i].key) == i);
}

/// No key has more votes than the most that an entry has.
proof fn lemma_most_votes_for(votes: Seq<Tallied>, most: nat, key: Seq<u8>)
    requires
        has_most_votes(votes, most),
    ensures
        votes_for(votes, key) <= most,
{
    if keys(votes).contains(key) {
        let i = keys(votes).index_of(key);
        assert(votes[i].votes <= most);
    }
}

/// The response that an election gives was given by some elder, and no other
/// response that was heard has more votes.
pub proof fn law_outcome_was_given_and_has_most_votes(
    elders: nat,
    simulated_payouts: bool,
    ballots: Seq<Ballot>,
)
    ensures
        ({
            let tally = election(elders, simulated_payouts, ballots);
            tally.outcome() matches Some(response) ==> {
                &&& exists|key: Seq<u8>| #[trigger]
                    was_given(ballots, key, response) && votes_for(tally.votes, key)
                        == tally.winner.1
                &&& forall|key: Seq<u8>| #[trigger] votes_for(tally.votes, key) <= tally.winner.1
            }
        }),
    decreases ballots.len(),
{
    let tally = election(elders, simulated_payouts, ballots);
    law_election_is_well_formed(elders, simulated_payouts, ballots);
    if tally.outcome() is Some {
        let response = tally.outcome()->0;
        assert forall|key: Seq<u8>| #[trigger] votes_for(tally.votes, key) <= tally.winner.1 by {
            lemma_most_votes_for(tally.votes, tally.winner.1, key);
        }
        let earlier = ballots.drop_last();
        let before = election(elders, simulated_payouts, earlier);
        law_election_is_well_formed(elders, simulated_payouts, earlier);
        law_outcome_was_given_and_has_most_votes(elders, simulated_payouts, earlier);
        lemma_votes_were_given(elders, simulated_payouts, ballots);
        assert forall|key: Seq<u8>, given: QueryResponse|
            was_given(earlier, key, given) implies #[trigger] was_given(ballots, key, given) by {
            let ballot = Ballot::Response { key, response: given };
            let j = choose|j: int| 0 <= j < earlier.len() && earlier[j] == ballot;
            assert(ballots[j] == ballot);
        }
        if before.outcome() is Some && tally.winner == before.winner {
            let key = choose|key: Seq<u8>| #[trigger]
                was_given(earlier, key, response) && votes_for(before.votes, key)
                    == before.winner.1;
            assert(was_given(earlier, key, response));
            assert(was_given(ballots, key, response));
            if !before.finished() {
                if let Ballot::Response { key: given, response: latest } = ballots.last() {
                    law_vote_counts_once(before.votes, given, latest);
                }
            }
            assert(votes_for(tally.votes, key) >= before.winner.1);
        } else if !before.finished() {
            let elected_at_once = match ballots.last() {
                Ballot::Response { key, response } => votes_for(tally.votes, key)
                    > before.threshold,
                Ballot::Error => false,
            };
            if elected_at_once {
                assert(ballots[ballots.len() - 1] == ballots.last());
                assert(was_given(ballots, ballots.last()->key, response));
            } else {
                lemma_best_of(simulated_payouts, before.winner, tally.votes);
                let i = choose|i: int|
                    0 <= i < tally.votes.len() && tally.winner == (
                        Some(tally.votes[i].response),
                        #[trigger] tally.votes[i].votes,
                    );
                assert(was_given(ballots, tally.votes[i].key, tally.votes[i].response));
                lemma_votes_of_entry(tally.votes, i);
            }
        }
    }
}

/// A response that more elders have given than the threshold, and thus more than
/// half of them, ends the election and is the one that it gives: no other response
/// has as many votes.
pub proof fn law_response_above_threshold_wins(
    elders: nat,
    simulated_payouts: bool,
    ballots: Seq<Ballot>,
    key: Seq<u8>,
)
    requires
        all_heard(elders, simulated_payouts, ballots),
        votes_for(election(elders, simulated_payouts, ballots).votes, key) > election(
            elders,
            simulated_payouts,
            ballots,
        ).threshold,
    ensures
        ({
            let tally = election(elders, simulated_payouts, ballots);
            &&& tally.elected
            &&& tally.winner.1 == votes_for(tally.votes, key)
            &&& 2 * votes_for(tally.votes, key) > elders
            &&& ballots.last() is Response && ballots.last()->key == key
            &&& tally.outcome() == Some(ballots.last()->response)
            &&& forall|other: Seq<u8>|
                other != key ==> #[trigger] votes_for(tally.votes, other) <= tally.threshold
        }),
{
    let tally = election(elders, simulated_payouts, ballots);
    assert(ballots.len() > 0) by {
        if ballots.len() == 0 {
            assert(!keys(tally.votes).contains(key));
        }
    }
    let before = election(elders, simulated_payouts, ballots.drop_last());
    law_election_is_well_formed(elders, simulated_payouts, ballots.drop_last());
    law_election_is_well_formed(elders, simulated_payouts, ballots);
    assert forall|other: Seq<u8>| #[trigger]
        votes_for(before.votes, other) <= before.threshold by {
        if keys(before.votes).contains(other) {
            let i = keys(before.votes).index_of(other);
            assert(before.votes[i].votes <= before.threshold);
        }
    }
    assert(ballots.last() is Response);
    law_vote_counts_once(before.votes, ballots.last()->key, ballots.last()->response);
}

/// Where all elders that give a response give the same one, it is the one that the
/// election gives.
pub proof fn law_unanimous_response_wins(
    elders: nat,
    simulated_payouts: bool,
    ballots: Seq<Ballot>,
    response: QueryResponse,
)
    requires
        ballots.len() <= elders,
        exists|j: int| 0 <= j < ballots.len() && !(#[trigger] ballots[j] is Error),
        forall|j: int|
            0 <= j < ballots.len() ==> (#[trigger] ballots[j] matches Ballot::Response {
                response: given,
                ..
            } ==> given == response),
    ensures
        election(elders, simulated_payouts, ballots).outcome() == Some(response),
{
    law_no_response_only_without_responses(elders, simulated_payouts, ballots);
    law_outcome_was_given_and_has_most_votes(elders, simulated_payouts, ballots);
}

/// With simulated payouts, a selected history is the longest of those that have as
/// many votes, whatever the order of the walk.
pub proof fn law_longest_history_is_selected(
    current: (Option<QueryResponse>, nat),
    walk: Seq<Tallied>,
)
    ensures
        ({
            let best = best_of(true, current, walk);
            best.0 matches Some(response) ==> response.history_len matches Some(len)
                ==> forall|i: int|
                0 <= i < walk.len() && (#[trigger] walk[i]).votes == best.1 ==> (
                walk[i].response.history_len matches Some(other) ==> other <= len)
        }),
    decreases walk.len(),
{
    if walk.len() > 0 {
        let shorter = walk.drop_last();
        law_longest_history_is_selected(current, shorter);
        lemma_best_of(true, current, shorter);
        let before = best_of(true, current, shorter);
        let best = best_of(true, current, walk);
        if best.0 is Some && best.0->0.history_len is Some {
            let len = best.0->0.history_len->0;
            assert forall|i: int| 0 <= i < walk.len() && (#[trigger] walk[i]).votes
                == best.1 implies (walk[i].response.history_len matches Some(other) ==> other
                <= len) by {
                if i < walk.len() - 1 {
                    assert(shorter[i] == walk[i]);
                    assert(shorter[i].votes <= before.1);
                }
            }
        }
    }
}

/// The responses counted are all votes, and the errors once for each different
/// response.
pub proof fn law_responses_counted(walk: Seq<Tallied>, errors: nat)
    ensures
        responses_counted(walk, errors) == total_votes(walk) + errors * walk.len(),
    decreases walk.len(),
{
    if walk.len() > 0 {
        law_responses_counted(walk.drop_last(), errors);
        assert(errors * walk.len() == errors * (walk.len() - 1) + errors) by (nonlinear_arith)
            requires
                walk.len() > 0,
        ;
    } else {
        assert(errors * walk.len() == 0) by (nonlinear_arith)
            requires
                walk.len() == 0,
        ;
    }
}

/// A response is elected if and only if more responses are counted than the
/// threshold: the votes, and the errors once for each different response.
pub proof fn law_elected_once_enough_responses_are_counted(
    elders: nat,
    simulated_payouts: bool,
    ballots: Seq<Ballot>,
)
    ensures
        ({
            let tally = election(elders, simulated_payouts, ballots);
            tally.elected <==> total_votes(tally.votes) + tally.errors * tally.votes.len()
                > tally.threshold
        }),
    decreases ballots.len(),
{
    let tally = election(elders, simulated_payouts, ballots);
    law_responses_counted(tally.votes, tally.errors);
    if ballots.len() > 0 {
        let earlier = ballots.drop_last();
        let before = election(elders, simulated_payouts, earlier);
        law_elected_once_enough_responses_are_counted(elders, simulated_payouts, earlier);
        if !before.finished() {
            if let Ballot::Response { key, .. } = ballots.last() {
                lemma_votes_for_bound(tally.votes, key);
                assert(0 <= tally.errors * tally.votes.len()) by (nonlinear_arith);
            }
        }
    }
}

/// Responses with the same encoding, equal ones above all, are counted together.
pub proof fn law_equal_responses_are_counted_together(left: QueryResponse, right: QueryResponse)
    requires
        wire::response_encoding(left.message) == wire::response_encoding(right.message),
    ensures
        vote_key(left) == vote_key(right),
{
}

/// The threshold is half of the elders, rounded up, throughout. An election is over if and
/// only if all elders have been heard, or the votes, together with the errors once for
/// each different response, are more than that half.
pub proof fn law_election_is_over_exactly_when(
    elders: nat,
    simulated_payouts: bool,
    ballots: Seq<Ballot>,
)
    requires
        all_heard(elders, simulated_payouts, ballots),
    ensures
        ({
            let tally = election(elders, simulated_payouts, ballots);
            &&& tally.threshold == (elders + 1) / 2
            &&& tally.finished() <==> ballots.len() == elders || total_votes(tally.votes)
                + tally.errors * tally.votes.len() > (elders + 1) / 2
        }),
{
    law_election_is_well_formed(elders, simulated_payouts, ballots);
    law_every_ballot_counts(elders, simulated_payouts, ballots, Seq::empty());
    law_elected_once_enough_responses_are_counted(elders, simulated_payouts, ballots);
}

/// With simulated payouts, no response with as many votes as the winner has a longer
/// history while an election is on.
proof fn lemma_winner_has_longest_history(elders: nat, ballots: Seq<Ballot>)
    requires
        !election(elders, true, ballots).finished(),
    ensures
        ({
            let tally = election(elders, true, ballots);
            tally.winner.0 matches Some(winner) ==> forall|i: int|
                0 <= i < tally.votes.len() && (#[trigger] tally.votes[i]).votes == tally.winner.1
                    ==> !has_longer_history(tally.votes[i].response, winner)
        }),
{
    if ballots.len() > 0 {
        let tally = election(elders, true, ballots);
        let before = election(elders, true, ballots.drop_last());
        law_election_is_well_formed(elders, true, ballots.drop_last());
        law_longest_history_is_selected(before.winner, tally.votes);
        assert(tally.winner == best_of(true, before.winner, tally.votes));
        assert forall|i: int|
            tally.winner.0 is Some && 0 <= i < tally.votes.len() && (#[trigger] tally.votes[i]).votes
                == tally.winner.1 implies !has_longer_history(
            tally.votes[i].response,
            tally.winner.0->0,
        ) by {
        }
    }
}

/// A walk in which no entry takes over leaves the winner.
proof fn lemma_nobody_takes_over(
    simulated_payouts: bool,
    current: (Option<QueryResponse>, nat),
    walk: Seq<Tallied>,
)
    requires
        forall|j: int|
            0 <= j < walk.len() ==> !takes_over(simulated_payouts, current, #[trigger] walk[j]),
    ensures
        best_of(simulated_payouts, current, walk) == current,
    decreases walk.len(),
{
    if walk.len() > 0 {
        let shorter = walk.drop_last();
        assert forall|j: int| 0 <= j < shorter.len() implies !takes_over(
            simulated_payouts,
            current,
            #[trigger] shorter[j],
        ) by {
            assert(shorter[j] == walk[j]);
        }
        lemma_nobody_takes_over(simulated_payouts, current, shorter);
        assert(walk[walk.len() - 1] == walk.last());
    }
}

/// A walk in which one entry alone takes over, and none takes over from it, leaves it.
proof fn lemma_one_takes_over(
    simulated_payouts: bool,
    current: (Option<QueryResponse>, nat),
    walk: Seq<Tallied>,
    i: int,
)
    requires
        0 <= i < walk.len(),
        takes_over(simulated_payouts, current, walk[i]),
        forall|j: int|
            0 <= j < walk.len() && j != i ==> !takes_over(
                simulated_payouts,
                current,
                #[trigger] walk[j],
            ),
        forall|j: int|
            0 <= j < walk.len() ==> !takes_over(
                simulated_payouts,
                (Some(walk[i].response), walk[i].votes),
                #[trigger] walk[j],
            ),
    ensures
        best_of(simulated_payouts, current, walk) == (Some(walk[i].response), walk[i].votes),
{
    let chosen = (Some(walk[i].response), walk[i].votes);
    let left = walk.take(i);
    let right = walk.skip(i + 1);
    assert(walk =~= left.push(walk[i]) + right);
    lemma_nobody_takes_over(simulated_payouts, current, left);
    assert(left.push(walk[i]).drop_last() =~= left);
    assert(best_of(simulated_payouts, current, left.push(walk[i])) == chosen);
    law_choice_goes_on(simulated_payouts, current, left.push(walk[i]), right);
    lemma_nobody_takes_over(simulated_payouts, chosen, right);
}

/// How one more elder changes what an election gives.
///
/// An elder that gave no response changes nothing. One that gave a response makes it the
/// outcome if it brings it above half of the elders, rounded up, or if there was no outcome
/// yet. Otherwise the response that was first given under that key becomes the outcome if
/// it now has more votes than the outcome so far, or, with simulated payouts alone, as many
/// and a longer history. Else the outcome stays.
pub proof fn law_outcome_after_one_more_elder(
    elders: nat,
    simulated_payouts: bool,
    ballots: Seq<Ballot>,
    ballot: Ballot,
    first_given: QueryResponse,
)
    requires
        !election(elders, simulated_payouts, ballots).finished(),
        ballot matches Ballot::Response { key, response } ==> {
            let votes = election(elders, simulated_payouts, ballots).votes;
            ||| exists|i: int|
                0 <= i < votes.len() && (#[trigger] votes[i]).key == key && votes[i].response
                    == first_given
            ||| first_given == response && forall|i: int|
                0 <= i < votes.len() ==> (#[trigger] votes[i]).key != key
        },
    ensures
        ({
            let before = election(elders, simulated_payouts, ballots);
            let after = election(elders, simulated_payouts, ballots.push(ballot));
            match ballot {
                Ballot::Error => after.outcome() == before.outcome() && after.winner.1
                    == before.winner.1,
                Ballot::Response { key, response } => {
                    let votes = votes_for(before.votes, key) + 1;
                    let more_votes = votes > before.winner.1;
                    let longer = simulated_payouts && votes == before.winner.1
                        && first_given.history_len is Some && before.outcome()->0.history_len is Some
                        && first_given.history_len->0 > before.outcome()->0.history_len->0;
                    if votes > (elders + 1) / 2 {
                        after.outcome() == Some(response) && after.winner.1 == votes
                    } else if before.outcome() is None {
                        after.outcome() == Some(response) && after.winner.1 == 1
                    } else if more_votes || longer {
                        after.outcome() == Some(first_given) && after.winner.1 == votes
                    } else {
                        after.outcome() == before.outcome() && after.winner.1 == before.winner.1
                    }
                },
            }
        }),
{
    let before = election(elders, simulated_payouts, ballots);
    let after = election(elders, simulated_payouts, ballots.push(ballot));
    assert(ballots.push(ballot).drop_last() =~= ballots);
    assert(after == before.after(ballot));
    law_election_is_well_formed(elders, simulated_payouts, ballots);
    if simulated_payouts {
        lemma_winner_has_longest_history(elders, ballots);
    }
    match ballot {
        Ballot::Error => {
            lemma_nobody_takes_over_before(before);
        },
        Ballot::Response { key, response } => {
            lemma_outcome_after_response(before, key, response, first_given);
        },
    }
}

/// No response that is voted on takes the winner's place while no vote comes in.
proof fn lemma_nobody_takes_over_before(tally: Tally)
    requires
        tally.wf(),
        !tally.elected,
        tally.simulated_payouts ==> (tally.winner.0 matches Some(winner) ==> forall|i: int|
            0 <= i < tally.votes.len() && (#[trigger] tally.votes[i]).votes == tally.winner.1
                ==> !has_longer_history(tally.votes[i].response, winner)),
    ensures
        best_of(tally.simulated_payouts, tally.winner, tally.votes) == tally.winner,
{
    assert forall|j: int| 0 <= j < tally.votes.len() implies !takes_over(
        tally.simulated_payouts,
        tally.winner,
        #[trigger] tally.votes[j],
    ) by {
        assert(tally.votes[j].votes <= tally.winner.1);
    }
    lemma_nobody_takes_over(tally.simulated_payouts, tally.winner, tally.votes);
}

/// What becomes of the winner when a response comes in.
proof fn lemma_outcome_after_response(
    tally: Tally,
    key: Seq<u8>,
    response: QueryResponse,
    first_given: QueryResponse,
)
    requires
        tally.wf(),
        !tally.finished(),
        tally.simulated_payouts ==> (tally.winner.0 matches Some(winner) ==> forall|i: int|
            0 <= i < tally.votes.len() && (#[trigger] tally.votes[i]).votes == tally.winner.1
                ==> !has_longer_history(tally.votes[i].response, winner)),
        (exists|i: int|
            0 <= i < tally.votes.len() && (#[trigger] tally.votes[i]).key == key
                && tally.votes[i].response == first_given) || (first_given == response && forall|
            i: int,
        |
            0 <= i < tally.votes.len() ==> (#[trigger] tally.votes[i]).key != key),
    ensures
        ({
            let after = tally.after(Ballot::Response { key, response });
            let votes = votes_for(tally.votes, key) + 1;
            if votes > tally.threshold {
                after.winner == (Some(response), votes)
            } else if tally.winner.0 is None {
                after.winner == (Some(response), 1nat)
            } else if votes > tally.winner.1 || tally.simulated_payouts && votes == tally.winner.1
                && has_longer_history(first_given, tally.winner.0->0) {
                after.winner == (Some(first_given), votes)
            } else {
                after.winner == tally.winner
            }
        }),
{
    let sim = tally.simulated_payouts;
    let votes = cast(tally.votes, key, response);
    law_vote_counts_once(tally.votes, key, response);
    let known = exists|i: int| 0 <= i < tally.votes.len() && (#[trigger] tally.votes[i]).key == key;
    let i = if known {
        choose|i: int| 0 <= i < tally.votes.len() && (#[trigger] tally.votes[i]).key == key
    } else {
        tally.votes.len() as int
    };
    if known {
        law_vote_for_known_key(tally.votes, key, response, i);
        assert forall|j: int|
            0 <= j < tally.votes.len() && (#[trigger] tally.votes[j]).key == key implies j == i by {
            assert(keys(tally.votes)[j] == keys(tally.votes)[i]);
        }
        lemma_votes_of_entry(tally.votes, i);
    } else {
        law_vote_for_new_key(tally.votes, key, response);
        assert(!keys(tally.votes).contains(key)) by {
            if keys(tally.votes).contains(key) {
                let j = keys(tally.votes).index_of(key);
                assert(tally.votes[j].key == key);
            }
        }
    }
    let n = votes_for(tally.votes, key) + 1;
    assert(votes[i].votes == n && votes[i].response == first_given);
    assert forall|j: int| 0 <= j < votes.len() && j != i implies #[trigger] votes[j]
        == tally.votes[j] by {
    }
    if n <= tally.threshold {
        if tally.winner.0 is None {
            assert(votes.len() == 1 && i == 0);
            assert(votes =~= seq![votes[0]]);
            law_choice_between_two(sim, tally.winner, votes[0]);
        } else {
            assert forall|j: int| 0 <= j < votes.len() && j != i implies !takes_over(
                sim,
                tally.winner,
                #[trigger] votes[j],
            ) by {
                assert(votes[j] == tally.votes[j]);
                assert(tally.votes[j].votes <= tally.winner.1);
            }
            if takes_over(sim, tally.winner, votes[i]) {
                let chosen = (Some(votes[i].response), votes[i].votes);
                assert forall|j: int| 0 <= j < votes.len() implies !takes_over(
                    sim,
                    chosen,
                    #[trigger] votes[j],
                ) by {
                    if j != i {
                        assert(!takes_over(sim, tally.winner, votes[j]));
                        assert(tally.votes[j].votes <= tally.winner.1);
                    }
                }
                lemma_one_takes_over(sim, tally.winner, votes, i);
            } else {
                lemma_nobody_takes_over(sim, tally.winner, votes);
            }
        }
    }
}

/// The ballots for a key, and the errors, grow by the ballot that comes in.
pub proof fn law_ballots_are_counted_one_by_one(ballots: Seq<Ballot>, ballot: Ballot, key: Seq<u8>)
    ensures
        ballots_for(Seq::empty(), key) == 0,
        error_ballots(Seq::empty()) == 0,
        ballots_for(ballots.push(ballot), key) == ballots_for(ballots, key) + if ballot is Response
            && ballot->key == key {
            1nat
        } else {
            0
        },
        error_ballots(ballots.push(ballot)) == error_ballots(ballots) + if ballot is Error {
            1nat
        } else {
            0
        },
{
    assert(ballots.push(ballot).drop_last() =~= ballots);
}

/// An election goes on ballot by ballot until it is over.
pub proof fn law_election_goes_ballot_by_ballot(
    elders: nat,
    simulated_payouts: bool,
    ballots: Seq<Ballot>,
    ballot: Ballot,
)
    ensures
        election(elders, simulated_payouts, Seq::empty()) == fresh(elders, simulated_payouts),
        ({
            let before = election(elders, simulated_payouts, ballots);
            let after = election(elders, simulated_payouts, ballots.push(ballot));
            &&& before.finished() ==> after == before
            &&& !before.finished() ==> after == before.after(ballot)
        }),
{
    assert(ballots.push(ballot).drop_last() =~= ballots);
}

} // verus!
