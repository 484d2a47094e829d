//! The election of one response to a query that was sent to all elders.

use crate::error::Error;
use crate::query_response::QueryResponse;
use crate::voting::{
    best_of, cast, keys, law_vote_counts_once, lemma_votes_for_bound, responses_counted,
    select_best_of_the_rest_response, takes_over, total_votes, votes_for, winner_view, Tallied,
    VoteMap, Winner,
};
use crate::wire;
use bincode::ErrorKind;
use vstd::prelude::*;

verus! {

/// The state of an election.
pub ghost struct Tally {
    /// The elders that were asked.
    pub elders: nat,
    /// The votes that a response has to pass.
    pub threshold: nat,
    pub simulated_payouts: bool,
    pub votes: Seq<Tallied>,
    /// The elders that gave an error instead of a response.
    pub errors: nat,
    /// The elders that have given neither yet.
    pub outstanding: nat,
    pub winner: (Option<QueryResponse>, nat),
    pub elected: bool,
}

/// What the task that queries one elder ended with.
pub enum QueryTaskResult {
    /// The elder gave a response.
    Response(QueryResponse),
    /// The elder could not be queried, or gave no response.
    Error(Error),
    /// The task itself did not run to its end.
    Aborted,
}

/// What one elder contributes to an election.
pub ghost enum Ballot {
    Response { key: Seq<u8>, response: QueryResponse },
    Error,
}

/// The threshold for this many elders: half of them, rounded up.
pub open spec fn threshold_for(elders: nat) -> nat {
    (elders + 1) / 2
}

/// The election before any elder has answered.
pub open spec fn fresh(elders: nat, simulated_payouts: bool) -> Tally {
    Tally {
        elders,
        threshold: threshold_for(elders),
        simulated_payouts,
        votes: Seq::empty(),
        errors: 0,
        outstanding: elders,
        winner: (None, threshold_for(elders)),
        elected: false,
    }
}

impl Tally {
    /// Whether the election is over: a response is elected, or nobody is left to
    /// be heard.
    pub open spec fn finished(self) -> bool {
        self.elected || self.outstanding == 0
    }

    /// What holds throughout an election.
    pub open spec fn wf(self) -> bool {
        &&& self.threshold == threshold_for(self.elders)
        &&& keys(self.votes).no_duplicates()
        &&& total_votes(self.votes) + self.errors + self.outstanding == self.elders
        &&& forall|i: int| 0 <= i < self.votes.len() ==> 1 <= #[trigger] self.votes[i].votes
        &&& !self.elected ==> forall|i: int|
            0 <= i < self.votes.len() ==> #[trigger] self.votes[i].votes <= self.threshold
        &&& self.winner.0 is None <==> self.votes.len() == 0
        &&& self.winner.0 is None ==> self.winner.1 == self.threshold && !self.elected
        &&& self.winner.0 is Some ==> has_most_votes(self.votes, self.winner.1)
    }

    /// The election after the fallback for when no response is above the
    /// threshold.
    pub open spec fn settled(self) -> Tally {
        Tally {
            winner: best_of(self.simulated_payouts, self.winner, self.votes),
            elected: self.elected || responses_counted(self.votes, self.errors) > self.threshold,
            ..self
        }
    }

    /// The election after one more ballot.
    pub open spec fn after(self, ballot: Ballot) -> Tally {
        let heard = Tally { outstanding: (self.outstanding - 1) as nat, ..self };
        match ballot {
            Ballot::Response { key, response } => {
                let votes = cast(self.votes, key, response);
                if votes_for(votes, key) > self.threshold {
                    Tally {
                        votes,
                        winner: (Some(response), votes_for(votes, key)),
                        elected: true,
                        ..heard
                    }
                } else {
                    Tally { votes, ..heard }.settled()
                }
            },
            Ballot::Error => Tally { errors: self.errors + 1, ..heard }.settled(),
        }
    }

    /// The response that the election gives, if any.
    pub open spec fn outcome(self) -> Option<QueryResponse> {
        self.winner.0
    }
}

/// Whether no response has more votes than these, and some response has them.
pub open spec fn has_most_votes(votes: Seq<Tallied>, most: nat) -> bool {
    &&& forall|i: int| 0 <= i < votes.len() ==> #[trigger] votes[i].votes <= most
    &&& exists|i: int| 0 <= i < votes.len() && #[trigger] votes[i].votes == most
}

/// The key that a response is counted under, the hash of its encoding, or why it
/// has no encoding.
pub open spec fn vote_key(response: QueryResponse) -> Result<Seq<u8>, ErrorKind> {
    match wire::response_encoding(response.message) {
        Ok(encoding) => Ok(wire::sha3_256(encoding)),
        Err(error) => Err(error),
    }
}

/// The ballot that a task's result is, or why it is none: a response without an
/// encoding.
pub open spec fn ballot_of(result: QueryTaskResult) -> Result<Ballot, ErrorKind> {
    match result {
        QueryTaskResult::Response(response) => match vote_key(response) {
            Ok(key) => Ok(Ballot::Response { key, response }),
            Err(error) => Err(error),
        },
        QueryTaskResult::Error(_) | QueryTaskResult::Aborted => Ok(Ballot::Error),
    }
}

/// What a walk over the votes leaves as the best response.
pub proof fn lemma_best_of(
    simulated_payouts: bool,
    current: (Option<QueryResponse>, nat),
    walk: Seq<Tallied>,
)
    ensures
        ({
            let best = best_of(simulated_payouts, current, walk);
            &&& walk.len() > 0 || current.0 is Some ==> best.0 is Some
            &&& current.0 is Some ==> best.1 >= current.1
            &&& forall|i: int| 0 <= i < walk.len() ==> #[trigger] walk[i].votes <= best.1
            &&& best == current || exists|i: int|
                0 <= i < walk.len() && best == (Some(walk[i].response), #[trigger] walk[i].votes)
        }),
    decreases walk.len(),
{
    if walk.len() > 0 {
        let shorter = walk.drop_last();
        lemma_best_of(simulated_payouts, current, shorter);
        let before = best_of(simulated_payouts, current, shorter);
        let best = best_of(simulated_payouts, current, walk);
        assert forall|i: int| 0 <= i < walk.len() implies #[trigger] walk[i].votes <= best.1 by {
            if i < walk.len() - 1 {
                assert(shorter[i].votes <= before.1);
            }
        }
        if best != current {
            if takes_over(simulated_payouts, before, walk.last()) {
                assert(best == (Some(walk[walk.len() - 1].response), walk[walk.len() - 1].votes));
            } else {
                let i = choose|i: int|
                    0 <= i < shorter.len() && before == (
                        Some(shorter[i].response),
                        #[trigger] shorter[i].votes,
                    );
                assert(walk[i] == shorter[i]);
            }
        }
    }
}

/// The selected response has the most votes of all, whatever the order of the
/// walk, provided that the winner so far, if there is one, has not lost votes.
pub proof fn law_selected_response_has_most_votes(
    simulated_payouts: bool,
    current: (Option<QueryResponse>, nat),
    walk: Seq<Tallied>,
)
    requires
        walk.len() > 0,
        current.0 is Some ==> exists|i: int|
            0 <= i < walk.len() && #[trigger] walk[i].votes >= current.1,
    ensures
        best_of(simulated_payouts, current, walk).0 is Some,
        has_most_votes(walk, best_of(simulated_payouts, current, walk).1),
{
    lemma_best_of(simulated_payouts, current, walk);
    let best = best_of(simulated_payouts, current, walk);
    if best == current {
        let i = choose|i: int| 0 <= i < walk.len() && #[trigger] walk[i].votes >= current.1;
        assert(walk[i].votes == best.1);
    }
}

/// A ballot keeps what holds throughout an election.
pub proof fn lemma_after_wf(tally: Tally, ballot: Ballot)
    requires
        tally.wf(),
        !tally.finished(),
    ensures
        tally.after(ballot).wf(),
        tally.after(ballot).outstanding == tally.outstanding - 1,
{
    let after = tally.after(ballot);
    match ballot {
        Ballot::Response { key, response } => {
            law_vote_counts_once(tally.votes, key, response);
            let votes = cast(tally.votes, key, response);
            let i = if keys(tally.votes).contains(key) {
                keys(tally.votes).index_of(key)
            } else {
                tally.votes.len() as int
            };
            assert(keys(votes)[i] == key);
            assert(keys(votes).index_of(key) == i);
            assert(votes[i].votes == votes_for(votes, key));
            assert forall|j: int| 0 <= j < votes.len() && j != i implies votes[j]
                == #[trigger] tally.votes[j] by {
            }
            assert(forall|j: int| 0 <= j < votes.len() ==> 1 <= #[trigger] votes[j].votes);
            if votes[i].votes > tally.threshold {
                assert forall|j: int| 0 <= j < votes.len() implies #[trigger] votes[j].votes
                    <= votes[i].votes by {
                    if j != i {
                        assert(votes[j] == tally.votes[j]);
                    }
                }
            } else {
                if tally.winner.0 is Some {
                    let k = choose|k: int|
                        0 <= k < tally.votes.len() && #[trigger] tally.votes[k].votes
                            == tally.winner.1;
                    assert(votes[k].votes >= tally.winner.1);
                }
                law_selected_response_has_most_votes(
                    tally.simulated_payouts,
                    tally.winner,
                    votes,
                );
            }
        },
        Ballot::Error => {
            if tally.votes.len() > 0 {
                let k = choose|k: int|
                    0 <= k < tally.votes.len() && #[trigger] tally.votes[k].votes
                        == tally.winner.1;
                assert(tally.votes[k].votes >= tally.winner.1);
                law_selected_response_has_most_votes(
                    tally.simulated_payouts,
                    tally.winner,
                    tally.votes,
                );
            }
        },
    }
}

/// The election of one response to a query.
pub struct QueryTally {
    elders: usize,
    threshold: usize,
    simulated_payouts: bool,
    vote_map: VoteMap,
    received_errors: usize,
    outstanding: usize,
    winner: Winner,
    has_elected_a_response: bool,
}

impl View for QueryTally {
    type V = Tally;

    closed spec fn view(&self) -> Tally {
        Tally {
            elders: self.elders as nat,
            threshold: self.threshold as nat,
            simulated_payouts: self.simulated_payouts,
            votes: self.vote_map@,
            errors: self.received_errors as nat,
            outstanding: self.outstanding as nat,
            winner: winner_view(self.winner),
            elected: self.has_elected_a_response,
        }
    }
}

impl QueryTally {
    /// An election among this many elders. With simulated payouts, a longer
    /// history is preferred among responses with as many votes.
    pub fn new(elders: usize, simulated_payouts: bool) -> (tally: QueryTally)
        ensures
            tally@ == fresh(elders as nat, simulated_payouts),
            tally@.wf(),
    {
        let threshold: usize = elders / 2 + elders % 2;
        let tally = QueryTally {
            elders,
            threshold,
            simulated_payouts,
            vote_map: VoteMap::new(),
            received_errors: 0,
            outstanding: elders,
            winner: (None, threshold),
            has_elected_a_response: false,
        };
        assert(tally@.votes =~= Seq::<Tallied>::empty());
        assert(keys(tally@.votes).no_duplicates());
        tally
    }

    /// Whether the election is over.
    pub fn is_finished(&self) -> (finished: bool)
        ensures
            finished == self@.finished(),
    {
        self.has_elected_a_response || self.outstanding == 0
    }

    /// Counts a response under its key.
    pub fn count_response(&mut self, key: [u8; 32], response: QueryResponse)
        requires
            old(self)@.wf(),
            !old(self)@.finished(),
        ensures
            final(self)@ == old(self)@.after(Ballot::Response { key: key@, response }),
            final(self)@.wf(),
    {
        proof {
            lemma_after_wf(self@, Ballot::Response { key: key@, response });
            lemma_votes_for_bound(self@.votes, key@);
        }
        self.outstanding -= 1;
        let counter = self.vote_map.cast(key, &response);
        // First, see if this latest response brings us above the threshold for any response
        if counter > self.threshold {
            self.winner = (Some(response), counter);
            self.has_elected_a_response = true;
        } else {
            self.settle();
        }
    }

    /// Counts an elder that gave no response.
    pub fn count_error(&mut self)
        requires
            old(self)@.wf(),
            !old(self)@.finished(),
        ensures
            final(self)@ == old(self)@.after(Ballot::Error),
            final(self)@.wf(),
    {
        proof {
            lemma_after_wf(self@, Ballot::Error);
        }
        self.outstanding -= 1;
        self.received_errors += 1;
        self.settle();
    }

    /// Handles that no response is above the threshold.
    fn settle(&mut self)
        ensures
            final(self)@ == old(self)@.settled(),
    {
        let mut winner: Winner = (None, 0);
        std::mem::swap(&mut winner, &mut self.winner);
        let mut has_elected_a_response = self.has_elected_a_response;
        let selected = select_best_of_the_rest_response(
            winner,
            self.threshold,
            &self.vote_map,
            self.received_errors,
            self.simulated_payouts,
            &mut has_elected_a_response,
        );
        self.has_elected_a_response = has_elected_a_response;
        if let Ok(winner) = selected {
            self.winner = winner;
        }
    }

    /// Counts what the task that queries one elder ended with. Fails, and counts
    /// nothing, where a response cannot be encoded.
    pub fn on_result(&mut self, result: QueryTaskResult) -> (counted: Result<(), Error>)
        requires
            old(self)@.wf(),
            !old(self)@.finished(),
        ensures
            match ballot_of(result) {
                Ok(ballot) => counted is Ok && final(self)@ == old(self)@.after(ballot),
                Err(error) => {
                    &&& counted == Err::<(), Error>(Error::Serialisation(Box::new(error)))
                    &&& final(self)@ == old(self)@
                },
            },
            final(self)@.wf(),
    {
        match result {
            QueryTaskResult::Response(response) => {
                match wire::encode_response(&response.message) {
                    Ok(encoding) => {
                        let key = wire::hash(&encoding);
                        self.count_response(key, response);
                    },
                    Err(error) => {
                        return Err(Error::Serialisation(error));
                    },
                }
            },
            QueryTaskResult::Error(_) | QueryTaskResult::Aborted => {
                self.count_error();
            },
        }
        Ok(())
    }

    /// The response that the election gives.
    pub fn outcome(self) -> (outcome: Result<QueryResponse, Error>)
        ensures
            match self@.outcome() {
                Some(response) => outcome == Ok::<QueryResponse, Error>(response),
                None => outcome matches Err(Error::NoResponse),
            },
    {
        match self.winner.0 {
            Some(response) => Ok(response),
            None => Err(Error::NoResponse),
        }
    }
}

/// Responses are counted apart unless the hashes of their whole encodings are the same:
/// the key is the SHA3-256 hash of the whole encoding, and there is none only where there
/// is no encoding.
pub proof fn law_different_responses_are_counted_apart(left: QueryResponse, right: QueryResponse)
    ensures
        match wire::response_encoding(left.message) {
            Ok(whole) => vote_key(left) == Ok::<Seq<u8>, ErrorKind>(wire::sha3_256(whole)),
            Err(error) => vote_key(left) == Err::<Seq<u8>, ErrorKind>(error),
        },
        wire::response_encoding(left.message) matches Ok(whole) ==> (wire::response_encoding(
            right.message,
        ) matches Ok(other) ==> (vote_key(left) == vote_key(right) <==> wire::sha3_256(whole)
            == wire::sha3_256(other))),
{
}

/// Every response that has an encoding is a vote for that very response, under the hash of
/// its whole encoding, whatever else it holds. A response without one is refused with the
/// reason. Only an elder that gave no response is counted as an error.
pub proof fn law_every_response_is_a_vote_for_it(response: QueryResponse, error: Error)
    ensures
        match wire::response_encoding(response.message) {
            Ok(whole) => ballot_of(QueryTaskResult::Response(response)) == Ok::<Ballot, ErrorKind>(
                Ballot::Response { key: wire::sha3_256(whole), response },
            ),
            Err(reason) => ballot_of(QueryTaskResult::Response(response)) == Err::<
                Ballot,
                ErrorKind,
            >(reason),
        },
        ballot_of(QueryTaskResult::Error(error)) == Ok::<Ballot, ErrorKind>(Ballot::Error),
        ballot_of(QueryTaskResult::Aborted) == Ok::<Ballot, ErrorKind>(Ballot::Error),
{
}

/// A response that came in adds one vote to those for the hash of its whole encoding, and
/// to no others, and it is no error. An elder that gave no response adds one error and no
/// vote. Either way one elder less is outstanding.
pub proof fn law_result_adds_its_vote(tally: Tally, result: QueryTaskResult, hash: Seq<u8>)
    requires
        tally.wf(),
        !tally.finished(),
        ballot_of(result) is Ok,
    ensures
        ({
            let after = tally.after(ballot_of(result)->Ok_0);
            let is_vote = result matches QueryTaskResult::Response(response)
                && wire::response_encoding(response.message) matches Ok(whole)
                && wire::sha3_256(whole) == hash;
            &&& votes_for(after.votes, hash) == votes_for(tally.votes, hash) + if is_vote {
                1nat
            } else {
                0
            }
            &&& after.errors == tally.errors + if result is Response {
                0nat
            } else {
                1
            }
            &&& result matches QueryTaskResult::Response(response) ==> (wire::response_encoding(
                response.message,
            ) matches Ok(whole) ==> after.votes == cast(
                tally.votes,
                wire::sha3_256(whole),
                response,
            ))
            &&& !(result is Response) ==> after.votes == tally.votes
            &&& after.outstanding == tally.outstanding - 1
            &&& after.elders == tally.elders
            &&& after.threshold == tally.threshold
            &&& after.simulated_payouts == tally.simulated_payouts
        }),
{
    let ballot = ballot_of(result)->Ok_0;
    lemma_after_wf(tally, ballot);
    if let Ballot::Response { key, response } = ballot {
        law_vote_counts_once(tally.votes, key, response);
    }
}

/// An election starts without votes and errors, with all elders outstanding. Its threshold
/// is half of them, rounded up. It is over at once only where there are no elders, and
/// gives no response then.
pub proof fn law_election_starts_empty(elders: nat, simulated_payouts: bool)
    ensures
        ({
            let tally = fresh(elders, simulated_payouts);
            &&& tally.elders == elders
            &&& elders <= 2 * tally.threshold <= elders + 1
            &&& tally.simulated_payouts == simulated_payouts
            &&& tally.votes.len() == 0
            &&& tally.errors == 0
            &&& tally.outstanding == elders
            &&& !tally.elected
            &&& tally.finished() <==> elders == 0
            &&& tally.outcome() is None
        }),
{
}

} // verus!
