//! The elders that a client is connected to, and when it is connected to enough
//! of them.

use crate::error::Error;
use vstd::prelude::*;

verus! {

/// How many elders a client connects to.
pub const STANDARD_ELDERS_COUNT: usize = 5;

/// How many elders a client cannot do without.
pub open spec fn fewest_elders() -> nat {
    (STANDARD_ELDERS_COUNT - 2) as nat
}

/// An elder that the client is connected to.
pub struct ElderStream<C> {
    /// The address of the elder.
    pub socket_addr: String,
    /// What the elder is reached by.
    pub connection: C,
}

/// The state of an [`ElderRound`].
pub ghost struct Round {
    /// The addresses of the elders to connect to.
    pub addresses: Seq<Seq<char>>,
    /// How many of them it is not known of yet whether they can be connected to.
    pub outstanding: nat,
    pub sufficient: bool,
}

/// Addresses as the specifications speak of them.
pub open spec fn addresses_view(addresses: Seq<String>) -> Seq<Seq<char>> {
    addresses.map_values(|address: String| address@)
}

impl Round {
    /// The round before any elder has been connected to.
    pub open spec fn start(addresses: Seq<Seq<char>>) -> Round {
        Round { addresses, outstanding: addresses.len(), sufficient: false }
    }

    /// Whether no more connections are waited for.
    pub open spec fn finished(self) -> bool {
        self.sufficient || self.outstanding == 0
    }

    /// The round once it is known of one more elder whether it can be connected
    /// to, with this many elders connected by then.
    pub open spec fn after(self, connected: nat) -> Round {
        Round {
            outstanding: (self.outstanding - 1) as nat,
            sufficient: self.outstanding == 1 || connected >= STANDARD_ELDERS_COUNT,
            ..self
        }
    }

    /// Whether the client has to give up, with this many elders connected.
    pub open spec fn failed(self, connected: nat) -> bool {
        self.sufficient && connected < fewest_elders()
    }
}

/// The elders after one more was connected to, or not.
pub open spec fn joined_by<C>(
    elders: Seq<ElderStream<C>>,
    result: Option<ElderStream<C>>,
) -> Seq<ElderStream<C>> {
    match result {
        Some(elder) => elders.push(elder),
        None => elders,
    }
}

/// One round of connecting to elders.
pub struct ElderRound {
    addresses: Vec<String>,
    outstanding: usize,
    has_sufficient_connections: bool,
}

impl View for ElderRound {
    type V = Round;

    closed spec fn view(&self) -> Round {
        Round {
            addresses: addresses_view(self.addresses@),
            outstanding: self.outstanding as nat,
            sufficient: self.has_sufficient_connections,
        }
    }
}

impl ElderRound {
    /// A round in which these elders are to be connected to.
    pub fn new(addresses: Vec<String>) -> (round: ElderRound)
        ensures
            round@ == Round::start(addresses_view(addresses@)),
    {
        let outstanding: usize = addresses.len();
        ElderRound { addresses, outstanding, has_sufficient_connections: false }
    }

    /// The addresses of the elders to connect to.
    pub fn addresses(&self) -> (addresses: &Vec<String>)
        ensures
            addresses_view(addresses@) == self@.addresses,
    {
        &self.addresses
    }

    /// Whether no more connections are waited for.
    pub fn is_finished(&self) -> (finished: bool)
        ensures
            finished == self@.finished(),
    {
        self.has_sufficient_connections || self.outstanding == 0
    }

    /// Takes what came of connecting to one elder: the elder, or `None` where it
    /// could not be connected to. Fails where too few elders are connected to and
    /// no more can be.
    pub fn on_result<C>(
        &mut self,
        elders: &mut Vec<ElderStream<C>>,
        result: Option<ElderStream<C>>,
    ) -> (going: Result<(), Error>)
        requires
            !old(self)@.finished(),
        ensures
            final(elders)@ == joined_by(old(elders)@, result),
            final(self)@ == old(self)@.after(final(elders)@.len()),
            if final(self)@.failed(final(elders)@.len()) {
                going matches Err(Error::InsufficientElderConnections)
            } else {
                going is Ok
            },
    {
        self.outstanding -= 1;
        if self.outstanding == 0 {
            self.has_sufficient_connections = true;
        }
        if let Some(elder) = result {
            // We can now keep this connections in our instance
            elders.push(elder);
        }
        if elders.len() >= STANDARD_ELDERS_COUNT {
            self.has_sufficient_connections = true;
        }
        if elders.len() < STANDARD_ELDERS_COUNT - 2 && self.has_sufficient_connections {
            return Err(Error::InsufficientElderConnections);
        }
        Ok(())
    }
}

/// The elders and the round that the results lead to, in the order in which they
/// come in. Results that come after the end of the round are not heard.
pub open spec fn connect<C>(
    elders: Seq<ElderStream<C>>,
    round: Round,
    results: Seq<Option<ElderStream<C>>>,
) -> (Seq<ElderStream<C>>, Round)
    decreases results.len(),
{
    if results.len() == 0 {
        (elders, round)
    } else {
        let (elders, round) = connect(elders, round, results.drop_last());
        if round.finished() {
            (elders, round)
        } else {
            let elders = joined_by(elders, results.last());
            (elders, round.after(elders.len()))
        }
    }
}

/// The elders that were connected to, by the results.
pub open spec fn connected<C>(results: Seq<Option<ElderStream<C>>>) -> Seq<ElderStream<C>>
    decreases results.len(),
{
    if results.len() == 0 {
        Seq::empty()
    } else {
        joined_by(connected(results.drop_last()), results.last())
    }
}

proof fn lemma_connect<C>(
    elders: Seq<ElderStream<C>>,
    addresses: Seq<Seq<char>>,
    results: Seq<Option<ElderStream<C>>>,
)
    requires
        results.len() <= addresses.len(),
    ensures
        ({
            let (after, round) = connect(elders, Round::start(addresses), results);
            &&& elders.len() <= after.len() <= elders.len() + connected(results).len()
            &&& after == elders + connected(results).take(after.len() - elders.len())
            &&& after.len() == elders.len() + connected(results).len() || after.len()
                >= STANDARD_ELDERS_COUNT
            &&& after.len() <= elders.len() + 1 || after.len() <= STANDARD_ELDERS_COUNT
            &&& after.len() >= STANDARD_ELDERS_COUNT && results.len() > 0 ==> round.sufficient
            &&& round.outstanding == addresses.len() - results.len() || after.len()
                >= STANDARD_ELDERS_COUNT && round.sufficient
            &&& results.len() > 0 && round.outstanding == 0 ==> round.sufficient
            &&& round.sufficient ==> after.len() >= STANDARD_ELDERS_COUNT || round.outstanding == 0
        }),
    decreases results.len(),
{
    let (after, round) = connect(elders, Round::start(addresses), results);
    if results.len() > 0 {
        let earlier = results.drop_last();
        lemma_connect(elders, addresses, earlier);
        let (before, _) = connect(elders, Round::start(addresses), earlier);
        let added = before.len() - elders.len();
        assert(connected(results).take(added) =~= connected(earlier).take(added));
        assert(after =~= elders + connected(results).take(after.len() - elders.len()));
    } else {
        assert(after =~= elders + connected(results).take(0));
    }
}

/// A round over all of a non-empty list of elders ends, and it fails if and only
/// if the client is then connected to fewer elders than it cannot do without,
/// counting those from before.
pub proof fn law_round_fails_only_with_too_few_elders<C>(
    elders: Seq<ElderStream<C>>,
    addresses: Seq<Seq<char>>,
    results: Seq<Option<ElderStream<C>>>,
)
    requires
        0 < addresses.len() == results.len(),
    ensures
        ({
            let (after, round) = connect(elders, Round::start(addresses), results);
            &&& round.finished()
            &&& round.failed(after.len()) <==> elders.len() + connected(results).len()
                < fewest_elders()
            &&& !round.failed(after.len()) ==> after.len() >= fewest_elders()
        }),
{
    lemma_connect(elders, addresses, results);
}

/// A round keeps the elders from before, adds those that it connects to in their
/// order, and goes on only while there are fewer than the standard count: it ends with
/// no more elders than those, or with one more than before.
pub proof fn law_round_keeps_elders<C>(
    elders: Seq<ElderStream<C>>,
    addresses: Seq<Seq<char>>,
    results: Seq<Option<ElderStream<C>>>,
)
    requires
        results.len() <= addresses.len(),
    ensures
        ({
            let (after, round) = connect(elders, Round::start(addresses), results);
            &&& elders.len() <= after.len() <= elders.len() + connected(results).len()
            &&& after == elders + connected(results).take(after.len() - elders.len())
            &&& after.len() < STANDARD_ELDERS_COUNT ==> after == elders + connected(results)
            &&& after.len() <= elders.len() + 1 || after.len() <= STANDARD_ELDERS_COUNT
            &&& results.len() > 0 && after.len() >= STANDARD_ELDERS_COUNT ==> round.finished()
        }),
{
    lemma_connect(elders, addresses, results);
    assert(connected(results).take(connected(results).len() as int) =~= connected(results));
}

/// The addresses of elders, in their order.
pub open spec fn elder_addrs<C>(elders: Seq<ElderStream<C>>) -> Seq<Seq<char>> {
    elders.map_values(|elder: ElderStream<C>| elder.socket_addr@)
}

/// Whether each result comes from a task of its own, which connects to the elder at its
/// place among the addresses, and an elder carries the address that its task was given.
pub open spec fn come_from_tasks<C>(
    results: Seq<Option<ElderStream<C>>>,
    tasks: Seq<int>,
    addresses: Seq<Seq<char>>,
) -> bool {
    &&& tasks.len() == results.len()
    &&& tasks.no_duplicates()
    &&& forall|j: int| 0 <= j < tasks.len() ==> 0 <= #[trigger] tasks[j] < addresses.len()
    &&& forall|j: int|
        0 <= j < results.len() ==> (#[trigger] results[j] matches Some(elder)
            ==> elder.socket_addr@ == addresses[tasks[j]])
}

/// There are no more different places than those that there are.
proof fn lemma_no_more_than(places: Seq<int>, count: nat)
    requires
        places.no_duplicates(),
        forall|j: int| 0 <= j < places.len() ==> 0 <= #[trigger] places[j] < count,
    ensures
        places.len() <= count,
{
    places.unique_seq_to_set();
    vstd::set_lib::lemma_int_range(0, count as int);
    let range = vstd::set_lib::set_int_range(0, count as int);
    assert(places.to_set().subset_of(range));
    vstd::set_lib::lemma_len_subset(places.to_set(), range);
}

/// What stands at different places of a sequence is in it as often at least.
proof fn lemma_places_are_within(places: Seq<int>, addresses: Seq<Seq<char>>)
    requires
        places.no_duplicates(),
        forall|j: int| 0 <= j < places.len() ==> 0 <= #[trigger] places[j] < addresses.len(),
    ensures
        places.map_values(|place: int| addresses[place]).to_multiset().subset_of(
            addresses.to_multiset(),
        ),
    decreases addresses.len(),
{
    broadcast use vstd::seq_lib::group_to_multiset_ensures;

    let at = |place: int| addresses[place];
    if addresses.len() == 0 {
        assert(places.len() == 0) by {
            if places.len() > 0 {
                assert(0 <= places[0] < addresses.len());
            }
        }
        assert(places.map_values(at) =~= addresses);
    } else {
        let last = addresses.len() - 1;
        let shorter = addresses.drop_last();
        let at_shorter = |place: int| shorter[place];
        assert(shorter.push(addresses.last()) =~= addresses);
        if places.contains(last) {
            let i = places.index_of(last);
            let rest = places.remove(i);
            assert forall|j: int| 0 <= j < rest.len() implies 0 <= #[trigger] rest[j]
                < shorter.len() by {
                let k = if j < i {
                    j
                } else {
                    j + 1
                };
                assert(rest[j] == places[k]);
                assert(places[k] != places[i]);
            }
            assert(rest.no_duplicates());
            lemma_places_are_within(rest, shorter);
            assert(rest.map_values(at_shorter) =~= places.map_values(at).remove(i));
            assert(places.map_values(at)[i] == addresses.last());
            assert(places.map_values(at).to_multiset() =~= rest.map_values(
                at_shorter,
            ).to_multiset().insert(addresses.last()));
        } else {
            assert forall|j: int| 0 <= j < places.len() implies 0 <= #[trigger] places[j]
                < shorter.len() by {
                assert(places[j] != last);
            }
            lemma_places_are_within(places, shorter);
            assert(places.map_values(at_shorter) =~= places.map_values(at));
        }
    }
}

/// The places of the elders that were connected to.
proof fn lemma_connected_places<C>(
    results: Seq<Option<ElderStream<C>>>,
    tasks: Seq<int>,
    addresses: Seq<Seq<char>>,
) -> (places: Seq<int>)
    requires
        come_from_tasks(results, tasks, addresses),
    ensures
        places.len() == connected(results).len(),
        places.no_duplicates(),
        forall|j: int| 0 <= j < places.len() ==> tasks.contains(#[trigger] places[j]),
        forall|j: int|
            0 <= j < places.len() ==> #[trigger] connected(results)[j].socket_addr@
                == addresses[places[j]],
    decreases results.len(),
{
    if results.len() == 0 {
        Seq::empty()
    } else {
        let earlier = results.drop_last();
        let earlier_tasks = tasks.drop_last();
        assert forall|j: int| 0 <= j < earlier.len() implies (#[trigger] earlier[j] matches Some(
            elder,
        ) ==> elder.socket_addr@ == addresses[earlier_tasks[j]]) by {
            assert(earlier[j] == results[j]);
        }
        let before = lemma_connected_places(earlier, earlier_tasks, addresses);
        let places = if results.last() is Some {
            before.push(tasks.last())
        } else {
            before
        };
        assert forall|j: int| 0 <= j < places.len() implies tasks.contains(
            #[trigger] places[j],
        ) by {
            if j < before.len() {
                assert(earlier_tasks.contains(before[j]));
                let k = earlier_tasks.index_of(before[j]);
                assert(tasks[k] == places[j]);
            } else {
                assert(tasks[tasks.len() - 1] == places[j]);
            }
        }
        assert forall|i: int, j: int| 0 <= i < j < places.len() implies #[trigger] places[i]
            != #[trigger] places[j] by {
            if j == before.len() {
                assert(earlier_tasks.contains(before[i]));
                let k = earlier_tasks.index_of(before[i]);
                assert(tasks[k] == before[i]);
                assert(tasks[k] != tasks[tasks.len() - 1]);
            } else {
                assert(before[i] != before[j]);
            }
        }
        assert(results[results.len() - 1] == results.last());
        assert forall|j: int| 0 <= j < places.len() implies #[trigger] connected(
            results,
        )[j].socket_addr@ == addresses[places[j]] by {
            if j < before.len() {
                assert(connected(results)[j] == connected(earlier)[j]);
            }
        }
        places
    }
}

/// The elders that a round adds are among those that it was given to connect to, and
/// none is added more often than it was given: no address is used twice and none is
/// invented.
pub proof fn law_round_adds_only_its_addresses<C>(
    elders: Seq<ElderStream<C>>,
    addresses: Seq<Seq<char>>,
    results: Seq<Option<ElderStream<C>>>,
    tasks: Seq<int>,
)
    requires
        come_from_tasks(results, tasks, addresses),
    ensures
        ({
            let (after, _) = connect(elders, Round::start(addresses), results);
            let added = after.skip(elders.len() as int);
            &&& after == elders + added
            &&& elder_addrs(added).to_multiset().subset_of(addresses.to_multiset())
        }),
{
    let (after, _) = connect(elders, Round::start(addresses), results);
    let added = after.skip(elders.len() as int);
    lemma_no_more_than(tasks, addresses.len());
    lemma_connect(elders, addresses, results);
    assert(added =~= connected(results).take(added.len() as int));
    let all_places = lemma_connected_places(results, tasks, addresses);
    let places = all_places.take(added.len() as int);
    assert forall|j: int| 0 <= j < places.len() implies 0 <= #[trigger] places[j]
        < addresses.len() by {
        assert(tasks.contains(all_places[j]));
        assert(tasks[tasks.index_of(places[j])] == places[j]);
    }
    lemma_places_are_within(places, addresses);
    assert(elder_addrs(added) =~= places.map_values(|place: int| addresses[place]));
}

/// Without elders to connect to, a round is over at once and does not fail.
pub proof fn law_round_without_addresses(connected: nat)
    ensures
        Round::start(Seq::empty()).finished(),
        !Round::start(Seq::empty()).failed(connected),
{
}

/// Addresses are seen in full: each one, in its place.
pub proof fn law_addresses_are_seen_in_full(addresses: Seq<String>)
    ensures
        addresses_view(addresses).len() == addresses.len(),
        forall|i: int|
            0 <= i < addresses.len() ==> #[trigger] addresses_view(addresses)[i] == addresses[i]@,
{
}

/// An elder that was connected to is kept as the last one, whichever it is; a failed
/// connection adds nobody, and nobody is ever dropped or changed.
pub proof fn law_connected_elder_is_kept<C>(
    elders: Seq<ElderStream<C>>,
    result: Option<ElderStream<C>>,
)
    ensures
        joined_by(elders, result).len() == elders.len() + if result is Some {
            1int
        } else {
            0
        },
        forall|i: int| 0 <= i < elders.len() ==> #[trigger] joined_by(elders, result)[i] == elders[i],
        result matches Some(elder) ==> joined_by(elders, result)[elders.len() as int] == elder,
{
}

/// A round starts with all of its addresses to be heard of. It is over at once only
/// where there are none, and it has not failed.
pub proof fn law_round_starts_with_all_addresses(addresses: Seq<Seq<char>>, connected: nat)
    ensures
        Round::start(addresses).addresses == addresses,
        Round::start(addresses).outstanding == addresses.len(),
        Round::start(addresses).finished() <==> addresses.len() == 0,
        !Round::start(addresses).failed(connected),
{
}

/// Each result is one elder less to be heard of. The round goes on, and the result is no
/// failure, as long as another elder is outstanding and fewer than five are connected to.
/// It fails with its last result if and only if fewer than three elders are connected to.
pub proof fn law_result_fails_only_at_the_end(round: Round, connected: nat)
    requires
        !round.finished(),
    ensures
        ({
            let after = round.after(connected);
            &&& round.outstanding >= 1
            &&& after.outstanding == round.outstanding - 1
            &&& after.addresses == round.addresses
            &&& after.finished() <==> round.outstanding == 1 || connected >= 5
            &&& after.failed(connected) <==> round.outstanding == 1 && connected < 3
            &&& after.failed(connected) ==> after.finished()
        }),
{
}

/// A round has failed only if it is over and fewer than three elders are connected to,
/// in every state of it.
pub proof fn law_failed_round_is_over(round: Round, connected: nat)
    requires
        round.failed(connected),
    ensures
        round.finished(),
        connected < 3,
{
}

} // verus!
