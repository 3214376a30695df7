//! The schedule of the backend that fetches over the network on a single
//! event loop. Every request gets a ticket; one request is dispatched per
//! poll, the newest first; the fetches under way are kept in the order of
//! their requests, and a poll yields the first of them that has ended. The
//! host dispatches the fetches and reports how they ended.

use crate::loader::{LoaderEvent, OutcomeView};
use vstd::prelude::*;

verus! {

/// How a fetch stands.
pub enum Arrival {
    /// Nothing has come back yet.
    Waiting,
    /// The fetch brought these bytes.
    Fetched(Vec<u8>),
    /// The fetch failed, or its channel was closed before anything came.
    Failed,
}

/// An arrival as plain values.
pub enum ArrivalView {
    Waiting,
    Fetched(Seq<u8>),
    Failed,
}

impl View for Arrival {
    type V = ArrivalView;

    open spec fn view(&self) -> ArrivalView {
        match *self {
            Arrival::Waiting => ArrivalView::Waiting,
            Arrival::Fetched(bytes) => ArrivalView::Fetched(bytes@),
            Arrival::Failed => ArrivalView::Failed,
        }
    }
}

/// A request that was not dispatched yet.
pub struct Ticketed {
    pub ticket: u64,
    pub path: String,
}

/// A ticketed request as plain values.
pub struct TicketedView {
    pub ticket: u64,
    pub path: Seq<char>,
}

impl View for Ticketed {
    type V = TicketedView;

    open spec fn view(&self) -> TicketedView {
        TicketedView { ticket: self.ticket, path: self.path@ }
    }
}

/// A fetch under way.
pub struct Flight {
    pub ticket: u64,
    pub path: String,
    pub arrival: Arrival,
}

/// A fetch as plain values.
pub struct FlightView {
    pub ticket: u64,
    pub path: Seq<char>,
    pub arrival: ArrivalView,
}

impl View for Flight {
    type V = FlightView;

    open spec fn view(&self) -> FlightView {
        FlightView { ticket: self.ticket, path: self.path@, arrival: self.arrival@ }
    }
}

impl FlightView {
    /// The outcome of a fetch that has ended: the bytes under its path, or
    /// the failure of its path.
    pub open spec fn outcome(self) -> OutcomeView {
        match self.arrival {
            ArrivalView::Fetched(bytes) => OutcomeView::Load(self.path, bytes),
            _ => OutcomeView::LoadFailed(self.path),
        }
    }
}

/// The index of the first fetch with a ticket above `ticket`, or the length.
pub open spec fn place_of(flights: Seq<FlightView>, ticket: u64) -> int
    decreases flights.len(),
{
    if flights.len() == 0 || flights[0].ticket > ticket {
        0
    } else {
        1 + place_of(flights.drop_first(), ticket)
    }
}

/// The index of the first fetch with the ticket `ticket`, or the length.
pub open spec fn index_of(flights: Seq<FlightView>, ticket: u64) -> int
    decreases flights.len(),
{
    if flights.len() == 0 || flights[0].ticket == ticket {
        0
    } else {
        1 + index_of(flights.drop_first(), ticket)
    }
}

/// The index of the first fetch that has ended, or the length.
pub open spec fn first_ended(flights: Seq<FlightView>) -> int
    decreases flights.len(),
{
    if flights.len() == 0 || !(flights[0].arrival is Waiting) {
        0
    } else {
        1 + first_ended(flights.drop_first())
    }
}

/// The tickets of the fetches that have not ended, in order.
pub open spec fn waiting_tickets(flights: Seq<FlightView>) -> Seq<u64>
    decreases flights.len(),
{
    if flights.len() == 0 {
        Seq::empty()
    } else if flights.last().arrival is Waiting {
        waiting_tickets(flights.drop_last()).push(flights.last().ticket)
    } else {
        waiting_tickets(flights.drop_last())
    }
}

/// The schedule as plain values: the requests not dispatched yet, oldest
/// first; the fetches under way, in the order of their requests; and the
/// number of tickets given out.
#[verifier::ext_equal]
pub struct WebModel {
    pub fresh: Seq<TicketedView>,
    pub flights: Seq<FlightView>,
    pub issued: u64,
}

impl WebModel {
    /// A schedule with nothing requested.
    pub open spec fn empty() -> Self {
        WebModel { fresh: Seq::empty(), flights: Seq::empty(), issued: 0 }
    }

    /// Tickets rise with the order of the requests, no ticket is held twice,
    /// and none is held that was not given out.
    pub open spec fn wf(self) -> bool {
        &&& forall|i: int, j: int|
            0 <= i < j < self.fresh.len() ==> (#[trigger] self.fresh[i]).ticket < (
            #[trigger] self.fresh[j]).ticket
        &&& forall|i: int, j: int|
            0 <= i < j < self.flights.len() ==> (#[trigger] self.flights[i]).ticket < (
            #[trigger] self.flights[j]).ticket
        &&& forall|i: int| 0 <= i < self.fresh.len() ==> (#[trigger] self.fresh[i]).ticket < self.issued
        &&& forall|i: int|
            0 <= i < self.flights.len() ==> (#[trigger] self.flights[i]).ticket < self.issued
        &&& forall|i: int, j: int|
            0 <= i < self.fresh.len() && 0 <= j < self.flights.len() ==> (
            #[trigger] self.fresh[i]).ticket != (#[trigger] self.flights[j]).ticket
    }

    /// Whether a request with `ticket` is held, dispatched or not.
    pub open spec fn holds(self, ticket: u64) -> bool {
        ||| exists|i: int| 0 <= i < self.fresh.len() && (#[trigger] self.fresh[i]).ticket == ticket
        ||| exists|j: int|
            0 <= j < self.flights.len() && (#[trigger] self.flights[j]).ticket == ticket
    }

    /// The schedule after `path` was requested: it gets the next ticket.
    pub open spec fn request(self, path: Seq<char>) -> Self {
        WebModel {
            fresh: self.fresh.push(TicketedView { ticket: self.issued, path }),
            issued: (self.issued + 1) as u64,
            ..self
        }
    }

    /// The schedule after the newest request was dispatched: its fetch joins
    /// the ones under way at the place that its ticket gives it.
    pub open spec fn dispatch(self) -> Self {
        if self.fresh.len() == 0 {
            self
        } else {
            let newest = self.fresh.last();
            WebModel {
                fresh: self.fresh.drop_last(),
                flights: self.flights.insert(
                    place_of(self.flights, newest.ticket),
                    FlightView {
                        ticket: newest.ticket,
                        path: newest.path,
                        arrival: ArrivalView::Waiting,
                    },
                ),
                ..self
            }
        }
    }

    /// The schedule after the fetch with `ticket` was reported to have ended
    /// as `arrival` says. A report for a ticket that no fetch holds, or for a
    /// fetch that has ended before, or a report that nothing has come,
    /// changes nothing.
    pub open spec fn arrive(self, ticket: u64, arrival: ArrivalView) -> Self {
        let i = index_of(self.flights, ticket);
        if i < self.flights.len() && self.flights[i].arrival is Waiting && !(arrival is Waiting) {
            WebModel {
                flights: self.flights.update(i, FlightView { arrival, ..self.flights[i] }),
                ..self
            }
        } else {
            self
        }
    }

    /// The schedule after the first fetch that has ended was taken off.
    pub open spec fn take(self) -> Self {
        let i = first_ended(self.flights);
        if i < self.flights.len() {
            WebModel { flights: self.flights.remove(i), ..self }
        } else {
            self
        }
    }

    /// The outcome of the first fetch that has ended, if any has.
    pub open spec fn ready(self) -> Option<OutcomeView> {
        let i = first_ended(self.flights);
        if i < self.flights.len() {
            Some(self.flights[i].outcome())
        } else {
            None
        }
    }
}

/// An index with no ticket above `ticket` before it, where such a ticket
/// stands or the fetches end, is the place of `ticket`.
pub proof fn lemma_place_of(flights: Seq<FlightView>, ticket: u64, i: int)
    requires
        0 <= i <= flights.len(),
        forall|j: int| 0 <= j < i ==> (#[trigger] flights[j]).ticket <= ticket,
        i == flights.len() || flights[i].ticket > ticket,
    ensures
        place_of(flights, ticket) == i,
    decreases flights.len(),
{
    if flights.len() > 0 && flights[0].ticket <= ticket {
        let rest = flights.drop_first();
        assert forall|j: int| 0 <= j < i - 1 implies (#[trigger] rest[j]).ticket <= ticket by {
            assert(rest[j] == flights[j + 1]);
        }
        lemma_place_of(rest, ticket, i - 1);
    }
}

/// An index with no fetch of `ticket` before it, where such a fetch stands
/// or the fetches end, is the index of `ticket`.
pub proof fn lemma_index_of(flights: Seq<FlightView>, ticket: u64, i: int)
    requires
        0 <= i <= flights.len(),
        forall|j: int| 0 <= j < i ==> (#[trigger] flights[j]).ticket != ticket,
        i == flights.len() || flights[i].ticket == ticket,
    ensures
        index_of(flights, ticket) == i,
    decreases flights.len(),
{
    if flights.len() > 0 && flights[0].ticket != ticket {
        let rest = flights.drop_first();
        assert forall|j: int| 0 <= j < i - 1 implies (#[trigger] rest[j]).ticket != ticket by {
            assert(rest[j] == flights[j + 1]);
        }
        lemma_index_of(rest, ticket, i - 1);
    }
}

/// The index of a ticket lies within the fetches or at their end.
pub proof fn lemma_index_of_bounds(flights: Seq<FlightView>, ticket: u64)
    ensures
        0 <= index_of(flights, ticket) <= flights.len(),
        index_of(flights, ticket) < flights.len() ==> flights[index_of(flights, ticket)].ticket
            == ticket,
    decreases flights.len(),
{
    if flights.len() > 0 && flights[0].ticket != ticket {
        lemma_index_of_bounds(flights.drop_first(), ticket);
    }
}

/// An index with only waiting fetches before it, where an ended fetch
/// stands or the fetches end, is the index of the first ended fetch.
pub proof fn lemma_first_ended(flights: Seq<FlightView>, i: int)
    requires
        0 <= i <= flights.len(),
        forall|j: int| 0 <= j < i ==> (#[trigger] flights[j]).arrival is Waiting,
        i == flights.len() || !(flights[i].arrival is Waiting),
    ensures
        first_ended(flights) == i,
    decreases flights.len(),
{
    if flights.len() > 0 && flights[0].arrival is Waiting {
        let rest = flights.drop_first();
        assert forall|j: int| 0 <= j < i - 1 implies (#[trigger] rest[j]).arrival is Waiting by {
            assert(rest[j] == flights[j + 1]);
        }
        lemma_first_ended(rest, i - 1);
    }
}

/// The index of the first ended fetch lies within the fetches or at their
/// end, and only waiting fetches stand before it.
pub proof fn lemma_first_ended_bounds(flights: Seq<FlightView>)
    ensures
        0 <= first_ended(flights) <= flights.len(),
        forall|j: int| 0 <= j < first_ended(flights) ==> (#[trigger] flights[j]).arrival is Waiting,
        first_ended(flights) < flights.len() ==> !(flights[first_ended(flights)].arrival is Waiting),
    decreases flights.len(),
{
    if flights.len() > 0 && flights[0].arrival is Waiting {
        let rest = flights.drop_first();
        lemma_first_ended_bounds(rest);
        assert forall|j: int| 0 <= j < first_ended(flights) implies (
        #[trigger] flights[j]).arrival is Waiting by {
            if j > 0 {
                assert(flights[j] == rest[j - 1]);
            }
        }
    }
}

/// Every operation keeps the schedule well formed.
pub proof fn lemma_web_keeps_wf(pre: WebModel, path: Seq<char>, ticket: u64, arrival: ArrivalView)
    requires
        pre.wf(),
    ensures
        pre.issued < u64::MAX ==> pre.request(path).wf(),
        pre.dispatch().wf(),
        pre.arrive(ticket, arrival).wf(),
        pre.take().wf(),
{
    if pre.issued < u64::MAX {
        let post = pre.request(path);
        assert forall|i: int, j: int| 0 <= i < j < post.fresh.len() implies (
        #[trigger] post.fresh[i]).ticket < (#[trigger] post.fresh[j]).ticket by {
            if j < pre.fresh.len() {
                assert(post.fresh[i] == pre.fresh[i] && post.fresh[j] == pre.fresh[j]);
            } else {
                assert(post.fresh[i] == pre.fresh[i]);
            }
        }
        assert(post.wf());
    }
    lemma_dispatch_keeps_wf(pre);
    lemma_first_ended_bounds(pre.flights);
    let taken = pre.take();
    assert(taken.wf()) by {
        let k = first_ended(pre.flights);
        if k < pre.flights.len() {
            assert forall|i: int| 0 <= i < taken.flights.len() implies #[trigger] taken.flights[i]
                == pre.flights[if i < k {
                i
            } else {
                i + 1
            }] by {}
        }
    }
    let arrived = pre.arrive(ticket, arrival);
    lemma_index_of_bounds(pre.flights, ticket);
    assert(arrived.wf()) by {
        assert forall|i: int| 0 <= i < arrived.flights.len() implies (
        #[trigger] arrived.flights[i]).ticket == pre.flights[i].ticket by {}
    }
}

/// The place of a ticket lies within the fetches or at their end; the
/// tickets before it are no greater and the ticket at it is greater.
pub proof fn lemma_place_of_bounds(flights: Seq<FlightView>, ticket: u64)
    ensures
        0 <= place_of(flights, ticket) <= flights.len(),
        forall|j: int| 0 <= j < place_of(flights, ticket) ==> (#[trigger] flights[j]).ticket <= ticket,
        place_of(flights, ticket) < flights.len() ==> flights[place_of(flights, ticket)].ticket
            > ticket,
    decreases flights.len(),
{
    if flights.len() > 0 && flights[0].ticket <= ticket {
        let rest = flights.drop_first();
        lemma_place_of_bounds(rest, ticket);
        assert forall|j: int| 0 <= j < place_of(flights, ticket) implies (
        #[trigger] flights[j]).ticket <= ticket by {
            if j > 0 {
                assert(flights[j] == rest[j - 1]);
            }
        }
    }
}

/// Dispatching keeps the schedule well formed.
proof fn lemma_dispatch_keeps_wf(pre: WebModel)
    requires
        pre.wf(),
    ensures
        pre.dispatch().wf(),
{
    if pre.fresh.len() > 0 {
        let post = pre.dispatch();
        let newest = pre.fresh.last();
        let k = place_of(pre.flights, newest.ticket);
        lemma_place_of_bounds(pre.flights, newest.ticket);
        assert forall|i: int| 0 <= i < post.flights.len() implies #[trigger] post.flights[i] == (if i
            < k {
            pre.flights[i]
        } else if i == k {
            FlightView { ticket: newest.ticket, path: newest.path, arrival: ArrivalView::Waiting }
        } else {
            pre.flights[i - 1]
        }) by {}
        assert forall|i: int, j: int| 0 <= i < j < post.flights.len() implies (
        #[trigger] post.flights[i]).ticket < (#[trigger] post.flights[j]).ticket by {
            if i == k {
                assert(pre.flights[j - 1].ticket >= pre.flights[k].ticket);
            } else if j == k {
                assert(pre.flights[i].ticket <= newest.ticket);
                assert(pre.fresh[pre.fresh.len() - 1].ticket != pre.flights[i].ticket);
            } else {
            }
        }
        assert forall|i: int| 0 <= i < post.fresh.len() implies #[trigger] post.fresh[i]
            == pre.fresh[i] by {}
        assert forall|i: int, j: int|
            0 <= i < post.fresh.len() && 0 <= j < post.flights.len() implies (
        #[trigger] post.fresh[i]).ticket != (#[trigger] post.flights[j]).ticket by {
            if j == k {
                assert(pre.fresh[i].ticket < pre.fresh[pre.fresh.len() - 1].ticket);
            }
        }
    }
}

/// No request is dropped. A request is held from the call that records it
/// until its outcome is taken: dispatching and reports of arrivals keep
/// every ticket that is held and add none, and taking an outcome gives up
/// the ticket of the fetch that it yields and no other.
pub proof fn lemma_web_drops_no_request(
    pre: WebModel,
    path: Seq<char>,
    ticket: u64,
    arrival: ArrivalView,
    other: u64,
)
    requires
        pre.wf(),
    ensures
        pre.issued < u64::MAX ==> (pre.request(path).holds(other) <==> pre.holds(other) || other
            == pre.issued),
        pre.dispatch().holds(other) <==> pre.holds(other),
        pre.arrive(ticket, arrival).holds(other) <==> pre.holds(other),
        pre.ready() is None ==> pre.take() == pre,
        pre.ready() is Some ==> (pre.take().holds(other) <==> pre.holds(other) && other
            != pre.flights[first_ended(pre.flights)].ticket),
{
    if pre.issued < u64::MAX {
        lemma_request_holds(pre, path, other);
    }
    lemma_dispatch_holds(pre, other);
    lemma_arrive_holds(pre, ticket, arrival, other);
    lemma_first_ended_bounds(pre.flights);
    if pre.ready() is Some {
        lemma_take_holds(pre, other);
    }
}

/// A ticket held among the requests not dispatched yet, where one is held there.
spec fn fresh_at(model: WebModel, ticket: u64) -> int {
    choose|i: int| 0 <= i < model.fresh.len() && (#[trigger] model.fresh[i]).ticket == ticket
}

/// A ticket held among the fetches, where one is held there.
spec fn flight_at(model: WebModel, ticket: u64) -> int {
    choose|j: int| 0 <= j < model.flights.len() && (#[trigger] model.flights[j]).ticket == ticket
}

/// Whether a ticket is held among the requests not dispatched yet.
spec fn in_fresh(model: WebModel, ticket: u64) -> bool {
    exists|i: int| 0 <= i < model.fresh.len() && (#[trigger] model.fresh[i]).ticket == ticket
}

/// Whether a ticket is held among the fetches.
spec fn in_flights(model: WebModel, ticket: u64) -> bool {
    exists|j: int| 0 <= j < model.flights.len() && (#[trigger] model.flights[j]).ticket == ticket
}

/// A request adds its ticket to those held and no other.
proof fn lemma_request_holds(pre: WebModel, path: Seq<char>, other: u64)
    requires
        pre.wf(),
        pre.issued < u64::MAX,
    ensures
        pre.request(path).holds(other) <==> pre.holds(other) || other == pre.issued,
{
    let post = pre.request(path);
    assert(post.flights == pre.flights);
    assert(in_flights(post, other) == in_flights(pre, other));
    if in_fresh(pre, other) {
        assert(post.fresh[fresh_at(pre, other)].ticket == other);
    }
    if other == pre.issued {
        assert(post.fresh[pre.fresh.len() as int].ticket == other);
    }
    if in_fresh(post, other) && other != pre.issued {
        assert(pre.fresh[fresh_at(post, other)].ticket == other);
    }
}

/// Dispatching keeps the tickets that are held.
proof fn lemma_dispatch_holds(pre: WebModel, other: u64)
    requires
        pre.wf(),
    ensures
        pre.dispatch().holds(other) <==> pre.holds(other),
{
    if pre.fresh.len() > 0 {
        let post = pre.dispatch();
        let newest = pre.fresh.last();
        let k = place_of(pre.flights, newest.ticket);
        lemma_place_of_bounds(pre.flights, newest.ticket);
        assert(post.flights.len() == pre.flights.len() + 1);
        if in_fresh(pre, other) {
            let i = fresh_at(pre, other);
            if i == pre.fresh.len() - 1 {
                assert(post.flights[k].ticket == other);
            } else {
                assert(post.fresh[i].ticket == other);
            }
        }
        if in_flights(pre, other) {
            let j = flight_at(pre, other);
            if j < k {
                assert(post.flights[j].ticket == other);
            } else {
                assert(post.flights[j + 1].ticket == other);
            }
        }
        if in_fresh(post, other) {
            assert(pre.fresh[fresh_at(post, other)].ticket == other);
        }
        if in_flights(post, other) {
            let j = flight_at(post, other);
            if j < k {
                assert(pre.flights[j].ticket == other);
            } else if j == k {
                assert(pre.fresh[pre.fresh.len() - 1].ticket == other);
            } else {
                assert(pre.flights[j - 1].ticket == other);
            }
        }
    }
}

/// A report of an arrival keeps the tickets that are held.
proof fn lemma_arrive_holds(pre: WebModel, ticket: u64, arrival: ArrivalView, other: u64)
    requires
        pre.wf(),
    ensures
        pre.arrive(ticket, arrival).holds(other) <==> pre.holds(other),
{
    lemma_index_of_bounds(pre.flights, ticket);
    let post = pre.arrive(ticket, arrival);
    assert(post.fresh == pre.fresh);
    assert(in_fresh(post, other) == in_fresh(pre, other));
    assert(post.flights.len() == pre.flights.len());
    if in_flights(pre, other) {
        assert(post.flights[flight_at(pre, other)].ticket == other);
    }
    if in_flights(post, other) {
        assert(pre.flights[flight_at(post, other)].ticket == other);
    }
}

/// Taking an outcome gives up the ticket of the fetch that it yields and no other.
proof fn lemma_take_holds(pre: WebModel, other: u64)
    requires
        pre.wf(),
        pre.ready() is Some,
    ensures
        pre.take().holds(other) <==> pre.holds(other) && other != pre.flights[first_ended(
            pre.flights,
        )].ticket,
{
    lemma_first_ended_bounds(pre.flights);
    let post = pre.take();
    let k = first_ended(pre.flights);
    let given = pre.flights[k].ticket;
    assert(post.fresh == pre.fresh);
    assert(in_fresh(post, other) == in_fresh(pre, other));
    assert(post.flights.len() == pre.flights.len() - 1);
    if in_fresh(pre, other) {
        assert(pre.fresh[fresh_at(pre, other)].ticket != pre.flights[k].ticket);
    }
    if in_flights(pre, other) && other != given {
        let j = flight_at(pre, other);
        if j < k {
            assert(post.flights[j].ticket == other);
        } else {
            assert(post.flights[j - 1].ticket == other);
        }
    }
    if in_flights(post, other) {
        let j = flight_at(post, other);
        if j < k {
            assert(pre.flights[j].ticket == other);
            assert(pre.flights[j].ticket < pre.flights[k].ticket);
        } else {
            assert(pre.flights[j + 1].ticket == other);
            assert(pre.flights[k].ticket < pre.flights[j + 1].ticket);
        }
    }
}

/// A poll yields the earliest request among the fetches that have ended:
/// no fetch with a smaller ticket has ended.
pub proof fn lemma_web_yields_earliest(pre: WebModel, other: int)
    requires
        pre.wf(),
        0 <= other < pre.flights.len(),
        !(pre.flights[other].arrival is Waiting),
    ensures
        first_ended(pre.flights) < pre.flights.len(),
        pre.flights[first_ended(pre.flights)].ticket <= pre.flights[other].ticket,
        pre.ready() == Some(pre.flights[first_ended(pre.flights)].outcome()),
{
    lemma_first_ended_bounds(pre.flights);
}

/// The schedule of the network backend.
pub struct WebQueue {
    fresh: Vec<Ticketed>,
    flights: Vec<Flight>,
    issued: u64,
}

impl View for WebQueue {
    type V = WebModel;

    closed spec fn view(&self) -> WebModel {
        WebModel {
            fresh: self.fresh@.map_values(|r: Ticketed| r@),
            flights: self.flights@.map_values(|f: Flight| f@),
            issued: self.issued,
        }
    }
}

impl WebQueue {
    /// The schedule's invariant, which is that of its view.
    pub closed spec fn wf(&self) -> bool {
        self@.wf()
    }

    /// A well-formed schedule has a well-formed view.
    pub proof fn lemma_wf_view(&self)
        requires
            self.wf(),
        ensures
            self@.wf(),
    {
    }

    /// A schedule with nothing requested.
    pub fn new() -> (r: Self)
        ensures
            r.wf(),
            r@ == WebModel::empty(),
    {
        let r = WebQueue { fresh: Vec::new(), flights: Vec::new(), issued: 0 };
        assert(r@.fresh =~= Seq::empty() && r@.flights =~= Seq::empty());
        r
    }

    /// How many tickets were given out; the next request gets this number.
    pub fn issued(&self) -> (r: u64)
        ensures
            r == self@.issued,
    {
        self.issued
    }

    /// Records a request for `path` under the next ticket.
    pub fn request(&mut self, path: String)
        requires
            old(self).wf(),
            old(self)@.issued < u64::MAX,
        ensures
            final(self).wf(),
            final(self)@ == old(self)@.request(path@),
    {
        self.fresh.push(Ticketed { ticket: self.issued, path });
        self.issued += 1;
        proof {
            assert(self@.fresh =~= old(self)@.request(path@).fresh);
            lemma_web_keeps_wf(old(self)@, path@, 0, ArrivalView::Waiting);
        }
    }

    /// Dispatches the newest request that was not dispatched yet, and gives
    /// its ticket and path for the host to start the fetch. Without such a
    /// request nothing changes.
    pub fn dispatch(&mut self) -> (r: Option<(u64, String)>)
        requires
            old(self).wf(),
        ensures
            final(self).wf(),
            final(self)@ == old(self)@.dispatch(),
            match r {
                Some((ticket, path)) => old(self)@.fresh.len() > 0 && ticket == old(
                    self,
                )@.fresh.last().ticket && path@ == old(self)@.fresh.last().path,
                None => old(self)@.fresh.len() == 0,
            },
    {
        match self.fresh.pop() {
            Some(newest) => {
                let ticket = newest.ticket;
                let mut place: usize = 0;
                while place < self.flights.len() && self.flights[place].ticket <= ticket
                    invariant
                        place <= self.flights.len(),
                        forall|j: int|
                            0 <= j < place ==> (#[trigger] self.flights@[j]).ticket <= ticket,
                    decreases self.flights.len() - place,
                {
                    place += 1;
                }
                proof {
                    let flights = old(self)@.flights;
                    assert forall|j: int| 0 <= j < place implies (#[trigger] flights[j]).ticket
                        <= ticket by {
                        assert(flights[j] == self.flights@[j]@);
                    }
                    lemma_place_of(flights, ticket, place as int);
                }
                self.flights.insert(
                    place,
                    Flight { ticket, path: newest.path.clone(), arrival: Arrival::Waiting },
                );
                proof {
                    assert(self@.fresh =~= old(self)@.dispatch().fresh);
                    assert(self@.flights =~= old(self)@.dispatch().flights);
                    lemma_web_keeps_wf(old(self)@, Seq::empty(), 0, ArrivalView::Waiting);
                }
                Some((ticket, newest.path))
            },
            None => {
                assert(self@.fresh =~= old(self)@.fresh);
                None
            },
        }
    }

    /// The tickets of the fetches that have not ended, in the order of their
    /// requests: the ones whose channels the host looks into.
    pub fn waiting(&self) -> (r: Vec<u64>)
        ensures
            r@ == waiting_tickets(self@.flights),
    {
        let mut tickets: Vec<u64> = Vec::new();
        let mut i: usize = 0;
        while i < self.flights.len()
            invariant
                i <= self.flights.len(),
                tickets@ == waiting_tickets(self@.flights.take(i as int)),
            decreases self.flights.len() - i,
        {
            proof {
                let longer = self@.flights.take(i + 1);
                assert(longer.drop_last() =~= self@.flights.take(i as int));
                assert(longer.last() == self.flights@[i as int]@);
            }
            match self.flights[i].arrival {
                Arrival::Waiting => {
                    tickets.push(self.flights[i].ticket);
                },
                _ => {},
            }
            i += 1;
        }
        assert(self@.flights.take(i as int) =~= self@.flights);
        tickets
    }

    /// Records how the fetch with `ticket` ended. See [`WebModel::arrive`].
    pub fn arrive(&mut self, ticket: u64, arrival: Arrival)
        requires
            old(self).wf(),
        ensures
            final(self).wf(),
            final(self)@ == old(self)@.arrive(ticket, arrival@),
    {
        let mut i: usize = 0;
        while i < self.flights.len() && self.flights[i].ticket != ticket
            invariant
                i <= self.flights.len(),
                forall|j: int| 0 <= j < i ==> (#[trigger] self.flights@[j]).ticket != ticket,
            decreases self.flights.len() - i,
        {
            i += 1;
        }
        proof {
            let flights = self@.flights;
            assert forall|j: int| 0 <= j < i implies (#[trigger] flights[j]).ticket != ticket by {
                assert(flights[j] == self.flights@[j]@);
            }
            lemma_index_of(flights, ticket, i as int);
            lemma_web_keeps_wf(old(self)@, Seq::empty(), ticket, arrival@);
        }
        if i < self.flights.len() {
            let waits = match self.flights[i].arrival {
                Arrival::Waiting => true,
                _ => false,
            };
            let comes = match arrival {
                Arrival::Waiting => false,
                _ => true,
            };
            if waits && comes {
                let flight = self.flights.remove(i);
                self.flights.insert(i, Flight { ticket: flight.ticket, path: flight.path, arrival });
                assert(self@.flights =~= old(self)@.arrive(ticket, arrival@).flights);
                return ;
            }
        }
        assert(self@ =~= old(self)@);
    }

    /// Takes off the first fetch that has ended, in the order of the
    /// requests, and gives its outcome: the bytes under its path, or the
    /// failure of its path. Without such a fetch nothing changes.
    pub fn take_ready(&mut self) -> (r: Option<LoaderEvent>)
        requires
            old(self).wf(),
        ensures
            final(self).wf(),
            final(self)@ == old(self)@.take(),
            match r {
                Some(outcome) => old(self)@.ready() == Some(outcome@),
                None => old(self)@.ready() is None,
            },
            r is None <==> forall|j: int|
                0 <= j < old(self)@.flights.len() ==> (#[trigger] old(self)@.flights[j]).arrival
                    is Waiting,
    {
        let mut i: usize = 0;
        while i < self.flights.len() && self.flights[i].arrival.is_waiting()
            invariant
                i <= self.flights.len(),
                forall|j: int| 0 <= j < i ==> (#[trigger] self.flights@[j]).arrival is Waiting,
            decreases self.flights.len() - i,
        {
            i += 1;
        }
        proof {
            let flights = self@.flights;
            assert forall|j: int| 0 <= j < i implies (#[trigger] flights[j]).arrival is Waiting by {
                assert(flights[j] == self.flights@[j]@);
            }
            lemma_first_ended(flights, i as int);
            lemma_web_keeps_wf(old(self)@, Seq::empty(), 0, ArrivalView::Waiting);
        }
        if i < self.flights.len() {
            let flight = self.flights.remove(i);
            assert(self@.flights =~= old(self)@.take().flights);
            match flight.arrival {
                Arrival::Fetched(bytes) => Some(LoaderEvent::Load(flight.path, bytes)),
                _ => Some(LoaderEvent::LoadFailed(flight.path)),
            }
        } else {
            None
        }
    }
}

impl Arrival {
    /// Whether nothing has come back yet.
    pub fn is_waiting(&self) -> (r: bool)
        ensures
            r == (*self is Waiting),
            r == (self@ is Waiting),
    {
        match self {
            Arrival::Waiting => true,
            _ => false,
        }
    }
}

impl Default for WebQueue {
    fn default() -> (r: Self)
        ensures
            r.wf(),
            r@ == WebModel::empty(),
    {
        WebQueue::new()
    }
}

} // verus!
