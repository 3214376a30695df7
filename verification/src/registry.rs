use crate::asset::{event_view, AssetEvent, AssetView, EventView, GGAsset, Load, LoadView};
use crate::loader::{Loader, LoaderEvent, OutcomeView};
use std::rc::Rc;
use vstd::hash_map::StringHashMap;
use vstd::prelude::*;

verus! {

/// What a registry holds, as plain values: the decoded assets by name, the
/// requests still under way by path, and how many loads have succeeded so far.
#[verifier::ext_equal]
pub struct RegistryModel<T> {
    pub loaded: Map<Seq<char>, AssetView<T>>,
    pub pending: Map<Seq<char>, Seq<char>>,
    pub completed: nat,
}

impl<T> RegistryModel<T> {
    /// A registry in which nothing was requested yet.
    pub open spec fn empty() -> Self {
        RegistryModel { loaded: Map::empty(), pending: Map::empty(), completed: 0 }
    }

    /// Every asset is filed under its own name, no name waits under two paths,
    /// and no more assets are held than loads have succeeded.
    pub open spec fn wf(self) -> bool {
        &&& self.loaded.dom().finite()
        &&& self.pending.dom().finite()
        &&& forall|n: Seq<char>| #[trigger]
            self.loaded.contains_key(n) ==> self.loaded[n].name == n
        &&& forall|p: Seq<char>, q: Seq<char>|
            #![trigger self.pending[p], self.pending[q]]
            self.pending.contains_key(p) && self.pending.contains_key(q) && self.pending[p]
                == self.pending[q] ==> p == q
        &&& self.loaded.len() <= self.completed
    }

    /// The asset that `get` hands out for `name`.
    pub open spec fn get(self, name: Seq<char>) -> Option<AssetView<T>> {
        if self.loaded.contains_key(name) {
            Some(self.loaded[name])
        } else {
            None
        }
    }

    /// Whether some request for `name` is still under way.
    pub open spec fn awaits(self, name: Seq<char>) -> bool {
        exists|p: Seq<char>| #[trigger] self.pending.contains_key(p) && self.pending[p] == name
    }

    /// The registry after `name` was requested from `path`: the request is
    /// recorded under its path, and an earlier request of the same name from
    /// another path is dropped.
    pub open spec fn request(self, path: Seq<char>, name: Seq<char>) -> Self {
        RegistryModel {
            pending: Map::new(
                |p: Seq<char>| p == path || (self.pending.contains_key(p) && self.pending[p] != name),
                |p: Seq<char>|
                    if p == path {
                        name
                    } else {
                        self.pending[p]
                    },
            ),
            ..self
        }
    }

    /// The registry after the request for `path` ended without an asset.
    pub open spec fn fail(self, path: Seq<char>) -> Self {
        RegistryModel { pending: self.pending.remove(path), ..self }
    }

    /// The registry after the request for `path` was decoded to `data`.
    pub open spec fn store(self, path: Seq<char>, data: T) -> Self {
        let name = self.pending[path];
        RegistryModel {
            loaded: self.loaded.insert(name, AssetView { name, path, data }),
            pending: self.pending.remove(path),
            completed: self.completed + 1,
        }
    }
}

/// The load that a registry in state `pre` hands to its decode function when
/// `outcome` arrives, if it hands one at all.
pub open spec fn handed<T>(pre: RegistryModel<T>, outcome: OutcomeView) -> Option<LoadView> {
    match outcome {
        OutcomeView::Load(path, data) if pre.pending.contains_key(path) => Some(
            LoadView { name: pre.pending[path], path, data },
        ),
        _ => None,
    }
}

/// What settling `outcome` makes of a registry in state `pre`, where `decoded`
/// is what the decode function returned for the load handed to it.
///
/// An outcome for a path that is not pending changes nothing and is not
/// reported. Otherwise the request leaves the pending ones; bytes that decode
/// are stored under the request's name and reported as loaded; a failed
/// transport or a failed decode is reported as a failure and stores nothing.
pub open spec fn settle_spec<T>(
    pre: RegistryModel<T>,
    outcome: OutcomeView,
    decoded: Result<T, ()>,
) -> (RegistryModel<T>, Option<EventView<T>>) {
    let path = outcome.path();
    if !pre.pending.contains_key(path) {
        (pre, None)
    } else {
        let name = pre.pending[path];
        match (outcome, decoded) {
            (OutcomeView::Load(_, _), Ok(data)) => (
                pre.store(path, data),
                Some(EventView::Loaded(AssetView { name, path, data })),
            ),
            _ => (pre.fail(path), Some(EventView::LoadFailed { name, path })),
        }
    }
}

/// `post` and `event` are what settling `outcome` with the decode function
/// `f` can make of a registry in state `pre`.
pub open spec fn settled<T, F: Fn(Load) -> Result<T, ()>>(
    pre: RegistryModel<T>,
    outcome: OutcomeView,
    f: F,
    post: RegistryModel<T>,
    event: Option<EventView<T>>,
) -> bool {
    match handed(pre, outcome) {
        Some(load) => exists|l: Load, decoded: Result<T, ()>|
            l@ == load && #[trigger] call_ensures(f, (l,), decoded) && (post, event)
                == settle_spec(pre, outcome, decoded),
        None => (post, event) == settle_spec(pre, outcome, Err(())),
    }
}

/// One outcome with what the decode function returned for it.
pub struct Settlement<T> {
    pub outcome: OutcomeView,
    pub decoded: Result<T, ()>,
}

/// The registry after the settlements of `steps`, in order.
pub open spec fn settle_all<T>(pre: RegistryModel<T>, steps: Seq<Settlement<T>>) -> RegistryModel<T>
    decreases steps.len(),
{
    if steps.len() == 0 {
        pre
    } else {
        settle_all(settle_spec(pre, steps[0].outcome, steps[0].decoded).0, steps.drop_first())
    }
}

/// Whether some settlement of `steps` decoded bytes fetched from `path` to `data`.
pub open spec fn decoded_from<T>(steps: Seq<Settlement<T>>, path: Seq<char>, data: T) -> bool {
    exists|i: int|
        0 <= i < steps.len() && (#[trigger] steps[i]).outcome is Load && steps[i].outcome.path()
            == path && steps[i].decoded == Ok::<T, ()>(data)
}

/// A request keeps a registry well formed, leaves the decoded assets alone
/// and is pending under its name afterwards.
pub proof fn lemma_request_keeps_wf<T>(pre: RegistryModel<T>, path: Seq<char>, name: Seq<char>)
    requires
        pre.wf(),
    ensures
        pre.request(path, name).wf(),
        pre.request(path, name).loaded == pre.loaded,
        pre.request(path, name).pending.contains_key(path),
        pre.request(path, name).pending[path] == name,
        pre.request(path, name).awaits(name),
        pre.request(path, name).pending.len() <= pre.pending.len() + 1,
{
    let post = pre.request(path, name);
    assert(post.pending.dom().subset_of(pre.pending.dom().insert(path)));
    vstd::set_lib::lemma_len_subset(post.pending.dom(), pre.pending.dom().insert(path));
    assert(post.pending.contains_key(path));
}

/// Settling an outcome keeps a registry well formed.
pub proof fn lemma_settle_keeps_wf<T>(
    pre: RegistryModel<T>,
    outcome: OutcomeView,
    decoded: Result<T, ()>,
)
    requires
        pre.wf(),
    ensures
        settle_spec(pre, outcome, decoded).0.wf(),
{
}

/// A pending request ends in exactly one of two ways. When the outcome for
/// the path of a pending request is settled, and no asset was held under the
/// request's name before, then either the asset is now held under that name
/// and reported as loaded, or a failure is reported for that name and nothing
/// is held under it; never both, never neither. The request is no longer
/// pending either way.
pub proof fn lemma_request_ends_one_way<T>(
    pre: RegistryModel<T>,
    outcome: OutcomeView,
    decoded: Result<T, ()>,
)
    requires
        pre.wf(),
        pre.pending.contains_key(outcome.path()),
        pre.get(pre.pending[outcome.path()]) is None,
    ensures
        ({
            let path = outcome.path();
            let name = pre.pending[path];
            let (post, event) = settle_spec(pre, outcome, decoded);
            let failed = event == Some(EventView::<T>::LoadFailed { name, path });
            &&& !post.pending.contains_key(path)
            &&& !post.awaits(name)
            &&& event is Some
            &&& post.get(name) is Some <==> !failed
            &&& post.get(name) matches Some(asset) ==> event == Some(EventView::Loaded(asset))
                && asset.name == name && asset.path == path && outcome is Load && decoded == Ok::<
                T,
                (),
            >(asset.data)
        }),
{
}

/// The events that the settlements of `steps` report, in order; a
/// settlement that is not reported stands as `None`.
pub open spec fn reported<T>(pre: RegistryModel<T>, steps: Seq<Settlement<T>>) -> Seq<
    Option<EventView<T>>,
>
    decreases steps.len(),
{
    if steps.len() == 0 {
        Seq::empty()
    } else {
        let first = settle_spec(pre, steps[0].outcome, steps[0].decoded);
        seq![first.1] + reported(first.0, steps.drop_first())
    }
}

/// Whether an event is about the asset called `name`.
pub open spec fn names<T>(event: Option<EventView<T>>, name: Seq<char>) -> bool {
    match event {
        Some(EventView::Loaded(asset)) => asset.name == name,
        Some(EventView::LoadFailed { name: failed, path }) => failed == name,
        None => false,
    }
}

/// Whether an outcome for `path` is among `steps`.
pub open spec fn answered<T>(steps: Seq<Settlement<T>>, path: Seq<char>) -> bool {
    exists|k: int| 0 <= k < steps.len() && (#[trigger] steps[k]).outcome.path() == path
}

/// Whether `event` is among `events`.
pub open spec fn seen<T>(events: Seq<Option<EventView<T>>>, event: Option<EventView<T>>) -> bool {
    exists|k: int| 0 <= k < events.len() && #[trigger] events[k] == event
}

/// Whether a loaded event for `name` is among `events`.
pub open spec fn seen_loaded<T>(events: Seq<Option<EventView<T>>>, name: Seq<char>) -> bool {
    exists|k: int|
        0 <= k < events.len() && (#[trigger] events[k]) is Some && events[k]->0 is Loaded && names(
            events[k],
            name,
        )
}

/// A name that no request waits for is left alone by every settlement: what
/// is held under it stays, and no event is about it.
pub proof fn lemma_settled_name_is_left_alone<T>(
    pre: RegistryModel<T>,
    steps: Seq<Settlement<T>>,
    name: Seq<char>,
)
    requires
        pre.wf(),
        !pre.awaits(name),
    ensures
        settle_all(pre, steps).wf(),
        settle_all(pre, steps).get(name) == pre.get(name),
        !settle_all(pre, steps).awaits(name),
        reported(pre, steps).len() == steps.len(),
        forall|k: int| 0 <= k < steps.len() ==> !names(#[trigger] reported(pre, steps)[k], name),
    decreases steps.len(),
{
    if steps.len() > 0 {
        let step = steps[0];
        let first = settle_spec(pre, step.outcome, step.decoded);
        let next = first.0;
        let rest = steps.drop_first();
        lemma_settle_keeps_wf(pre, step.outcome, step.decoded);
        let path = step.outcome.path();
        if pre.pending.contains_key(path) {
            assert(pre.pending[path] != name);
        }
        assert(!next.awaits(name)) by {
            if next.awaits(name) {
                let p = choose|p: Seq<char>| #[trigger]
                    next.pending.contains_key(p) && next.pending[p] == name;
                assert(pre.pending.contains_key(p) && pre.pending[p] == name);
            }
        }
        lemma_settled_name_is_left_alone(next, rest, name);
        let events = reported(pre, steps);
        let later = reported(next, rest);
        assert(events =~= seq![first.1] + later);
        assert forall|k: int| 0 <= k < steps.len() implies !names(#[trigger] events[k], name) by {
            if k > 0 {
                assert(events[k] == later[k - 1]);
            }
        }
    }
}

/// Every request is answered in exactly one way over a whole run. Where
/// `name` waits for `path` and nothing is held under it, then after the
/// settlements of `steps`, in whatever order the outcomes came and whatever
/// else was settled between them:
/// - if an outcome for `path` was among them, the request is no longer
///   pending, and either the asset is held under `name`, with that name and
///   path, and was reported as loaded, or its failure was reported and
///   nothing is held under `name`; never both, never neither;
/// - if none was, the request is still pending, nothing is held under
///   `name` and nothing was reported of it.
pub proof fn lemma_request_ends_one_way_in_a_run<T>(
    pre: RegistryModel<T>,
    steps: Seq<Settlement<T>>,
    path: Seq<char>,
    name: Seq<char>,
)
    requires
        pre.wf(),
        pre.pending.contains_key(path),
        pre.pending[path] == name,
        pre.get(name) is None,
    ensures
        ({
            let end = settle_all(pre, steps);
            let events = reported(pre, steps);
            let failure = Some(EventView::<T>::LoadFailed { name, path });
            &&& events.len() == steps.len()
            &&& answered(steps, path) ==> {
                &&& !end.awaits(name)
                &&& end.get(name) is Some <==> !seen(events, failure)
                &&& end.get(name) is Some <==> seen_loaded(events, name)
                &&& end.get(name) matches Some(asset) ==> asset.name == name && asset.path == path
                    && seen(events, Some(EventView::Loaded(asset)))
            }
            &&& !answered(steps, path) ==> {
                &&& end.pending.contains_key(path) && end.pending[path] == name
                &&& end.get(name) is None
                &&& !seen(events, failure)
                &&& !seen_loaded(events, name)
            }
        }),
    decreases steps.len(),
{
    let failure = Some(EventView::<T>::LoadFailed { name, path });
    if steps.len() > 0 {
        let step = steps[0];
        let first = settle_spec(pre, step.outcome, step.decoded);
        let next = first.0;
        let rest = steps.drop_first();
        let end = settle_all(pre, steps);
        let events = reported(pre, steps);
        let later = reported(next, rest);
        lemma_settle_keeps_wf(pre, step.outcome, step.decoded);
        assert(events =~= seq![first.1] + later);
        assert(events[0] == first.1);
        if step.outcome.path() == path {
            assert(answered(steps, path));
            assert(!next.awaits(name)) by {
                if next.awaits(name) {
                    let p = choose|p: Seq<char>| #[trigger]
                        next.pending.contains_key(p) && next.pending[p] == name;
                    assert(pre.pending.contains_key(p) && pre.pending[p] == name);
                }
            }
            lemma_settled_name_is_left_alone(next, rest, name);
            assert forall|k: int| 0 < k < events.len() implies !names(#[trigger] events[k], name) by {
                assert(events[k] == later[k - 1]);
            }
            assert(names(failure, name));
            if next.get(name) is Some {
                let asset = next.get(name)->0;
                assert(first.1 == Some(EventView::Loaded(asset)));
                assert(seen(events, Some(EventView::Loaded(asset))));
                assert(seen_loaded(events, name));
                assert(!seen(events, failure)) by {
                    if seen(events, failure) {
                        let k = choose|k: int| 0 <= k < events.len() && #[trigger] events[k] == failure;
                        assert(k == 0);
                    }
                }
            } else {
                assert(first.1 == failure);
                assert(seen(events, failure));
                assert(!seen_loaded(events, name)) by {
                    if seen_loaded(events, name) {
                        let k = choose|k: int|
                            0 <= k < events.len() && (#[trigger] events[k]) is Some
                                && events[k]->0 is Loaded && names(events[k], name);
                        assert(k == 0);
                    }
                }
            }
        } else {
            let other = step.outcome.path();
            if pre.pending.contains_key(other) {
                assert(pre.pending[other] != name);
            }
            assert(!names(first.1, name));
            assert(next.pending.contains_key(path) && next.pending[path] == name);
            assert(next.get(name) is None);
            lemma_request_ends_one_way_in_a_run(next, rest, path, name);
            assert(answered(steps, path) == answered(rest, path)) by {
                if answered(rest, path) {
                    let k = choose|k: int|
                        0 <= k < rest.len() && (#[trigger] rest[k]).outcome.path() == path;
                    assert(steps[k + 1] == rest[k]);
                }
                if answered(steps, path) {
                    let k = choose|k: int|
                        0 <= k < steps.len() && (#[trigger] steps[k]).outcome.path() == path;
                    assert(rest[k - 1] == steps[k]);
                }
            }
            assert(seen(events, failure) == seen(later, failure)) by {
                if seen(later, failure) {
                    let k = choose|k: int| 0 <= k < later.len() && #[trigger] later[k] == failure;
                    assert(events[k + 1] == later[k]);
                }
                if seen(events, failure) {
                    let k = choose|k: int| 0 <= k < events.len() && #[trigger] events[k] == failure;
                    assert(names(failure, name));
                    assert(later[k - 1] == events[k]);
                }
            }
            assert(seen_loaded(events, name) == seen_loaded(later, name)) by {
                if seen_loaded(later, name) {
                    let k = choose|k: int|
                        0 <= k < later.len() && (#[trigger] later[k]) is Some && later[k]->0 is Loaded
                            && names(later[k], name);
                    assert(events[k + 1] == later[k]);
                }
                if seen_loaded(events, name) {
                    let k = choose|k: int|
                        0 <= k < events.len() && (#[trigger] events[k]) is Some
                            && events[k]->0 is Loaded && names(events[k], name);
                    assert(later[k - 1] == events[k]);
                }
            }
            if end.get(name) is Some {
                let asset = end.get(name)->0;
                if seen(later, Some(EventView::Loaded(asset))) {
                    let k = choose|k: int|
                        0 <= k < later.len() && #[trigger] later[k] == Some(
                            EventView::Loaded(asset),
                        );
                    assert(events[k + 1] == later[k]);
                }
            }
        }
    } else {
        assert(!answered(steps, path));
    }
}

/// A request: the path asked for and the name to hold the asset under.
pub struct Request {
    pub path: Seq<char>,
    pub name: Seq<char>,
}

/// The registry after the requests of `requests`, in order.
pub open spec fn request_all<T>(pre: RegistryModel<T>, requests: Seq<Request>) -> RegistryModel<T>
    decreases requests.len(),
{
    if requests.len() == 0 {
        pre
    } else {
        request_all(pre, requests.drop_last()).request(requests.last().path, requests.last().name)
    }
}

/// No two of the requests ask for the same path or use the same name.
pub open spec fn distinct(requests: Seq<Request>) -> bool {
    forall|i: int, j: int|
        0 <= i < j < requests.len() ==> (#[trigger] requests[i]).path != (#[trigger] requests[j]).path
            && requests[i].name != requests[j].name
}

/// After requests of distinct paths under distinct names, made of a registry
/// that holds nothing and waits for nothing, every one of them is pending
/// and nothing is held.
pub proof fn lemma_distinct_requests_all_wait<T>(requests: Seq<Request>)
    requires
        distinct(requests),
    ensures
        ({
            let made = request_all(RegistryModel::<T>::empty(), requests);
            &&& made.wf()
            &&& made.loaded == Map::<Seq<char>, AssetView<T>>::empty()
            &&& forall|i: int|
                0 <= i < requests.len() ==> made.pending.contains_key(
                    (#[trigger] requests[i]).path,
                ) && made.pending[requests[i].path] == requests[i].name
            &&& forall|p: Seq<char>| #[trigger]
                made.pending.contains_key(p) ==> exists|i: int|
                    0 <= i < requests.len() && (#[trigger] requests[i]).path == p
        }),
    decreases requests.len(),
{
    if requests.len() > 0 {
        let earlier = requests.drop_last();
        let last = requests.last();
        assert forall|i: int, j: int| 0 <= i < j < earlier.len() implies (#[trigger] earlier[i]).path
            != (#[trigger] earlier[j]).path && earlier[i].name != earlier[j].name by {
            assert(earlier[i] == requests[i] && earlier[j] == requests[j]);
        }
        lemma_distinct_requests_all_wait::<T>(earlier);
        let before = request_all(RegistryModel::<T>::empty(), earlier);
        lemma_request_keeps_wf(before, last.path, last.name);
        let made = before.request(last.path, last.name);
        assert(made == request_all(RegistryModel::<T>::empty(), requests));
        assert forall|i: int| 0 <= i < requests.len() implies made.pending.contains_key(
            (#[trigger] requests[i]).path,
        ) && made.pending[requests[i].path] == requests[i].name by {
            if i < earlier.len() {
                assert(earlier[i] == requests[i]);
                assert(requests[i].name != requests[requests.len() - 1].name);
                assert(before.pending.contains_key(earlier[i].path));
            }
        }
        assert forall|p: Seq<char>| #[trigger] made.pending.contains_key(p) implies exists|i: int|
            0 <= i < requests.len() && (#[trigger] requests[i]).path == p by {
            if p == last.path {
                assert(requests[requests.len() - 1].path == p);
            } else {
                assert(before.pending.contains_key(p));
                let i = choose|i: int| 0 <= i < earlier.len() && (#[trigger] earlier[i]).path == p;
                assert(requests[i] == earlier[i]);
            }
        }
    }
}

/// Every one of a set of requests ends in exactly one way. After requests of
/// distinct paths under distinct names, made of a registry that holds
/// nothing, and the settlement of whatever outcomes came, a request whose
/// path was answered is held under its name, with that name and path, and
/// was reported as loaded, or its failure was reported and nothing is held
/// under its name: one of the two and not both. It is held exactly if a
/// loaded event was reported for its name.
pub proof fn lemma_every_request_ends_one_way<T>(
    requests: Seq<Request>,
    steps: Seq<Settlement<T>>,
    i: int,
)
    requires
        distinct(requests),
        0 <= i < requests.len(),
        answered(steps, requests[i].path),
    ensures
        ({
            let made = request_all(RegistryModel::<T>::empty(), requests);
            let end = settle_all(made, steps);
            let events = reported(made, steps);
            let failure = Some(
                EventView::<T>::LoadFailed { name: requests[i].name, path: requests[i].path },
            );
            &&& end.get(requests[i].name) is Some <==> !seen(events, failure)
            &&& end.get(requests[i].name) is Some <==> seen_loaded(events, requests[i].name)
            &&& end.get(requests[i].name) matches Some(asset) ==> asset.name == requests[i].name
                && asset.path == requests[i].path
        }),
{
    lemma_distinct_requests_all_wait::<T>(requests);
    let made = request_all(RegistryModel::<T>::empty(), requests);
    assert(made.pending.contains_key(requests[i].path));
    lemma_request_ends_one_way_in_a_run(made, steps, requests[i].path, requests[i].name);
}

/// What `settled` allows is a settlement: the registry and the event are
/// what [`settle_spec`] gives for some result of the decode function.
pub proof fn lemma_settled_is_a_settlement<T, F: Fn(Load) -> Result<T, ()>>(
    pre: RegistryModel<T>,
    outcome: OutcomeView,
    f: F,
    post: RegistryModel<T>,
    event: Option<EventView<T>>,
)
    requires
        settled(pre, outcome, f, post, event),
    ensures
        exists|decoded: Result<T, ()>| (post, event) == #[trigger] settle_spec(pre, outcome, decoded),
{
    match handed(pre, outcome) {
        Some(load) => {
            let (l, decoded) = choose|l: Load, decoded: Result<T, ()>|
                l@ == load && #[trigger] call_ensures(f, (l,), decoded) && (post, event)
                    == settle_spec(pre, outcome, decoded);
            assert((post, event) == settle_spec(pre, outcome, decoded));
        },
        None => {
            assert((post, event) == settle_spec(pre, outcome, Err::<T, ()>(())));
        },
    }
}

/// One settlement leaves alone a name that no request waits for.
pub proof fn lemma_settlement_leaves_name_alone<T>(
    pre: RegistryModel<T>,
    outcome: OutcomeView,
    decoded: Result<T, ()>,
    name: Seq<char>,
)
    requires
        pre.wf(),
        !pre.awaits(name),
    ensures
        settle_spec(pre, outcome, decoded).0.get(name) == pre.get(name),
        !settle_spec(pre, outcome, decoded).0.awaits(name),
        !names(settle_spec(pre, outcome, decoded).1, name),
{
    let next = settle_spec(pre, outcome, decoded).0;
    let path = outcome.path();
    if pre.pending.contains_key(path) {
        assert(pre.pending[path] != name);
    }
    if next.awaits(name) {
        let p = choose|p: Seq<char>| #[trigger] next.pending.contains_key(p) && next.pending[p] == name;
        assert(pre.pending.contains_key(p) && pre.pending[p] == name);
    }
}

/// No name is both pending and held.
pub open spec fn apart<T>(registry: RegistryModel<T>) -> bool {
    forall|p: Seq<char>| #[trigger]
        registry.pending.contains_key(p) ==> !registry.loaded.contains_key(registry.pending[p])
}

/// A name is pending or held, not both, for as long as no name is requested
/// that is held already: settling keeps pending and held names apart, and
/// so does the request of a name that is not held.
pub proof fn lemma_pending_and_held_stay_apart<T>(
    pre: RegistryModel<T>,
    path: Seq<char>,
    name: Seq<char>,
    outcome: OutcomeView,
    decoded: Result<T, ()>,
)
    requires
        pre.wf(),
        apart(pre),
    ensures
        apart(settle_spec(pre, outcome, decoded).0),
        pre.get(name) is None ==> apart(pre.request(path, name)),
{
    let settled = settle_spec(pre, outcome, decoded).0;
    assert forall|p: Seq<char>| #[trigger] settled.pending.contains_key(p) implies
        !settled.loaded.contains_key(settled.pending[p]) by {
        assert(pre.pending.contains_key(p));
        if pre.pending.contains_key(outcome.path()) {
            assert(pre.pending[p] != pre.pending[outcome.path()]);
        }
    }
    if pre.get(name) is None {
        let requested = pre.request(path, name);
        assert forall|p: Seq<char>| #[trigger] requested.pending.contains_key(p) implies
            !requested.loaded.contains_key(requested.pending[p]) by {
            if p != path {
                assert(pre.pending.contains_key(p));
            }
        }
    }
}

/// The later of two requests of one name wins. After `name` was requested
/// from `first` and then from `second`, the outcome for `first` settles
/// nothing, and whatever outcomes are settled afterwards, an asset held under
/// `name` comes from `second` and holds what one of those settlements decoded
/// from the bytes fetched there. (The name must not be held already when the
/// two requests are made.)
pub proof fn lemma_last_request_wins<T>(
    pre: RegistryModel<T>,
    first: Seq<char>,
    second: Seq<char>,
    name: Seq<char>,
    steps: Seq<Settlement<T>>,
)
    requires
        pre.wf(),
        first != second,
        pre.get(name) is None,
    ensures
        ({
            let requested = pre.request(first, name).request(second, name);
            let end = settle_all(requested, steps);
            &&& !requested.pending.contains_key(first)
            &&& forall|bytes: Seq<u8>, decoded: Result<T, ()>|
                #![trigger settle_spec(requested, OutcomeView::Load(first, bytes), decoded)]
                settle_spec(requested, OutcomeView::Load(first, bytes), decoded) == (
                    requested,
                    None::<EventView<T>>,
                )
            &&& end.get(name) matches Some(asset) ==> asset.path == second && decoded_from(
                steps,
                second,
                asset.data,
            )
        }),
{
    let once = pre.request(first, name);
    lemma_request_keeps_wf(pre, first, name);
    let requested = once.request(second, name);
    lemma_request_keeps_wf(once, second, name);
    lemma_only_source(requested, second, name, steps, Set::empty());
}

/// Where every pending request of `name` waits for `source`, and an asset
/// held under `name` comes from `source` with data in `known`, an asset held
/// under it after `steps` comes from `source` too, with data in `known` or
/// decoded by one of the steps.
proof fn lemma_only_source<T>(
    pre: RegistryModel<T>,
    source: Seq<char>,
    name: Seq<char>,
    steps: Seq<Settlement<T>>,
    known: Set<T>,
)
    requires
        pre.wf(),
        forall|p: Seq<char>| #[trigger]
            pre.pending.contains_key(p) && pre.pending[p] == name ==> p == source,
        pre.get(name) matches Some(asset) ==> asset.path == source && known.contains(asset.data),
    ensures
        settle_all(pre, steps).get(name) matches Some(asset) ==> asset.path == source && (
        known.contains(asset.data) || decoded_from(steps, source, asset.data)),
    decreases steps.len(),
{
    if steps.len() > 0 {
        let step = steps[0];
        let rest = steps.drop_first();
        let next = settle_spec(pre, step.outcome, step.decoded).0;
        lemma_settle_keeps_wf(pre, step.outcome, step.decoded);
        let fresh = Set::new(
            |data: T|
                step.outcome is Load && step.outcome.path() == source && step.decoded == Ok::<
                    T,
                    (),
                >(data),
        );
        let wider = known.union(fresh);
        lemma_only_source(next, source, name, rest, wider);
        let end = settle_all(pre, steps);
        assert(end == settle_all(next, rest));
        if end.get(name) is Some {
            let data = end.get(name)->0.data;
            if known.contains(data) {
            } else if fresh.contains(data) {
                assert(steps[0].decoded == Ok::<T, ()>(data));
            } else {
                let i = choose|i: int|
                    0 <= i < rest.len() && (#[trigger] rest[i]).outcome is Load
                        && rest[i].outcome.path() == source && rest[i].decoded == Ok::<T, ()>(
                        data,
                    );
                assert(steps[i + 1] == rest[i]);
            }
        }
    }
}

/// A registry in which nothing is pending takes no notice of outcomes:
/// whatever arrives, the registry stays as it is and nothing is reported.
pub proof fn lemma_idle_registry_ignores_outcomes<T>(
    pre: RegistryModel<T>,
    outcome: OutcomeView,
    decoded: Result<T, ()>,
)
    requires
        pre.wf(),
        pre.pending.len() == 0,
    ensures
        settle_spec(pre, outcome, decoded) == (pre, None::<EventView<T>>),
{
    assert(!pre.pending.dom().contains(outcome.path()));
}

/// The assets of one type: those decoded, by name, and the requests under way.
#[verifier::reject_recursive_types(T)]
pub struct TypedAssets<T> {
    loaded: StringHashMap<Rc<GGAsset<T>>>,
    pending: StringHashMap<String>,
    paths: StringHashMap<String>,
    completed: Ghost<nat>,
    loader: Box<dyn Loader>,
}

impl<T> View for TypedAssets<T> {
    type V = RegistryModel<T>;

    closed spec fn view(&self) -> RegistryModel<T> {
        RegistryModel {
            loaded: self.loaded@.map_values(|a: Rc<GGAsset<T>>| a@),
            pending: self.pending@.map_values(|n: String| n@),
            completed: self.completed@,
        }
    }
}

impl<T> TypedAssets<T> {
    /// The registry's invariant: its view is well formed, and the index from
    /// names to paths mirrors the pending requests.
    pub closed spec fn wf(&self) -> bool {
        &&& self@.wf()
        &&& forall|p: Seq<char>| #[trigger]
            self.pending@.contains_key(p) ==> self.paths@.contains_key(self.pending@[p]@)
                && self.paths@[self.pending@[p]@]@ == p
        &&& forall|n: Seq<char>| #[trigger]
            self.paths@.contains_key(n) ==> self.pending@.contains_key(self.paths@[n]@)
                && self.pending@[self.paths@[n]@]@ == n
    }

    /// Whether the registry's backend keeps the log of its requests.
    pub closed spec fn backend_logs(&self) -> bool {
        self.loader.keeps_log()
    }

    /// The paths that the registry's backend was asked for, in order, as
    /// far as the backend keeps that log.
    pub closed spec fn sent(&self) -> Seq<Seq<char>> {
        self.loader.requested()
    }

    /// How often the registry's backend was polled, as far as the backend
    /// keeps that log.
    pub closed spec fn polls(&self) -> nat {
        self.loader.polled()
    }

    /// A well-formed registry has a well-formed view.
    pub proof fn lemma_wf_view(&self)
        requires
            self.wf(),
        ensures
            self@.wf(),
    {
    }

    /// An empty registry that fetches through `loader`.
    pub fn new(loader: impl Loader) -> (r: Self)
        ensures
            r.wf(),
            r@ == RegistryModel::<T>::empty(),
    {
        let r = Self {
            loaded: StringHashMap::new(),
            pending: StringHashMap::new(),
            paths: StringHashMap::new(),
            completed: Ghost(0),
            loader: Box::new(loader),
        };
        assert(r@ =~= RegistryModel::<T>::empty());
        r
    }

    /// Requests `name` from `path`: the request is recorded as pending and the
    /// path is handed to the backend, once. A pending request of the same
    /// name from another path is superseded; its outcome will find nothing to
    /// settle.
    pub fn load(&mut self, path: &str, name: &str)
        requires
            old(self).wf(),
        ensures
            final(self).wf(),
            final(self)@ == old(self)@.request(path@, name@),
            final(self).backend_logs() == old(self).backend_logs(),
            old(self).backend_logs() ==> final(self).sent() == old(self).sent().push(path@),
            old(self).backend_logs() ==> final(self).polls() == old(self).polls(),
    {
        let earlier_path: Option<String> = match self.paths.get(name) {
            Some(p) => Some(p.clone()),
            None => None,
        };
        if let Some(p) = earlier_path {
            self.pending.remove(p.as_str());
        }
        let earlier_name: Option<String> = match self.pending.get(path) {
            Some(n) => Some(n.clone()),
            None => None,
        };
        if let Some(n) = earlier_name {
            self.paths.remove(n.as_str());
        }
        self.pending.insert(path.to_owned(), name.to_owned());
        self.paths.insert(name.to_owned(), path.to_owned());
        proof {
            assert(old(self)@.pending.dom() =~= old(self).pending@.dom());
            assert(self@.pending.dom() =~= self.pending@.dom());
            assert(self@ =~= old(self)@.request(path@, name@));
        }
        self.loader.request(path.to_owned());
    }

    /// The decoded asset known as `name`, once its load has succeeded.
    pub fn get(&self, name: &str) -> (r: Option<Rc<GGAsset<T>>>)
        requires
            self.wf(),
        ensures
            match r {
                Some(asset) => self@.get(name@) == Some(asset@),
                None => self@.get(name@) is None,
            },
    {
        match self.loaded.get(name) {
            Some(asset) => Some(asset.clone()),
            None => None,
        }
    }
    /// Removes the request for `path`, if one is pending, and gives its name.
    fn take_pending(&mut self, path: &str) -> (r: Option<String>)
        requires
            old(self).wf(),
        ensures
            final(self).wf(),
            final(self)@ == old(self)@.fail(path@),
            final(self).backend_logs() == old(self).backend_logs(),
            final(self).sent() == old(self).sent(),
            final(self).polls() == old(self).polls(),
            match r {
                Some(name) => old(self)@.pending.contains_key(path@) && old(self)@.pending[path@]
                    == name@,
                None => !old(self)@.pending.contains_key(path@),
            },
    {
        let found: Option<String> = match self.pending.get(path) {
            Some(n) => Some(n.clone()),
            None => None,
        };
        match found {
            Some(name) => {
                self.pending.remove(path);
                self.paths.remove(name.as_str());
                proof {
                    assert(old(self)@.pending.dom() =~= old(self).pending@.dom());
                    assert(self@.pending.dom() =~= self.pending@.dom());
                    assert(self@ =~= old(self)@.fail(path@));
                }
                Some(name)
            },
            None => {
                proof {
                    assert(self@ =~= old(self)@.fail(path@));
                }
                None
            },
        }
    }

    /// Settles one backend outcome. See [`settle_spec`] for what becomes of
    /// the registry and which event is reported; `f` decodes the bytes of a
    /// successful transport.
    pub fn settle<F>(&mut self, outcome: LoaderEvent, f: F) -> (r: Option<AssetEvent<T>>) where
        F: Fn(Load) -> Result<T, ()>,

        requires
            old(self).wf(),
            forall|l: Load| handed(old(self)@, outcome@) == Some(l@) ==> call_requires(f, (l,)),
        ensures
            final(self).wf(),
            settled(old(self)@, outcome@, f, final(self)@, event_view(r)),
            final(self).backend_logs() == old(self).backend_logs(),
            final(self).sent() == old(self).sent(),
            final(self).polls() == old(self).polls(),
    {
        match outcome {
            LoaderEvent::Load(path, data) => {
                match self.take_pending(path.as_str()) {
                    Some(name) => {
                        let load = Load { name: name.clone(), path: path.clone(), data };
                        let ghost handed_load = load;
                        assert(handed(old(self)@, outcome@) == Some(load@));
                        let decoded = f(load);
                        match decoded {
                            Ok(t) => {
                                let asset = Rc::new(
                                    GGAsset { name: name.clone(), path, data: t },
                                );
                                self.loaded.insert(name, asset.clone());
                                proof {
                                    self.completed@ = self.completed@ + 1;
                                    assert(self@ =~= old(self)@.store(path@, t));
                                    assert(call_ensures(f, (handed_load,), decoded));
                                }
                                Some(AssetEvent::Loaded(asset))
                            },
                            Err(e) => {
                                proof {
                                    assert(call_ensures(f, (handed_load,), decoded));
                                }
                                Some(AssetEvent::LoadFailed { name, path })
                            },
                        }
                    },
                    None => {
                        assert(self@ =~= old(self)@);
                        None
                    },
                }
            },
            LoaderEvent::LoadFailed(path) => {
                match self.take_pending(path.as_str()) {
                    Some(name) => Some(AssetEvent::LoadFailed { name, path }),
                    None => {
                        assert(self@ =~= old(self)@);
                        None
                    },
                }
            },
        }
    }

    /// Asks the backend once for a finished outcome and settles it with `f`.
    /// The backend is polled once and asked for no path.
    ///
    /// Whatever the backend hands out, the registry either stays as it was and
    /// reports nothing, or is settled by one outcome as [`settled`] says. With
    /// nothing pending no outcome can change the registry or be reported.
    pub fn poll<F>(&mut self, f: F) -> (r: Option<AssetEvent<T>>) where
        F: Fn(Load) -> Result<T, ()>,

        requires
            old(self).wf(),
            forall|l: Load|
                old(self)@.pending.contains_key(l.path@) && old(self)@.pending[l.path@] == l.name@
                    ==> call_requires(f, (l,)),
        ensures
            final(self).wf(),
            (final(self)@ == old(self)@ && r is None) || exists|outcome: OutcomeView|
                #[trigger] settled(old(self)@, outcome, f, final(self)@, event_view(r)),
            old(self)@.pending.len() == 0 ==> final(self)@ == old(self)@ && r is None,
            final(self).backend_logs() == old(self).backend_logs(),
            old(self).backend_logs() ==> final(self).sent() == old(self).sent(),
            old(self).backend_logs() ==> final(self).polls() == old(self).polls() + 1,
    {
        match self.loader.poll() {
            Some(outcome) => {
                let ghost seen = outcome@;
                let r = self.settle(outcome, f);
                proof {
                    assert(settled(old(self)@, seen, f, self@, event_view(r)));
                    if old(self)@.pending.len() == 0 {
                        assert(!old(self)@.pending.dom().contains(seen.path()));
                    }
                }
                r
            },
            None => None,
        }
    }
}

} // verus!
