//! The asset store: one registry for each kind of asset, made when the kind
//! is first requested, and the counters that report progress.

use crate::asset::{AssetEvent, AssetView, EventView, GGAsset, Load};
use crate::atlas::GAtlas;
use crate::decode::{decode_atlas, decode_text};
use crate::loader::{Loader, OutcomeView};
use crate::registry::{
    lemma_request_keeps_wf, lemma_settled_is_a_settlement, lemma_settlement_leaves_name_alone,
    settle_spec, settled, RegistryModel, TypedAssets,
};
use kira::sound::static_sound::StaticSoundData;
use std::marker::PhantomData;
use std::rc::Rc;
use vstd::prelude::*;

verus! {

/// What a store holds, as plain values: the registry of each kind, if that
/// kind was requested yet, and the two counters.
#[verifier::ext_equal]
pub struct StoreModel {
    pub texts: Option<RegistryModel<String>>,
    pub maps: Option<RegistryModel<tiled::Map>>,
    pub atlases: Option<RegistryModel<GAtlas>>,
    pub sounds: Option<RegistryModel<StaticSoundData>>,
    pub total: nat,
    pub pending: nat,
}

/// The registry in a slot, or an empty one where the kind was never requested.
pub open spec fn or_empty<T>(slot: Option<RegistryModel<T>>) -> RegistryModel<T> {
    match slot {
        Some(registry) => registry,
        None => RegistryModel::empty(),
    }
}

/// How many requests are under way in a slot.
pub open spec fn waiting<T>(slot: Option<RegistryModel<T>>) -> nat {
    or_empty(slot).pending.len()
}

/// How many loads have succeeded in a slot.
pub open spec fn succeeded<T>(slot: Option<RegistryModel<T>>) -> nat {
    or_empty(slot).completed
}

/// How many assets a slot holds.
pub open spec fn held<T>(slot: Option<RegistryModel<T>>) -> nat {
    or_empty(slot).loaded.len()
}

impl StoreModel {
    /// A store in which nothing was requested yet.
    pub open spec fn empty() -> Self {
        StoreModel { texts: None, maps: None, atlases: None, sounds: None, total: 0, pending: 0 }
    }

    /// How many requests are under way in all registries together.
    pub open spec fn waiting(self) -> nat {
        waiting(self.texts) + waiting(self.maps) + waiting(self.atlases) + waiting(self.sounds)
    }

    /// How many loads have succeeded in all registries together.
    pub open spec fn succeeded(self) -> nat {
        succeeded(self.texts) + succeeded(self.maps) + succeeded(self.atlases) + succeeded(
            self.sounds,
        )
    }

    /// How many assets all registries hold together.
    pub open spec fn held(self) -> nat {
        held(self.texts) + held(self.maps) + held(self.atlases) + held(self.sounds)
    }

    /// The number that `loaded` reports.
    pub open spec fn loaded(self) -> int {
        self.total - self.pending
    }

    /// The counters account for the registries: every load that succeeded
    /// took one off the pending count, and every request under way is still
    /// counted as pending.
    pub open spec fn wf(self) -> bool {
        &&& or_empty(self.texts).wf()
        &&& or_empty(self.maps).wf()
        &&& or_empty(self.atlases).wf()
        &&& or_empty(self.sounds).wf()
        &&& self.waiting() <= self.pending <= self.total
        &&& self.total - self.pending == self.succeeded()
    }

    /// The store after one more request was counted.
    pub open spec fn counted(self) -> Self {
        StoreModel { total: self.total + 1, pending: self.pending + 1, ..self }
    }

    /// The store after `name` was requested from `path` as an asset of kind `T`.
    pub open spec fn requested<T: AssetKind>(self, path: Seq<char>, name: Seq<char>) -> Self {
        T::with_slot(self, Some(or_empty(T::slot(self)).request(path, name))).counted()
    }

    /// The asset of kind `T` that `get` hands out for `name`.
    pub open spec fn get<T: AssetKind>(self, name: Seq<char>) -> Option<AssetView<T>> {
        or_empty(T::slot(self)).get(name)
    }
}

/// In a well-formed store the counters add up: the loads that succeeded and
/// the requests counted as pending make the total, and no more assets are
/// held than loads have succeeded. The requests under way are among those
/// counted as pending; the others that are counted so have failed or were
/// superseded.
pub proof fn lemma_store_counters(store: StoreModel)
    requires
        store.wf(),
    ensures
        store.loaded() + store.pending == store.total,
        store.loaded() == store.succeeded(),
        store.held() <= store.loaded(),
        store.waiting() <= store.pending,
{
}

/// A request is counted once as made and once as pending, and changes the
/// registry of its kind only.
pub proof fn lemma_request_is_counted<T: AssetKind>(
    store: StoreModel,
    path: Seq<char>,
    name: Seq<char>,
)
    ensures
        store.requested::<T>(path, name).total == store.total + 1,
        store.requested::<T>(path, name).pending == store.pending + 1,
        T::slot(store.requested::<T>(path, name)) == Some(
            or_empty(T::slot(store)).request(path, name),
        ),
{
    let registry = Some(or_empty(T::slot(store)).request(path, name));
    T::lemma_slot(store, registry);
    T::lemma_slot(T::with_slot(store, registry), registry);
}

/// A request makes nothing retrievable and drops nothing: what `get` answers
/// for the names of the kind requested is the same before and after.
pub proof fn lemma_request_holds_nothing_new<T: AssetKind>(
    store: StoreModel,
    path: Seq<char>,
    name: Seq<char>,
    other: Seq<char>,
)
    ensures
        store.requested::<T>(path, name).get::<T>(other) == store.get::<T>(other),
{
    lemma_request_is_counted::<T>(store, path, name);
}

/// What is known of the calls that one backend got: whether the backend
/// keeps the log of them, the paths it was asked for, and how often it was
/// polled.
pub struct BackendLog {
    pub kept: bool,
    pub sent: Seq<Seq<char>>,
    pub polled: nat,
}

impl BackendLog {
    /// The log of a registry that does not exist yet.
    pub open spec fn none() -> Self {
        BackendLog { kept: false, sent: Seq::empty(), polled: 0 }
    }

    /// `self` comes after `before` by one request of `path` and no poll: a
    /// log that was kept has grown by the path, and a log that is kept ends
    /// with it.
    pub open spec fn asked_after(self, before: BackendLog, path: Seq<char>) -> bool {
        &&& before.kept ==> self.kept && self.sent == before.sent.push(path) && self.polled
            == before.polled
        &&& self.kept ==> self.sent.len() > 0 && self.sent.last() == path
    }

    /// `self` comes after `before` by one poll and no request.
    pub open spec fn polled_after(self, before: BackendLog) -> bool {
        &&& self.kept == before.kept
        &&& before.kept ==> self.sent == before.sent && self.polled == before.polled + 1
    }
}

/// What is known of the calls that the backends of a store got, kind by kind.
pub struct StoreLog {
    pub texts: BackendLog,
    pub maps: BackendLog,
    pub atlases: BackendLog,
    pub sounds: BackendLog,
}

impl StoreLog {
    /// `self` comes after `before` by one poll of every backend there is,
    /// and no request to any.
    pub open spec fn polled_after(self, before: StoreLog) -> bool {
        &&& self.texts.polled_after(before.texts)
        &&& self.maps.polled_after(before.maps)
        &&& self.atlases.polled_after(before.atlases)
        &&& self.sounds.polled_after(before.sounds)
    }
}

/// What one poll can make of a slot with the decode function `f`: a kind
/// never requested stays so; a registry stays as it is or is settled by one
/// outcome.
pub open spec fn slot_polled<T, F: Fn(Load) -> Result<T, ()>>(
    pre: Option<RegistryModel<T>>,
    post: Option<RegistryModel<T>>,
    f: F,
) -> bool {
    match (pre, post) {
        (None, None) => true,
        (Some(before), Some(after)) => after == before || exists|
            outcome: OutcomeView,
            event: Option<EventView<T>>,
        | #[trigger] settled(before, outcome, f, after, event),
        _ => false,
    }
}

/// What one poll of every registry can make of a store: each registry stays
/// or is settled by one outcome, decoded as its kind is; the total stays; and
/// the pending count goes down by one for every load that succeeded. A store
/// with no request under way stays as it is. Texts and atlases are decoded
/// by the library, maps by `decode_map` and sounds by `decode_sound`.
pub open spec fn store_polled<M, S>(
    pre: StoreModel,
    post: StoreModel,
    decode_map: M,
    decode_sound: S,
) -> bool where M: Fn(Load) -> Result<tiled::Map, ()>, S: Fn(Load) -> Result<StaticSoundData, ()> {
    &&& post.total == pre.total
    &&& slot_polled(pre.texts, post.texts, decode_text)
    &&& slot_polled(pre.maps, post.maps, decode_map)
    &&& slot_polled(pre.atlases, post.atlases, decode_atlas)
    &&& slot_polled(pre.sounds, post.sounds, decode_sound)
    &&& post.pending + post.succeeded() == pre.pending + pre.succeeded()
    &&& pre.waiting() == 0 ==> post == pre
}

/// What one poll can make of a slot, whatever the decode function is: a kind
/// never requested stays so; a registry stays as it is or is settled once.
pub open spec fn slot_stepped<T>(
    pre: Option<RegistryModel<T>>,
    post: Option<RegistryModel<T>>,
) -> bool {
    match (pre, post) {
        (None, None) => true,
        (Some(before), Some(after)) => after == before || exists|
            outcome: OutcomeView,
            decoded: Result<T, ()>,
        | after == (#[trigger] settle_spec(before, outcome, decoded)).0,
        _ => false,
    }
}

/// A slot that was polled has stayed or was settled once.
pub proof fn lemma_polled_slot_stepped<T, F: Fn(Load) -> Result<T, ()>>(
    pre: Option<RegistryModel<T>>,
    post: Option<RegistryModel<T>>,
    f: F,
)
    requires
        slot_polled(pre, post, f),
    ensures
        slot_stepped(pre, post),
{
    if pre is Some && post is Some && post->0 != pre->0 {
        let (outcome, event) = choose|outcome: OutcomeView, event: Option<EventView<T>>| #[trigger]
            settled(pre->0, outcome, f, post->0, event);
        lemma_settled_is_a_settlement(pre->0, outcome, f, post->0, event);
        let decoded = choose|decoded: Result<T, ()>|
            (post->0, event) == #[trigger] settle_spec(pre->0, outcome, decoded);
        assert(post->0 == settle_spec(pre->0, outcome, decoded).0);
    }
}

/// An asset that is neither held nor waited for is not made by a poll: a
/// name of kind `T` that is not held and that no request waits for, as after
/// a load that failed, is not held after a poll of the store either, and no
/// request waits for it. So `get` answers none for it, however often the
/// store is polled, until it is requested again.
pub proof fn lemma_poll_makes_no_asset<T: AssetKind, M, S>(
    pre: StoreModel,
    post: StoreModel,
    decode_map: M,
    decode_sound: S,
    name: Seq<char>,
) where M: Fn(Load) -> Result<tiled::Map, ()>, S: Fn(Load) -> Result<StaticSoundData, ()>
    requires
        pre.wf(),
        store_polled(pre, post, decode_map, decode_sound),
        pre.get::<T>(name) is None,
        !or_empty(T::slot(pre)).awaits(name),
    ensures
        post.get::<T>(name) is None,
        !or_empty(T::slot(post)).awaits(name),
{
    T::lemma_polled(pre, post, decode_map, decode_sound);
    let before = T::slot(pre);
    let after = T::slot(post);
    if before is Some && after is Some && after->0 != before->0 {
        let (outcome, decoded) = choose|outcome: OutcomeView, decoded: Result<T, ()>|
            after->0 == (#[trigger] settle_spec(before->0, outcome, decoded)).0;
        lemma_settlement_leaves_name_alone(before->0, outcome, decoded, name);
    }
}

/// A kind of asset that the store keeps a registry for.
pub trait AssetKind: Sized {
    /// The registry of this kind in a store.
    spec fn slot(store: StoreModel) -> Option<RegistryModel<Self>>;

    /// The store with the registry of this kind replaced.
    spec fn with_slot(store: StoreModel, registry: Option<RegistryModel<Self>>) -> StoreModel;

    /// Replacing the registry of this kind puts that registry in its slot
    /// and leaves the counters alone; counting leaves the registry alone.
    proof fn lemma_slot(store: StoreModel, registry: Option<RegistryModel<Self>>)
        ensures
            Self::slot(Self::with_slot(store, registry)) == registry,
            Self::with_slot(store, registry).total == store.total,
            Self::with_slot(store, registry).pending == store.pending,
            Self::slot(store.counted()) == Self::slot(store),
    ;

    /// The registry of this kind in a well-formed store is well formed, and
    /// a poll of the store leaves it as it is or settles it once.
    proof fn lemma_polled<M, S>(pre: StoreModel, post: StoreModel, decode_map: M, decode_sound: S) where
        M: Fn(Load) -> Result<tiled::Map, ()>,
        S: Fn(Load) -> Result<StaticSoundData, ()>,

        requires
            pre.wf(),
            store_polled(pre, post, decode_map, decode_sound),
        ensures
            or_empty(Self::slot(pre)).wf(),
            slot_stepped(Self::slot(pre), Self::slot(post)),
    ;

    /// The log of this kind's backend among the logs of a store.
    spec fn log(asked: StoreLog) -> BackendLog;

    /// The logs of a store with the log of this kind's backend replaced.
    spec fn with_log(asked: StoreLog, log: BackendLog) -> StoreLog;

    /// Requests `name` from `path` in the registry of this kind, which is
    /// made first where the kind was never requested, and counts the request.
    /// The path is handed to the backend of that registry, once, and to no other.
    fn request_in<L: Loader + Default>(store: &mut GAssets<L>, path: &str, name: &str)
        requires
            old(store).wf(),
            old(store)@.total < usize::MAX,
        ensures
            final(store).wf(),
            Self::log(final(store).asked()).asked_after(Self::log(old(store).asked()), path@),
            final(store).asked() == Self::with_log(
                old(store).asked(),
                Self::log(final(store).asked()),
            ),
            final(store)@ == Self::with_slot(
                old(store)@,
                Some(or_empty(Self::slot(old(store)@)).request(path@, name@)),
            ).counted(),
    ;

    /// The asset of this kind known as `name`.
    fn find_in<L: Loader + Default>(store: &GAssets<L>, name: &str) -> (r: Option<
        Rc<GGAsset<Self>>,
    >)
        requires
            store.wf(),
        ensures
            match r {
                Some(asset) => or_empty(Self::slot(store@)).get(name@) == Some(asset@),
                None => or_empty(Self::slot(store@)).get(name@) is None,
            },
    ;
}

/// The registries of all asset kinds, and the counters of requests made and
/// requests still pending. `L` is the backend that new registries fetch through.
pub struct GAssets<L: Loader + Default> {
    texts: Option<TypedAssets<String>>,
    maps: Option<TypedAssets<tiled::Map>>,
    atlases: Option<TypedAssets<GAtlas>>,
    sounds: Option<TypedAssets<StaticSoundData>>,
    total: usize,
    pending: usize,
    backend: PhantomData<L>,
}

/// The view of a slot.
pub open spec fn slot_view<T>(slot: Option<TypedAssets<T>>) -> Option<RegistryModel<T>> {
    match slot {
        Some(registry) => Some(registry@),
        None => None,
    }
}

/// A slot holds a well-formed registry or none.
pub open spec fn slot_wf<T>(slot: Option<TypedAssets<T>>) -> bool {
    match slot {
        Some(registry) => registry.wf(),
        None => true,
    }
}

impl<L: Loader + Default> View for GAssets<L> {
    type V = StoreModel;

    closed spec fn view(&self) -> StoreModel {
        StoreModel {
            texts: slot_view(self.texts),
            maps: slot_view(self.maps),
            atlases: slot_view(self.atlases),
            sounds: slot_view(self.sounds),
            total: self.total as nat,
            pending: self.pending as nat,
        }
    }
}

/// What is known of the calls that the backend of a slot's registry got.
pub open spec fn slot_log<T>(slot: Option<TypedAssets<T>>) -> BackendLog {
    match slot {
        Some(registry) => BackendLog {
            kept: registry.backend_logs(),
            sent: registry.sent(),
            polled: registry.polls(),
        },
        None => BackendLog::none(),
    }
}

/// Requests `name` from `path` in the registry of a slot; an empty slot gets
/// a registry over a backend of its own first.
fn request_slot<T, L: Loader + Default>(slot: &mut Option<TypedAssets<T>>, path: &str, name: &str)
    requires
        slot_wf(*old(slot)),
    ensures
        slot_wf(*final(slot)),
        slot_view(*final(slot)) == Some(or_empty(slot_view(*old(slot))).request(path@, name@)),
        slot_log(*final(slot)).asked_after(slot_log(*old(slot)), path@),
{
    let mut registry = match slot.take() {
        Some(registry) => registry,
        None => TypedAssets::new(L::default()),
    };
    registry.load(path, name);
    *slot = Some(registry);
}

/// The asset known as `name` in the registry of a slot.
fn find_slot<T>(slot: &Option<TypedAssets<T>>, name: &str) -> (r: Option<Rc<GGAsset<T>>>)
    requires
        slot_wf(*slot),
    ensures
        match r {
            Some(asset) => or_empty(slot_view(*slot)).get(name@) == Some(asset@),
            None => or_empty(slot_view(*slot)).get(name@) is None,
        },
{
    match slot {
        Some(registry) => registry.get(name),
        None => None,
    }
}

/// Polls the registry of a slot once with the decode function `f`, and says
/// whether an asset was loaded.
fn poll_slot<T, F>(slot: &mut Option<TypedAssets<T>>, f: F) -> (loaded: bool) where
    F: Fn(Load) -> Result<T, ()>,

    requires
        slot_wf(*old(slot)),
        forall|l: Load| call_requires(f, (l,)),
    ensures
        slot_wf(*final(slot)),
        slot_polled(slot_view(*old(slot)), slot_view(*final(slot)), f),
        or_empty(slot_view(*final(slot))).wf(),
        succeeded(slot_view(*final(slot))) == succeeded(slot_view(*old(slot))) + if loaded {
            1nat
        } else {
            0nat
        },
        waiting(slot_view(*final(slot))) + (if loaded {
            1nat
        } else {
            0nat
        }) <= waiting(slot_view(*old(slot))),
        waiting(slot_view(*old(slot))) == 0 ==> slot_view(*final(slot)) == slot_view(*old(slot)),
        slot_log(*final(slot)).polled_after(slot_log(*old(slot))),
{
    match slot.take() {
        Some(mut registry) => {
            proof {
                registry.lemma_wf_view();
            }
            let event = registry.poll(f);
            proof {
                registry.lemma_wf_view();
            }
            let loaded = match event {
                Some(AssetEvent::Loaded(_)) => true,
                _ => false,
            };
            *slot = Some(registry);
            loaded
        },
        None => false,
    }
}

impl AssetKind for String {
    open spec fn slot(store: StoreModel) -> Option<RegistryModel<String>> {
        store.texts
    }

    open spec fn with_slot(store: StoreModel, registry: Option<RegistryModel<String>>) -> StoreModel {
        StoreModel { texts: registry, ..store }
    }

    proof fn lemma_slot(store: StoreModel, registry: Option<RegistryModel<Self>>) {
    }

    proof fn lemma_polled<M, S>(pre: StoreModel, post: StoreModel, decode_map: M, decode_sound: S) where
        M: Fn(Load) -> Result<tiled::Map, ()>,
        S: Fn(Load) -> Result<StaticSoundData, ()>,
     {
        lemma_polled_slot_stepped(pre.texts, post.texts, decode_text);
    }

    open spec fn log(asked: StoreLog) -> BackendLog {
        asked.texts
    }

    open spec fn with_log(asked: StoreLog, log: BackendLog) -> StoreLog {
        StoreLog { texts: log, ..asked }
    }

    fn request_in<L: Loader + Default>(store: &mut GAssets<L>, path: &str, name: &str) {
        proof {
            store.lemma_slots();
            assert(RegistryModel::<Self>::empty().wf());
            lemma_request_keeps_wf(or_empty(store@.texts), path@, name@);
        }
        request_slot::<String, L>(&mut store.texts, path, name);
        store.count();
    }

    fn find_in<L: Loader + Default>(store: &GAssets<L>, name: &str) -> (r: Option<
        Rc<GGAsset<String>>,
    >) {
        find_slot(&store.texts, name)
    }
}

impl AssetKind for tiled::Map {
    open spec fn slot(store: StoreModel) -> Option<RegistryModel<tiled::Map>> {
        store.maps
    }

    open spec fn with_slot(store: StoreModel, registry: Option<RegistryModel<tiled::Map>>) -> StoreModel {
        StoreModel { maps: registry, ..store }
    }

    proof fn lemma_slot(store: StoreModel, registry: Option<RegistryModel<Self>>) {
    }

    proof fn lemma_polled<M, S>(pre: StoreModel, post: StoreModel, decode_map: M, decode_sound: S) where
        M: Fn(Load) -> Result<tiled::Map, ()>,
        S: Fn(Load) -> Result<StaticSoundData, ()>,
     {
        lemma_polled_slot_stepped(pre.maps, post.maps, decode_map);
    }

    open spec fn log(asked: StoreLog) -> BackendLog {
        asked.maps
    }

    open spec fn with_log(asked: StoreLog, log: BackendLog) -> StoreLog {
        StoreLog { maps: log, ..asked }
    }

    fn request_in<L: Loader + Default>(store: &mut GAssets<L>, path: &str, name: &str) {
        proof {
            store.lemma_slots();
            assert(RegistryModel::<Self>::empty().wf());
            lemma_request_keeps_wf(or_empty(store@.maps), path@, name@);
        }
        request_slot::<tiled::Map, L>(&mut store.maps, path, name);
        store.count();
    }

    fn find_in<L: Loader + Default>(store: &GAssets<L>, name: &str) -> (r: Option<
        Rc<GGAsset<tiled::Map>>,
    >) {
        find_slot(&store.maps, name)
    }
}

impl AssetKind for GAtlas {
    open spec fn slot(store: StoreModel) -> Option<RegistryModel<GAtlas>> {
        store.atlases
    }

    open spec fn with_slot(store: StoreModel, registry: Option<RegistryModel<GAtlas>>) -> StoreModel {
        StoreModel { atlases: registry, ..store }
    }

    proof fn lemma_slot(store: StoreModel, registry: Option<RegistryModel<Self>>) {
    }

    proof fn lemma_polled<M, S>(pre: StoreModel, post: StoreModel, decode_map: M, decode_sound: S) where
        M: Fn(Load) -> Result<tiled::Map, ()>,
        S: Fn(Load) -> Result<StaticSoundData, ()>,
     {
        lemma_polled_slot_stepped(pre.atlases, post.atlases, decode_atlas);
    }

    open spec fn log(asked: StoreLog) -> BackendLog {
        asked.atlases
    }

    open spec fn with_log(asked: StoreLog, log: BackendLog) -> StoreLog {
        StoreLog { atlases: log, ..asked }
    }

    fn request_in<L: Loader + Default>(store: &mut GAssets<L>, path: &str, name: &str) {
        proof {
            store.lemma_slots();
            assert(RegistryModel::<Self>::empty().wf());
            lemma_request_keeps_wf(or_empty(store@.atlases), path@, name@);
        }
        request_slot::<GAtlas, L>(&mut store.atlases, path, name);
        store.count();
    }

    fn find_in<L: Loader + Default>(store: &GAssets<L>, name: &str) -> (r: Option<
        Rc<GGAsset<GAtlas>>,
    >) {
        find_slot(&store.atlases, name)
    }
}

impl AssetKind for StaticSoundData {
    open spec fn slot(store: StoreModel) -> Option<RegistryModel<StaticSoundData>> {
        store.sounds
    }

    open spec fn with_slot(
        store: StoreModel,
        registry: Option<RegistryModel<StaticSoundData>>,
    ) -> StoreModel {
        StoreModel { sounds: registry, ..store }
    }

    proof fn lemma_slot(store: StoreModel, registry: Option<RegistryModel<Self>>) {
    }

    proof fn lemma_polled<M, S>(pre: StoreModel, post: StoreModel, decode_map: M, decode_sound: S) where
        M: Fn(Load) -> Result<tiled::Map, ()>,
        S: Fn(Load) -> Result<StaticSoundData, ()>,
     {
        lemma_polled_slot_stepped(pre.sounds, post.sounds, decode_sound);
    }

    open spec fn log(asked: StoreLog) -> BackendLog {
        asked.sounds
    }

    open spec fn with_log(asked: StoreLog, log: BackendLog) -> StoreLog {
        StoreLog { sounds: log, ..asked }
    }

    fn request_in<L: Loader + Default>(store: &mut GAssets<L>, path: &str, name: &str) {
        proof {
            store.lemma_slots();
            assert(RegistryModel::<Self>::empty().wf());
            lemma_request_keeps_wf(or_empty(store@.sounds), path@, name@);
        }
        request_slot::<StaticSoundData, L>(&mut store.sounds, path, name);
        store.count();
    }

    fn find_in<L: Loader + Default>(store: &GAssets<L>, name: &str) -> (r: Option<
        Rc<GGAsset<StaticSoundData>>,
    >) {
        find_slot(&store.sounds, name)
    }
}

impl<L: Loader + Default> GAssets<L> {
    /// The store's invariant: every registry is well formed and the counters
    /// account for them, as [`StoreModel::wf`] says.
    pub closed spec fn wf(&self) -> bool {
        &&& slot_wf(self.texts)
        &&& slot_wf(self.maps)
        &&& slot_wf(self.atlases)
        &&& slot_wf(self.sounds)
        &&& self@.wf()
    }

    /// What is known of the calls that the backends of the registries got.
    pub closed spec fn asked(&self) -> StoreLog {
        StoreLog {
            texts: slot_log(self.texts),
            maps: slot_log(self.maps),
            atlases: slot_log(self.atlases),
            sounds: slot_log(self.sounds),
        }
    }

    /// A well-formed store has a well-formed view.
    pub proof fn lemma_wf_view(&self)
        requires
            self.wf(),
        ensures
            self@.wf(),
    {
    }

    /// The slots of a well-formed store hold well-formed registries.
    proof fn lemma_slots(&self)
        requires
            self.wf(),
        ensures
            slot_wf(self.texts),
            slot_wf(self.maps),
            slot_wf(self.atlases),
            slot_wf(self.sounds),
            self@.wf(),
            self@.texts == slot_view(self.texts),
            self@.maps == slot_view(self.maps),
            self@.atlases == slot_view(self.atlases),
            self@.sounds == slot_view(self.sounds),
            self@.total == self.total,
            self@.pending == self.pending,
    {
    }

    /// A store in which nothing was requested yet.
    pub fn new() -> (r: Self)
        ensures
            r.wf(),
            r@ == StoreModel::empty(),
    {
        GAssets {
            texts: None,
            maps: None,
            atlases: None,
            sounds: None,
            total: 0,
            pending: 0,
            backend: PhantomData,
        }
    }

    /// Counts one request more, as made and as pending.
    fn count(&mut self)
        requires
            old(self).total < usize::MAX,
            old(self).pending <= old(self).total,
        ensures
            final(self).total == old(self).total + 1,
            final(self).pending == old(self).pending + 1,
            final(self).texts == old(self).texts,
            final(self).maps == old(self).maps,
            final(self).atlases == old(self).atlases,
            final(self).sounds == old(self).sounds,
            final(self).asked() == old(self).asked(),
    {
        self.pending += 1;
        self.total += 1;
    }

    /// Requests the asset `name` of kind `T` from `path`. The registry of `T`
    /// is made on the first request of that kind. Its backend is handed the
    /// path, once, and no other backend is asked. Every call counts as one
    /// request made and one pending, also for a name requested before.
    pub fn load<T: AssetKind>(&mut self, path: &str, name: &str)
        requires
            old(self).wf(),
            old(self)@.total < usize::MAX,
        ensures
            final(self).wf(),
            final(self)@ == old(self)@.requested::<T>(path@, name@),
            T::log(final(self).asked()).asked_after(T::log(old(self).asked()), path@),
            final(self).asked() == T::with_log(old(self).asked(), T::log(final(self).asked())),
    {
        T::request_in(self, path, name);
    }

    /// The decoded asset of kind `T` known as `name`; none where the kind was
    /// never requested or the name is unknown or still pending.
    pub fn get<T: AssetKind>(&self, name: &str) -> (r: Option<Rc<GGAsset<T>>>)
        requires
            self.wf(),
        ensures
            match r {
                Some(asset) => self@.get::<T>(name@) == Some(asset@),
                None => self@.get::<T>(name@) is None,
            },
    {
        T::find_in(self, name)
    }

    /// Polls every registry once: the backend of each registry there is gets
    /// one poll and no request. Each registry that loads an asset takes one
    /// off the pending count; a failed load takes nothing off. The total stays.
    ///
    /// Texts and atlases are decoded by the library. Tile maps and sounds
    /// are decoded by `decode_map` and `decode_sound`, which the caller
    /// brings: their decoders are not the library's to vouch for.
    pub fn poll<M, S>(&mut self, decode_map: M, decode_sound: S) where
        M: Fn(Load) -> Result<tiled::Map, ()>,
        S: Fn(Load) -> Result<StaticSoundData, ()>,

        requires
            old(self).wf(),
            forall|l: Load| call_requires(decode_map, (l,)),
            forall|l: Load| call_requires(decode_sound, (l,)),
        ensures
            final(self).wf(),
            store_polled(old(self)@, final(self)@, decode_map, decode_sound),
            final(self)@.loaded() + final(self)@.pending == final(self)@.total,
            final(self).asked().polled_after(old(self).asked()),
    {
        proof {
            self.lemma_slots();
        }
        if poll_slot(&mut self.texts, decode_text) {
            self.pending -= 1;
        }
        if poll_slot(&mut self.maps, decode_map) {
            self.pending -= 1;
        }
        if poll_slot(&mut self.atlases, decode_atlas) {
            self.pending -= 1;
        }
        if poll_slot(&mut self.sounds, decode_sound) {
            self.pending -= 1;
        }
    }

    /// How many requests are counted as pending: those made less those that
    /// loaded an asset.
    pub fn pending(&self) -> (r: usize)
        ensures
            r == self@.pending,
    {
        self.pending
    }

    /// How many requests were made.
    pub fn total(&self) -> (r: usize)
        ensures
            r == self@.total,
    {
        self.total
    }

    /// How many requests loaded an asset.
    pub fn loaded(&self) -> (r: usize)
        requires
            self.wf(),
        ensures
            r == self@.loaded(),
            r + self@.pending == self@.total,
            r == self@.succeeded(),
    {
        self.total - self.pending
    }
}

impl<L: Loader + Default> Default for GAssets<L> {
    fn default() -> (r: Self)
        ensures
            r.wf(),
            r@ == StoreModel::empty(),
    {
        GAssets::new()
    }
}

} // verus!
