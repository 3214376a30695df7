//! The frame lifecycle: the application is set up once, after the first
//! qualifying input, and updated every frame from then on.

use crate::loader::Loader;
use crate::asset::Load;
use crate::store::{store_polled, GAssets};
use kira::sound::static_sound::StaticSoundData;
use vstd::prelude::*;

verus! {

/// Where the lifecycle stands.
#[derive(Clone, Copy, PartialEq, Eq, Structural, Debug)]
pub enum GGEngineState {
    /// Waiting for a first input; no application code runs.
    Preinit,
    /// The input was seen; the next frame sets the application up.
    Init,
    /// The application is set up and updated every frame.
    Postinit,
}

/// An input event of one frame, by its kind.
#[derive(Clone, Copy, PartialEq, Eq, Structural, Debug)]
pub enum InputEvent {
    Key,
    PointerButton,
    Touch,
    Other,
}

/// What the host of the lifecycle does with a frame.
#[derive(Clone, Copy, PartialEq, Eq, Structural, Debug)]
pub enum FrameAction {
    /// Show the prompt that asks for an input.
    Prompt,
    /// Show the prompt and open the audio output anew: an input was seen.
    Unlock,
    /// Run the application's setup.
    Init,
    /// Run the application's update with the time that has passed, in nanoseconds.
    Update { dt: u64 },
}

/// Whether an input event lets the lifecycle leave its first state.
pub open spec fn qualifies(event: InputEvent) -> bool {
    event is Key || event is PointerButton || event is Touch
}

/// Whether any event of a frame qualifies.
pub open spec fn any_qualifies(events: Seq<InputEvent>) -> bool {
    exists|i: int| 0 <= i < events.len() && qualifies(#[trigger] events[i])
}

/// The state after a frame in `state` that saw a qualifying input or not.
pub open spec fn next_state(state: GGEngineState, input: bool) -> GGEngineState {
    match state {
        GGEngineState::Preinit => if input {
            GGEngineState::Init
        } else {
            GGEngineState::Preinit
        },
        GGEngineState::Init => GGEngineState::Postinit,
        GGEngineState::Postinit => GGEngineState::Postinit,
    }
}

/// The time from `last` to `now`, and none where the clock went back.
pub open spec fn elapsed(last: u64, now: u64) -> u64 {
    if now >= last {
        (now - last) as u64
    } else {
        0
    }
}

/// What the host does with a frame in `state`.
pub open spec fn frame_action(state: GGEngineState, input: bool, dt: u64) -> FrameAction {
    match state {
        GGEngineState::Preinit => if input {
            FrameAction::Unlock
        } else {
            FrameAction::Prompt
        },
        GGEngineState::Init => FrameAction::Init,
        GGEngineState::Postinit => FrameAction::Update { dt },
    }
}

/// The state after frames that saw a qualifying input or not, as `inputs` tells.
pub open spec fn run(state: GGEngineState, inputs: Seq<bool>) -> GGEngineState
    decreases inputs.len(),
{
    if inputs.len() == 0 {
        state
    } else {
        run(next_state(state, inputs[0]), inputs.drop_first())
    }
}

/// How often the application is set up in the frames of `inputs`.
pub open spec fn setups(state: GGEngineState, inputs: Seq<bool>) -> nat
    decreases inputs.len(),
{
    if inputs.len() == 0 {
        0
    } else {
        (if state is Init {
            1nat
        } else {
            0nat
        }) + setups(next_state(state, inputs[0]), inputs.drop_first())
    }
}

/// The last state is never left, and no setup runs in it.
pub proof fn lemma_postinit_is_final(inputs: Seq<bool>)
    ensures
        run(GGEngineState::Postinit, inputs) == GGEngineState::Postinit,
        setups(GGEngineState::Postinit, inputs) == 0,
    decreases inputs.len(),
{
    if inputs.len() > 0 {
        lemma_postinit_is_final(inputs.drop_first());
    }
}

/// The application is set up at most once, whatever the inputs are.
pub proof fn lemma_setup_runs_at_most_once(state: GGEngineState, inputs: Seq<bool>)
    ensures
        setups(state, inputs) <= 1,
    decreases inputs.len(),
{
    if inputs.len() > 0 {
        match state {
            GGEngineState::Preinit => {
                lemma_setup_runs_at_most_once(next_state(state, inputs[0]), inputs.drop_first());
            },
            _ => {
                lemma_postinit_is_final(inputs.drop_first());
            },
        }
    }
}

/// Without a qualifying input the lifecycle stays in its first state and the
/// application is never set up.
pub proof fn lemma_no_input_no_setup(inputs: Seq<bool>)
    requires
        forall|i: int| 0 <= i < inputs.len() ==> !inputs[i],
    ensures
        run(GGEngineState::Preinit, inputs) == GGEngineState::Preinit,
        setups(GGEngineState::Preinit, inputs) == 0,
    decreases inputs.len(),
{
    if inputs.len() > 0 {
        let rest = inputs.drop_first();
        assert forall|i: int| 0 <= i < rest.len() implies !rest[i] by {
            assert(rest[i] == inputs[i + 1]);
        }
        lemma_no_input_no_setup(rest);
    }
}

/// Once an input qualified and a frame followed it, the application was set
/// up exactly once, and the frame after the setup finds the last state.
pub proof fn lemma_setup_follows_input(inputs: Seq<bool>, at: int)
    requires
        0 <= at < inputs.len() - 1,
        inputs[at],
    ensures
        setups(GGEngineState::Preinit, inputs) == 1,
        at < inputs.len() - 2 ==> run(GGEngineState::Preinit, inputs) == GGEngineState::Postinit,
    decreases inputs.len(),
{
    let rest = inputs.drop_first();
    if inputs[0] {
        // the frame after the input sets up, the ones after it update
        let after = rest.drop_first();
        lemma_postinit_is_final(after);
        assert(setups(GGEngineState::Init, rest) == 1);
        assert(run(GGEngineState::Init, rest) == run(GGEngineState::Postinit, after));
    } else {
        assert(rest[at - 1] == inputs[at]);
        lemma_setup_follows_input(rest, at - 1);
    }
}

/// Whether an input event lets the lifecycle leave its first state.
pub fn is_qualifying(event: InputEvent) -> (r: bool)
    ensures
        r == qualifies(event),
{
    match event {
        InputEvent::Key => true,
        InputEvent::PointerButton => true,
        InputEvent::Touch => true,
        InputEvent::Other => false,
    }
}

/// Whether any event of a frame qualifies.
pub fn any_input_events(events: &Vec<InputEvent>) -> (r: bool)
    ensures
        r == any_qualifies(events@),
{
    let mut i: usize = 0;
    while i < events.len()
        invariant
            i <= events.len(),
            forall|j: int| 0 <= j < i ==> !qualifies(#[trigger] events@[j]),
        decreases events.len() - i,
    {
        if is_qualifying(events[i]) {
            return true;
        }
        i += 1;
    }
    false
}

/// An application that the lifecycle drives. It requests its assets in
/// `init`, which runs once, and finds them in the store in `update`, which
/// runs every frame from then on: it is for the application to look at the
/// store's pending count before it uses an asset.
///
/// Both methods get the store well formed and hand it back so; the store's
/// own operations keep it so, and an application has no other way to change it.
///
/// An application may keep a log of the calls it got. One that does says so
/// in `keeps_log`, and then every call of `init` counts in `setups` and every
/// call of `update` adds its time to `updates`. An application that keeps no
/// log promises nothing of them.
pub trait GGame<L: Loader + Default> {
    /// Whether the application keeps the log of its calls.
    open spec fn keeps_log(&self) -> bool {
        false
    }

    /// How often the application was set up.
    open spec fn setups(&self) -> nat {
        0
    }

    /// The times passed that the application was updated with, in order.
    open spec fn updates(&self) -> Seq<u64> {
        Seq::empty()
    }

    /// The one-time setup.
    fn init(&mut self, assets: &mut GAssets<L>)
        requires
            old(assets).wf(),
        ensures
            final(assets).wf(),
            final(self).keeps_log() == old(self).keeps_log(),
            old(self).keeps_log() ==> final(self).setups() == old(self).setups() + 1,
            old(self).keeps_log() ==> final(self).updates() == old(self).updates(),
    ;

    /// One frame's update, `dt` nanoseconds after the last.
    fn update(&mut self, assets: &mut GAssets<L>, dt: u64)
        requires
            old(assets).wf(),
        ensures
            final(assets).wf(),
            final(self).keeps_log() == old(self).keeps_log(),
            old(self).keeps_log() ==> final(self).setups() == old(self).setups(),
            old(self).keeps_log() ==> final(self).updates() == old(self).updates().push(dt),
    ;
}

/// How often a frame with the given action sets the application up.
pub open spec fn setups_of(action: FrameAction) -> nat {
    if action is Init {
        1
    } else {
        0
    }
}

/// The updates of an application after a frame with the given action.
pub open spec fn updates_after(before: Seq<u64>, action: FrameAction) -> Seq<u64> {
    match action {
        FrameAction::Update { dt } => before.push(dt),
        _ => before,
    }
}

/// The lifecycle controller: its state, the frames it has seen, and the time
/// of the last update, in nanoseconds of the host's clock.
pub struct GGEngine {
    state: GGEngineState,
    iterations: u64,
    last_update: u64,
}

impl GGEngine {
    /// Where the lifecycle stands.
    pub closed spec fn spec_state(&self) -> GGEngineState {
        self.state
    }

    /// How many frames the controller has seen.
    pub closed spec fn spec_iterations(&self) -> u64 {
        self.iterations
    }

    /// The time from which the next update measures what has passed.
    pub closed spec fn spec_last_update(&self) -> u64 {
        self.last_update
    }

    /// A controller in the first state, made at the time `now`.
    pub fn new(now: u64) -> (r: Self)
        ensures
            r.spec_state() == GGEngineState::Preinit,
            r.spec_iterations() == 0,
            r.spec_last_update() == now,
    {
        GGEngine { state: GGEngineState::Preinit, iterations: 0, last_update: now }
    }

    /// Where the lifecycle stands.
    pub fn state(&self) -> (r: GGEngineState)
        ensures
            r == self.spec_state(),
    {
        self.state
    }

    /// How many frames the controller has seen.
    pub fn iterations(&self) -> (r: u64)
        ensures
            r == self.spec_iterations(),
    {
        self.iterations
    }

    /// One frame at the time `now`, with the input events it brought.
    ///
    /// The store is polled once, whatever the state, with the decode
    /// functions for maps and sounds that the host brings. In the first
    /// state the controller waits, and moves on when an event qualifies. In
    /// the second it has the application set up and moves on. In the last
    /// state it has the application updated with the time passed since the
    /// last update, or since the controller was made for the first update.
    pub fn update<L, M, S>(
        &mut self,
        assets: &mut GAssets<L>,
        now: u64,
        events: &Vec<InputEvent>,
        decode_map: M,
        decode_sound: S,
    ) -> (action: FrameAction) where
        L: Loader + Default,
        M: Fn(Load) -> Result<tiled::Map, ()>,
        S: Fn(Load) -> Result<StaticSoundData, ()>,

        requires
            old(assets).wf(),
            old(self).spec_iterations() < u64::MAX,
            forall|l: Load| call_requires(decode_map, (l,)),
            forall|l: Load| call_requires(decode_sound, (l,)),
        ensures
            final(assets).wf(),
            store_polled(old(assets)@, final(assets)@, decode_map, decode_sound),
            final(assets).asked().polled_after(old(assets).asked()),
            final(self).spec_state() == next_state(
                old(self).spec_state(),
                any_qualifies(events@),
            ),
            action == frame_action(
                old(self).spec_state(),
                any_qualifies(events@),
                elapsed(old(self).spec_last_update(), now),
            ),
            final(self).spec_iterations() == old(self).spec_iterations() + 1,
            final(self).spec_last_update() == if old(self).spec_state() is Postinit {
                now
            } else {
                old(self).spec_last_update()
            },
    {
        assets.poll(decode_map, decode_sound);
        let action = match self.state {
            GGEngineState::Preinit => {
                if any_input_events(events) {
                    self.state = GGEngineState::Init;
                    FrameAction::Unlock
                } else {
                    FrameAction::Prompt
                }
            },
            GGEngineState::Init => {
                self.state = GGEngineState::Postinit;
                FrameAction::Init
            },
            GGEngineState::Postinit => {
                let dt: u64 = if now >= self.last_update {
                    now - self.last_update
                } else {
                    0
                };
                self.last_update = now;
                FrameAction::Update { dt }
            },
        };
        self.iterations += 1;
        action
    }

    /// One frame as [`GGEngine::update`] makes it, with the application's
    /// part done here: `game` is set up, once, in the frame whose action is
    /// the setup, and updated, once, in every frame whose action is an
    /// update, with the time that the action carries; in the other frames it
    /// is not called. The action is handed on for the host to do its own part.
    pub fn frame<L, G, M, S>(
        &mut self,
        game: &mut G,
        assets: &mut GAssets<L>,
        now: u64,
        events: &Vec<InputEvent>,
        decode_map: M,
        decode_sound: S,
    ) -> (action: FrameAction) where
        L: Loader + Default,
        G: GGame<L>,
        M: Fn(Load) -> Result<tiled::Map, ()>,
        S: Fn(Load) -> Result<StaticSoundData, ()>,

        requires
            old(assets).wf(),
            old(self).spec_iterations() < u64::MAX,
            forall|l: Load| call_requires(decode_map, (l,)),
            forall|l: Load| call_requires(decode_sound, (l,)),
        ensures
            final(assets).wf(),
            final(self).spec_state() == next_state(
                old(self).spec_state(),
                any_qualifies(events@),
            ),
            action == frame_action(
                old(self).spec_state(),
                any_qualifies(events@),
                elapsed(old(self).spec_last_update(), now),
            ),
            final(self).spec_iterations() == old(self).spec_iterations() + 1,
            final(self).spec_last_update() == if old(self).spec_state() is Postinit {
                now
            } else {
                old(self).spec_last_update()
            },
            action is Prompt || action is Unlock ==> store_polled(
                old(assets)@,
                final(assets)@,
                decode_map,
                decode_sound,
            ) && final(assets).asked().polled_after(old(assets).asked()),
            final(game).keeps_log() == old(game).keeps_log(),
            old(game).keeps_log() ==> final(game).setups() == old(game).setups() + setups_of(action),
            old(game).keeps_log() ==> final(game).updates() == updates_after(
                old(game).updates(),
                action,
            ),
    {
        let action = self.update(assets, now, events, decode_map, decode_sound);
        match action {
            FrameAction::Init => game.init(assets),
            FrameAction::Update { dt } => game.update(assets, dt),
            _ => {},
        }
        action
    }
}

} // verus!
