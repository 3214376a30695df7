use ggsdk::engine::{any_input_events, is_qualifying};
use ggsdk::{
    FrameAction, GAssets, GGEngine, GGEngineState, GGame, InputEvent, Load, Loader, LoaderEvent,
};
use kira::sound::static_sound::StaticSoundData;
use std::collections::VecDeque;

/// A backend that answers every request at the next poll, in the order of
/// the requests, with the path's own bytes.
#[derive(Default)]
struct Echo {
    requests: VecDeque<String>,
}

impl Loader for Echo {
    fn request(&mut self, path: String) {
        self.requests.push_back(path);
    }

    fn poll(&mut self) -> Option<LoaderEvent> {
        let path = self.requests.pop_front()?;
        let bytes = path.clone().into_bytes();
        Some(LoaderEvent::Load(path, bytes))
    }
}

/// The tests of the lifecycle load no maps.
fn no_map(_load: Load) -> Result<tiled::Map, ()> {
    Err(())
}

/// The tests of the lifecycle load no sounds.
fn no_sound(_load: Load) -> Result<StaticSoundData, ()> {
    Err(())
}

/// An application that records what the lifecycle does with it.
#[derive(Default)]
struct Recorder {
    inits: usize,
    updates: Vec<u64>,
    pending_seen: Vec<usize>,
    greeting: Option<String>,
}

impl GGame<Echo> for Recorder {
    fn init(&mut self, assets: &mut GAssets<Echo>) {
        self.inits += 1;
        assets.load::<String>("a.txt", "greeting");
        assets.load::<String>("b.txt", "farewell");
        assets.load::<String>("c.txt", "aside");
    }

    fn update(&mut self, assets: &mut GAssets<Echo>, dt: u64) {
        self.updates.push(dt);
        self.pending_seen.push(assets.pending());
        if assets.pending() == 0 {
            self.greeting = assets.get::<String>("greeting").map(|asset| asset.data.clone());
        }
    }
}

#[test]
fn lifecycle_waits_for_an_input() {
    let mut engine = GGEngine::new(1_000);
    let mut assets: GAssets<Echo> = GAssets::new();
    assert_eq!(engine.state(), GGEngineState::Preinit);
    assert_eq!(engine.iterations(), 0);
    for frame in 0..20u64 {
        let action = engine.update(&mut assets, 1_000 + frame * 16, &vec![InputEvent::Other], no_map, no_sound);
        assert_eq!(action, FrameAction::Prompt);
        assert_eq!(engine.state(), GGEngineState::Preinit);
        assert_eq!(engine.iterations(), frame + 1);
        assert!(assets.get::<String>("greeting").is_none());
        assert_eq!(assets.total(), 0);
    }
    assert_eq!(engine.update(&mut assets, 2_000, &vec![], no_map, no_sound), FrameAction::Prompt);
}

#[test]
fn application_is_never_set_up_without_an_input() {
    let mut engine = GGEngine::new(0);
    let mut assets: GAssets<Echo> = GAssets::new();
    let mut game = Recorder::default();
    for frame in 0..50u64 {
        let action = engine.frame(&mut game, &mut assets, frame, &vec![InputEvent::Other], no_map, no_sound);
        assert_eq!(action, FrameAction::Prompt);
    }
    assert_eq!(game.inits, 0);
    assert!(game.updates.is_empty());
    assert!(assets.get::<String>("greeting").is_none());
    assert_eq!(engine.state(), GGEngineState::Preinit);
}

#[test]
fn lifecycle_goes_through_its_three_states() {
    let mut engine = GGEngine::new(100);
    let mut assets: GAssets<Echo> = GAssets::new();
    assert_eq!(engine.update(&mut assets, 110, &vec![], no_map, no_sound), FrameAction::Prompt);
    assert_eq!(
        engine.update(&mut assets, 120, &vec![InputEvent::Other, InputEvent::Key], no_map, no_sound),
        FrameAction::Unlock
    );
    assert_eq!(engine.state(), GGEngineState::Init);
    assert_eq!(engine.update(&mut assets, 130, &vec![], no_map, no_sound), FrameAction::Init);
    assert_eq!(engine.state(), GGEngineState::Postinit);
    assert_eq!(engine.update(&mut assets, 140, &vec![], no_map, no_sound), FrameAction::Update { dt: 40 });
    assert_eq!(engine.state(), GGEngineState::Postinit);
    assert_eq!(engine.update(&mut assets, 156, &vec![InputEvent::Key], no_map, no_sound), FrameAction::Update { dt: 16 });
    assert_eq!(engine.update(&mut assets, 156, &vec![], no_map, no_sound), FrameAction::Update { dt: 0 });
    assert_eq!(engine.update(&mut assets, 150, &vec![], no_map, no_sound), FrameAction::Update { dt: 0 });
    assert_eq!(engine.update(&mut assets, 170, &vec![], no_map, no_sound), FrameAction::Update { dt: 20 });
    assert_eq!(engine.state(), GGEngineState::Postinit);
    assert_eq!(engine.iterations(), 8);
}

#[test]
fn each_qualifying_kind_of_input_starts_the_lifecycle() {
    for event in [InputEvent::Key, InputEvent::PointerButton, InputEvent::Touch] {
        let mut engine = GGEngine::new(0);
        let mut assets: GAssets<Echo> = GAssets::new();
        assert_eq!(engine.update(&mut assets, 1, &vec![event], no_map, no_sound), FrameAction::Unlock);
        assert_eq!(engine.state(), GGEngineState::Init);
    }
    assert!(is_qualifying(InputEvent::Key));
    assert!(is_qualifying(InputEvent::PointerButton));
    assert!(is_qualifying(InputEvent::Touch));
    assert!(!is_qualifying(InputEvent::Other));
    assert!(!any_input_events(&vec![]));
    assert!(!any_input_events(&vec![InputEvent::Other, InputEvent::Other]));
    assert!(any_input_events(&vec![InputEvent::Other, InputEvent::Touch, InputEvent::Other]));
}

#[test]
fn input_in_the_setup_frame_changes_nothing() {
    let mut engine = GGEngine::new(0);
    let mut assets: GAssets<Echo> = GAssets::new();
    engine.update(&mut assets, 1, &vec![InputEvent::Key], no_map, no_sound);
    assert_eq!(engine.update(&mut assets, 2, &vec![InputEvent::Key], no_map, no_sound), FrameAction::Init);
    assert_eq!(engine.state(), GGEngineState::Postinit);
}

#[test]
fn application_is_set_up_once_and_updated_every_frame_after() {
    let mut engine = GGEngine::new(0);
    let mut assets: GAssets<Echo> = GAssets::new();
    let mut game = Recorder::default();
    assert_eq!(engine.frame(&mut game, &mut assets, 10, &vec![], no_map, no_sound), FrameAction::Prompt);
    assert_eq!(engine.frame(&mut game, &mut assets, 20, &vec![InputEvent::Touch], no_map, no_sound), FrameAction::Unlock);
    assert_eq!(game.inits, 0);
    assert_eq!(engine.frame(&mut game, &mut assets, 30, &vec![], no_map, no_sound), FrameAction::Init);
    assert_eq!(game.inits, 1);
    assert_eq!(assets.total(), 3);
    assert_eq!(assets.pending(), 3);
    assert!(game.updates.is_empty());
    assert_eq!(engine.frame(&mut game, &mut assets, 40, &vec![], no_map, no_sound), FrameAction::Update { dt: 40 });
    assert_eq!(game.pending_seen, vec![2]);
    assert!(game.greeting.is_none());
    assert_eq!(engine.frame(&mut game, &mut assets, 50, &vec![InputEvent::Key], no_map, no_sound), FrameAction::Update { dt: 10 });
    assert_eq!(game.pending_seen, vec![2, 1]);
    assert!(game.greeting.is_none());
    for frame in 0..10u64 {
        engine.frame(&mut game, &mut assets, 60 + frame, &vec![InputEvent::Key], no_map, no_sound);
    }
    assert_eq!(game.greeting.as_deref(), Some("a.txt"));
    assert_eq!(game.pending_seen[2], 0);
    assert_eq!(game.inits, 1);
    assert_eq!(game.updates.len(), 12);
    assert_eq!(game.updates[0], 40);
    assert_eq!(game.updates[1], 10);
    assert_eq!(game.updates[2], 10);
    assert_eq!(game.updates[3], 1);
    assert_eq!(engine.iterations(), 15);
}

#[test]
fn store_is_polled_once_in_every_frame() {
    let mut engine = GGEngine::new(0);
    let mut assets: GAssets<Echo> = GAssets::new();
    for name in ["a", "b", "c", "d", "e"] {
        assets.load::<String>(&format!("{}.txt", name), name);
    }
    assert_eq!(engine.update(&mut assets, 1, &vec![], no_map, no_sound), FrameAction::Prompt);
    assert_eq!(assets.pending(), 4);
    assert_eq!(engine.update(&mut assets, 2, &vec![InputEvent::Key], no_map, no_sound), FrameAction::Unlock);
    assert_eq!(assets.pending(), 3);
    assert_eq!(engine.update(&mut assets, 3, &vec![], no_map, no_sound), FrameAction::Init);
    assert_eq!(assets.pending(), 2);
    assert_eq!(engine.update(&mut assets, 4, &vec![], no_map, no_sound), FrameAction::Update { dt: 4 });
    assert_eq!(assets.pending(), 1);
    assert_eq!(engine.update(&mut assets, 5, &vec![], no_map, no_sound), FrameAction::Update { dt: 1 });
    assert_eq!(assets.pending(), 0);
    assert_eq!(engine.update(&mut assets, 6, &vec![], no_map, no_sound), FrameAction::Update { dt: 1 });
    assert_eq!(assets.pending(), 0);
}
