//! Asset loading for an interactive application: loader outcomes, typed
//! registries of decoded assets, the store that groups them, the schedules of
//! the two loading backends, and the frame lifecycle that gates application
//! setup and update.

pub mod asset;
pub mod atlas;
pub mod decode;
pub mod disk;
pub mod engine;
pub mod grid;
pub mod loader;
pub mod persist;
pub mod registry;
pub mod store;
pub mod web;

pub use asset::{event_view, AssetEvent, AssetView, EventView, GGAsset, Load, LoadView};
pub use atlas::{GAtlas, Pixels};
pub use disk::{DiskQueue, DiskStep, Worker};
pub use engine::{FrameAction, GGEngine, GGEngineState, GGame, InputEvent};
pub use loader::{Loader, LoaderEvent, OutcomeView};
pub use registry::{RegistryModel, TypedAssets};
pub use store::{AssetKind, GAssets, StoreModel};
pub use web::{Arrival, WebQueue};
