use std::rc::Rc;
use vstd::prelude::*;

verus! {

/// A decoded asset with the name it is known by and the path it came from.
#[derive(Clone)]
pub struct GGAsset<T> {
    pub name: String,
    pub path: String,
    pub data: T,
}

/// An asset as plain values.
pub struct AssetView<T> {
    pub name: Seq<char>,
    pub path: Seq<char>,
    pub data: T,
}

impl<T> View for GGAsset<T> {
    type V = AssetView<T>;

    open spec fn view(&self) -> AssetView<T> {
        AssetView { name: self.name@, path: self.path@, data: self.data }
    }
}

impl<T> std::ops::Deref for GGAsset<T> {
    type Target = T;

    fn deref(&self) -> (r: &T)
        ensures
            *r == self.data,
    {
        &self.data
    }
}

/// The raw bytes of one finished request, handed to a decode function.
pub struct Load {
    pub name: String,
    pub path: String,
    pub data: Vec<u8>,
}

/// A load as plain values.
pub struct LoadView {
    pub name: Seq<char>,
    pub path: Seq<char>,
    pub data: Seq<u8>,
}

impl View for Load {
    type V = LoadView;

    open spec fn view(&self) -> LoadView {
        LoadView { name: self.name@, path: self.path@, data: self.data@ }
    }
}

/// What a registry reports when a request is settled.
pub enum AssetEvent<T> {
    Loaded(Rc<GGAsset<T>>),
    LoadFailed { name: String, path: String },
}

/// A registry event as plain values.
pub enum EventView<T> {
    Loaded(AssetView<T>),
    LoadFailed { name: Seq<char>, path: Seq<char> },
}

impl<T> View for AssetEvent<T> {
    type V = EventView<T>;

    open spec fn view(&self) -> EventView<T> {
        match *self {
            AssetEvent::Loaded(asset) => EventView::Loaded(asset@),
            AssetEvent::LoadFailed { name, path } => EventView::LoadFailed { name: name@, path: path@ },
        }
    }
}

/// The view of an optional event.
pub open spec fn event_view<T>(event: Option<AssetEvent<T>>) -> Option<EventView<T>> {
    match event {
        Some(e) => Some(e@),
        None => None,
    }
}

} // verus!
