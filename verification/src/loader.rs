use vstd::prelude::*;

verus! {

/// What a loading backend reports for one requested path.
#[derive(Debug)]
pub enum LoaderEvent {
    /// The bytes found at the path.
    Load(String, Vec<u8>),
    /// The path could not be read.
    LoadFailed(String),
}

/// A loader outcome as plain values.
pub enum OutcomeView {
    Load(Seq<char>, Seq<u8>),
    LoadFailed(Seq<char>),
}

impl OutcomeView {
    /// The path that the outcome answers.
    pub open spec fn path(self) -> Seq<char> {
        match self {
            OutcomeView::Load(path, _) => path,
            OutcomeView::LoadFailed(path) => path,
        }
    }
}

impl View for LoaderEvent {
    type V = OutcomeView;

    open spec fn view(&self) -> OutcomeView {
        match *self {
            LoaderEvent::Load(path, data) => OutcomeView::Load(path@, data@),
            LoaderEvent::LoadFailed(path) => OutcomeView::LoadFailed(path@),
        }
    }
}

impl LoaderEvent {
    /// The path that the outcome answers.
    pub fn path(&self) -> (r: &str)
        ensures
            r@ == self@.path(),
    {
        match self {
            LoaderEvent::Load(path, _) => path.as_str(),
            LoaderEvent::LoadFailed(path) => path.as_str(),
        }
    }
}

/// A backend that fetches raw bytes for a path without blocking the frame.
///
/// `request` enqueues a load; `poll` hands out at most one finished outcome
/// per call. Nothing is promised of what `poll` hands out: a registry takes
/// whatever comes and decides on it.
///
/// A backend may keep a log of the calls it got. One that does says so in
/// `keeps_log`, and then every call of `request` adds its path to
/// `requested`, and every call of `poll` counts in `polled`; neither call
/// touches the other's part of the log. A backend that keeps no log
/// promises nothing.
pub trait Loader: 'static {
    /// Whether the backend keeps the log of its requests.
    open spec fn keeps_log(&self) -> bool {
        false
    }

    /// The paths that the backend was asked for, in the order of the calls.
    open spec fn requested(&self) -> Seq<Seq<char>> {
        Seq::empty()
    }

    /// How often the backend was polled.
    open spec fn polled(&self) -> nat {
        0
    }

    /// Enqueues a load of `path`.
    fn request(&mut self, path: String)
        ensures
            final(self).keeps_log() == old(self).keeps_log(),
            old(self).keeps_log() ==> final(self).requested() == old(self).requested().push(path@),
            old(self).keeps_log() ==> final(self).polled() == old(self).polled(),
    ;

    /// Hands out one finished outcome, if there is one.
    fn poll(&mut self) -> (r: Option<LoaderEvent>)
        ensures
            final(self).keeps_log() == old(self).keeps_log(),
            old(self).keeps_log() ==> final(self).requested() == old(self).requested(),
            old(self).keeps_log() ==> final(self).polled() == old(self).polled() + 1,
    ;
}

} // verus!
