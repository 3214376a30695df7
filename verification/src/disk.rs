//! The schedule of the backend that reads files off the frame's thread: the
//! requests wait in a queue and one file is read at a time. The host starts
//! the reads and reports how they ended; this module decides what happens next.

use crate::loader::{LoaderEvent, OutcomeView};
use std::collections::VecDeque;
use vstd::prelude::*;

verus! {

/// What the host reports of the read under way.
pub enum Worker {
    /// The read has not ended, or none is under way.
    Running,
    /// The read ended with these bytes.
    Read(Vec<u8>),
    /// The file could not be read, or the read broke off.
    Unreadable,
}

/// A worker report as plain values.
pub enum WorkerView {
    Running,
    Read(Seq<u8>),
    Unreadable,
}

impl View for Worker {
    type V = WorkerView;

    open spec fn view(&self) -> WorkerView {
        match *self {
            Worker::Running => WorkerView::Running,
            Worker::Read(bytes) => WorkerView::Read(bytes@),
            Worker::Unreadable => WorkerView::Unreadable,
        }
    }
}

/// What the host does after a poll of the schedule.
pub enum DiskStep {
    /// Nothing: no read has ended and none is to be started.
    Wait,
    /// Start to read the file at this path.
    Start(String),
    /// Hand this outcome to whoever polled the backend.
    Deliver(LoaderEvent),
}

/// A step as plain values.
pub enum DiskStepView {
    Wait,
    Start(Seq<char>),
    Deliver(OutcomeView),
}

impl View for DiskStep {
    type V = DiskStepView;

    open spec fn view(&self) -> DiskStepView {
        match *self {
            DiskStep::Wait => DiskStepView::Wait,
            DiskStep::Start(path) => DiskStepView::Start(path@),
            DiskStep::Deliver(outcome) => DiskStepView::Deliver(outcome@),
        }
    }
}

/// The schedule as plain values: the paths that wait, oldest first, and the
/// path being read.
#[verifier::ext_equal]
pub struct DiskModel {
    pub queue: Seq<Seq<char>>,
    pub current: Option<Seq<char>>,
}

impl DiskModel {
    /// A schedule with nothing requested.
    pub open spec fn empty() -> Self {
        DiskModel { queue: Seq::empty(), current: None }
    }

    /// The paths requested and not answered yet, oldest first.
    pub open spec fn outstanding(self) -> Seq<Seq<char>> {
        match self.current {
            Some(path) => seq![path] + self.queue,
            None => self.queue,
        }
    }

    /// The schedule after `path` was requested.
    pub open spec fn request(self, path: Seq<char>) -> Self {
        DiskModel { queue: self.queue.push(path), ..self }
    }

    /// The schedule after a poll with the report `worker`.
    ///
    /// While a file is being read, a report that the read ended frees the
    /// schedule, and any other report changes nothing. While none is being
    /// read, the oldest waiting path becomes the one being read.
    pub open spec fn step(self, worker: WorkerView) -> Self {
        match self.current {
            Some(path) => match worker {
                WorkerView::Running => self,
                _ => DiskModel { current: None, ..self },
            },
            None => if self.queue.len() > 0 {
                DiskModel { queue: self.queue.drop_first(), current: Some(self.queue[0]) }
            } else {
                self
            },
        }
    }

    /// What the host is told after a poll with the report `worker`: bytes
    /// read are delivered under the path they were read from, a read that
    /// failed is delivered as a failure of that path, and with no read under
    /// way the oldest waiting path is to be started.
    pub open spec fn action(self, worker: WorkerView) -> DiskStepView {
        match self.current {
            Some(path) => match worker {
                WorkerView::Running => DiskStepView::Wait,
                WorkerView::Read(bytes) => DiskStepView::Deliver(OutcomeView::Load(path, bytes)),
                WorkerView::Unreadable => DiskStepView::Deliver(OutcomeView::LoadFailed(path)),
            },
            None => if self.queue.len() > 0 {
                DiskStepView::Start(self.queue[0])
            } else {
                DiskStepView::Wait
            },
        }
    }
}

/// Requests are answered one by one, oldest first, and none is lost: a poll
/// either leaves the outstanding paths as they are, or delivers the outcome
/// of the oldest of them and takes that one off. A file is started only
/// while no other is being read, and it is the oldest outstanding one.
pub proof fn lemma_disk_answers_in_order(pre: DiskModel, worker: WorkerView)
    ensures
        match pre.action(worker) {
            DiskStepView::Deliver(outcome) => pre.outstanding().len() > 0 && outcome.path()
                == pre.outstanding()[0] && pre.step(worker).outstanding()
                == pre.outstanding().drop_first(),
            DiskStepView::Start(path) => pre.current is None && pre.step(worker).current == Some(
                path,
            ) && path == pre.outstanding()[0] && pre.step(worker).outstanding()
                == pre.outstanding(),
            DiskStepView::Wait => pre.step(worker) == pre,
        },
{
    match pre.action(worker) {
        DiskStepView::Deliver(outcome) => {
            assert(pre.step(worker).outstanding() =~= pre.outstanding().drop_first());
        },
        DiskStepView::Start(path) => {
            assert(pre.step(worker).outstanding() =~= pre.outstanding());
        },
        DiskStepView::Wait => {},
    }
}

/// A request joins the outstanding paths as the youngest.
pub proof fn lemma_disk_request_is_outstanding(pre: DiskModel, path: Seq<char>)
    ensures
        pre.request(path).outstanding() == pre.outstanding().push(path),
{
    assert(pre.request(path).outstanding() =~= pre.outstanding().push(path));
}

/// The schedule of the file-reading backend.
pub struct DiskQueue {
    requests: VecDeque<String>,
    current: Option<String>,
}

impl View for DiskQueue {
    type V = DiskModel;

    closed spec fn view(&self) -> DiskModel {
        DiskModel {
            queue: self.requests@.map_values(|path: String| path@),
            current: match self.current {
                Some(path) => Some(path@),
                None => None,
            },
        }
    }
}

impl DiskQueue {
    /// A schedule with nothing requested.
    pub fn new() -> (r: Self)
        ensures
            r@ == DiskModel::empty(),
    {
        let r = DiskQueue { requests: VecDeque::new(), current: None };
        assert(r@.queue =~= Seq::empty());
        r
    }

    /// Puts `path` at the end of the queue.
    pub fn request(&mut self, path: String)
        ensures
            final(self)@ == old(self)@.request(path@),
    {
        self.requests.push_back(path);
        assert(self@.queue =~= old(self)@.queue.push(path@));
    }

    /// Whether a file is being read.
    pub fn is_busy(&self) -> (r: bool)
        ensures
            r == self@.current is Some,
    {
        self.current.is_some()
    }

    /// One poll of the backend, with what the host reports of the read under
    /// way. See [`DiskModel::step`] and [`DiskModel::action`].
    pub fn poll(&mut self, worker: Worker) -> (r: DiskStep)
        ensures
            final(self)@ == old(self)@.step(worker@),
            r@ == old(self)@.action(worker@),
    {
        match self.current.take() {
            Some(path) => match worker {
                Worker::Running => {
                    self.current = Some(path);
                    DiskStep::Wait
                },
                Worker::Read(bytes) => DiskStep::Deliver(LoaderEvent::Load(path, bytes)),
                Worker::Unreadable => DiskStep::Deliver(LoaderEvent::LoadFailed(path)),
            },
            None => match self.requests.pop_front() {
                Some(path) => {
                    self.current = Some(path.clone());
                    assert(self@.queue =~= old(self)@.queue.drop_first());
                    DiskStep::Start(path)
                },
                None => {
                    assert(self@.queue =~= old(self)@.queue);
                    DiskStep::Wait
                },
            },
        }
    }
}

impl Default for DiskQueue {
    fn default() -> (r: Self)
        ensures
            r@ == DiskModel::empty(),
    {
        DiskQueue::new()
    }
}

} // verus!
