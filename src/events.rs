//! The shared filesystem state: the entry store and the bus on which its
//! changes are published. Publishing never blocks: with no subscriber an
//! event is dropped, and a subscriber whose queue is full misses events.
use crate::common::{EventView, FSEvent, FileSystemEvent, ObjectType};
use crate::store::VirtualFS;
use tokio::sync::broadcast::{Receiver, Sender};
use vstd::prelude::*;

verus! {

#[verifier::external_type_specification]
#[verifier::external_body]
#[verifier::reject_recursive_types(T)]
pub struct ExSender<T>(Sender<T>);

#[verifier::external_type_specification]
#[verifier::external_body]
#[verifier::reject_recursive_types(T)]
pub struct ExReceiver<T>(Receiver<T>);

/// How many events each subscriber's queue holds.
pub const EVENT_QUEUE_CAPACITY: usize = 100;

/// Relies on tokio's `broadcast::channel`: a sender whose subscribers each
/// get a queue of `capacity` events (it panics on a capacity of 0 or above
/// `usize::MAX / 2`). The receiver made with it is dropped at once.
#[verifier::external_body]
fn event_channel(capacity: usize) -> Sender<FSEvent>
    requires
        0 < capacity <= usize::MAX / 2,
{
    let (tx, _) = tokio::sync::broadcast::channel(capacity);
    tx
}

/// The store together with its event bus.
pub struct FSState {
    pub files: VirtualFS,
    pub event_sender: Sender<FSEvent>,
}

impl FSState {
    /// An empty store with the default limits and a bus without subscribers.
    pub fn new() -> (r: Self)
        ensures
            r.files.wf(),
            r.files@ == Map::<Seq<char>, crate::common::FileView>::empty(),
            r.files.total_space() == crate::store::DEFAULT_TOTAL_SPACE_BYTES,
            r.files.file_limit() == crate::store::DEFAULT_MAX_FILES,
    {
        FSState { files: VirtualFS::new(), event_sender: event_channel(EVENT_QUEUE_CAPACITY) }
    }

    /// An empty store with the given limits and a bus without subscribers.
    pub fn with_size(total_space_bytes: u64, max_files: u64) -> (r: Self)
        ensures
            r.files.wf(),
            r.files@ == Map::<Seq<char>, crate::common::FileView>::empty(),
            r.files.total_space() == total_space_bytes,
            r.files.file_limit() == max_files,
    {
        FSState {
            files: VirtualFS::with_size(total_space_bytes, max_files),
            event_sender: event_channel(EVENT_QUEUE_CAPACITY),
        }
    }

    /// Relies on tokio's `Sender::send`, which never blocks: it queues the
    /// event for every current subscriber and fails, dropping it, when there
    /// is none.
    #[verifier::external_body]
    pub fn emit_event(&self, event: FSEvent) {
        let _ = self.event_sender.send(event);
    }

    /// Relies on tokio's `Sender::subscribe`: a receiver of every event sent
    /// after this call (it panics past `usize::MAX >> 2` live receivers).
    #[verifier::external_body]
    pub fn subscribe_to_events(&self) -> Receiver<FSEvent> {
        self.event_sender.subscribe()
    }

    /// Publishes `events` in order.
    pub fn publish(&self, events: Vec<FSEvent>) {
        let mut events = events;
        while events.len() > 0
            decreases events@.len(),
        {
            let e = events.remove(0);
            self.emit_event(e);
        }
    }
}

impl Default for FSState {
    /// The same as [`FSState::new`].
    fn default() -> (r: Self)
        ensures
            r.files.wf(),
            r.files@ == Map::<Seq<char>, crate::common::FileView>::empty(),
            r.files.total_space() == crate::store::DEFAULT_TOTAL_SPACE_BYTES,
            r.files.file_limit() == crate::store::DEFAULT_MAX_FILES,
    {
        FSState::new()
    }
}

/// The name script callers see for an event's kind.
pub open spec fn event_type_name(e: EventView) -> Seq<char> {
    match e {
        EventView::Created(..) => "created"@,
        EventView::Modified(..) => "modified"@,
        EventView::Deleted(..) => "deleted"@,
    }
}

/// The name script callers see for an object type.
pub open spec fn object_type_name(t: ObjectType) -> Seq<char> {
    match t {
        ObjectType::File => "file"@,
        ObjectType::Directory => "directory"@,
    }
}

/// The path and object type that an event reports.
pub open spec fn event_subject(e: EventView) -> (Seq<char>, ObjectType) {
    match e {
        EventView::Created(p, t) => (p, t),
        EventView::Modified(p, t) => (p, t),
        EventView::Deleted(p, t) => (p, t),
    }
}

impl FileSystemEvent {
    /// The three strings that report `event` to script callers.
    pub fn from_event(event: FSEvent) -> (r: FileSystemEvent)
        ensures
            r.event_type@ == event_type_name(event@),
            r.path@ == event_subject(event@).0,
            r.object_type@ == object_type_name(event_subject(event@).1),
    {
        let (event_type, path, object_type) = match event {
            FSEvent::Created { path, object_type } => ("created", path, object_type),
            FSEvent::Modified { path, object_type } => ("modified", path, object_type),
            FSEvent::Deleted { path, object_type } => ("deleted", path, object_type),
        };
        let object_type = match object_type {
            ObjectType::File => "file",
            ObjectType::Directory => "directory",
        };
        FileSystemEvent {
            event_type: String::from_str(event_type),
            path,
            object_type: String::from_str(object_type),
        }
    }
}

} // verus!
