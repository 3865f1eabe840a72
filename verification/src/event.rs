//! What the probes report: a file operation and the paths it was called with.

use vstd::prelude::*;

verus! {

/// A file operation that is probed.
#[derive(Clone, Copy, Debug, PartialEq, Eq, Structural)]
pub enum EventType {
    Unlink,
    Create,
    Rename,
}

/// A call of a file operation. The paths are NUL-terminated strings in buffers
/// of `N` bytes; only a rename has a target path.
#[derive(Clone, Copy, Debug)]
pub struct Event<const N: usize> {
    pub event: EventType,
    pub src_path: [u8; N],
    pub tgt_path: [u8; N],
}

/// The mathematical value of an [`Event`].
pub struct EventModel {
    pub event: EventType,
    pub src_path: Seq<u8>,
    pub tgt_path: Seq<u8>,
}

impl<const N: usize> View for Event<N> {
    type V = EventModel;

    open spec fn view(&self) -> EventModel {
        EventModel { event: self.event, src_path: self.src_path@, tgt_path: self.tgt_path@ }
    }
}

/// The value of an event has each of its parts, with paths of the size of their
/// buffers.
pub proof fn events_show_their_parts<const N: usize>(event: Event<N>)
    ensures
        event@.event == event.event,
        event@.src_path == event.src_path@,
        event@.tgt_path == event.tgt_path@,
        event@.src_path.len() == N,
        event@.tgt_path.len() == N,
{
}

} // verus!
