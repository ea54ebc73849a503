//! Coalesced background saving of a project held in memory: a change is
//! shown at once and written afterwards. While one write is in flight,
//! newer snapshots replace the pending one, so writes never interleave and
//! the last snapshot is the last one written.

use vstd::prelude::*;

use crate::project::HexenProject;

verus! {

pub struct SaveQueue {
    /// The newest snapshot not yet handed to the writer.
    pub unsaved: Option<HexenProject>,
    /// Whether a writer is running.
    pub writing: bool,
}

/// The queue once `project` is offered: it is the one pending, and a
/// writer is running.
pub open spec fn after_offer(q: SaveQueue, project: HexenProject) -> SaveQueue {
    SaveQueue { unsaved: Some(project), writing: true }
}

/// The queue once the writer took what was pending: nothing is; the
/// writer keeps running only if it took something.
pub open spec fn after_take(q: SaveQueue) -> SaveQueue {
    SaveQueue { unsaved: None, writing: q.unsaved is Some && q.writing }
}

impl SaveQueue {
    /// Nothing pending, no writer running.
    pub fn new() -> (q: Self)
        ensures
            q.unsaved is None,
            !q.writing,
    {
        SaveQueue { unsaved: None, writing: false }
    }

    /// Queues `project` to be saved, replacing any snapshot still pending;
    /// `true` when no writer is running and the caller must start one.
    pub fn offer(&mut self, project: HexenProject) -> (start_writer: bool)
        ensures
            *final(self) == after_offer(*old(self), project),
            start_writer == !old(self).writing,
    {
        self.unsaved = Some(project);
        let was_writing = self.writing;
        self.writing = true;
        !was_writing
    }

    /// The snapshot the writer saves next; `None` when nothing is pending,
    /// and the writer stops.
    pub fn next_to_write(&mut self) -> (next: Option<HexenProject>)
        ensures
            next == old(self).unsaved,
            *final(self) == after_take(*old(self)),
    {
        let next = self.unsaved.take();
        if next.is_none() {
            self.writing = false;
        }
        next
    }
}

} // verus!
