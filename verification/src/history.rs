//! Undo/redo over project snapshots: every command that lands pushes the
//! project it replaced; undo steps back one snapshot, redo forward again,
//! and a new command drops what could have been redone.

use vstd::prelude::*;

use crate::commands::{apply_command, apply_command_spec, Command};
use crate::mutations::MutationError;
use crate::project::{HexenProject, ProjectView};

verus! {

/// The snapshots of a [`History`]: those before the current project
/// (oldest first), the current one, and those that redo would restore
/// (the next one last).
pub struct HistoryView {
    pub past: Seq<ProjectView>,
    pub present: ProjectView,
    pub future: Seq<ProjectView>,
}

/// A command landed, leaving `next`: the old project becomes the latest
/// past one and nothing is left to redo.
pub open spec fn after_execute(h: HistoryView, next: ProjectView) -> HistoryView {
    HistoryView { past: h.past.push(h.present), present: next, future: Seq::empty() }
}

/// One step back, when there is one.
pub open spec fn after_undo(h: HistoryView) -> HistoryView {
    if h.past.len() == 0 {
        h
    } else {
        HistoryView {
            past: h.past.drop_last(),
            present: h.past.last(),
            future: h.future.push(h.present),
        }
    }
}

/// One step forward again, when there is one.
pub open spec fn after_redo(h: HistoryView) -> HistoryView {
    if h.future.len() == 0 {
        h
    } else {
        HistoryView {
            past: h.past.push(h.present),
            present: h.future.last(),
            future: h.future.drop_last(),
        }
    }
}

pub open spec fn projects_view(v: Seq<HexenProject>) -> Seq<ProjectView> {
    v.map_values(|p: HexenProject| p@)
}

/// The undo/redo history of one project.
pub struct History {
    past: Vec<HexenProject>,
    present: HexenProject,
    future: Vec<HexenProject>,
}

impl View for History {
    type V = HistoryView;

    closed spec fn view(&self) -> HistoryView {
        HistoryView {
            past: projects_view(self.past@),
            present: self.present@,
            future: projects_view(self.future@),
        }
    }
}

impl History {
    /// A history that starts at `project`, with nothing to undo or redo.
    pub fn new(project: HexenProject) -> (h: Self)
        ensures
            h@ == (HistoryView { past: Seq::empty(), present: project@, future: Seq::empty() }),
    {
        let h = History { past: Vec::new(), present: project, future: Vec::new() };
        proof {
            assert(projects_view(h.past@) =~= Seq::<ProjectView>::empty());
            assert(projects_view(h.future@) =~= Seq::<ProjectView>::empty());
        }
        h
    }

    /// The current project.
    pub fn current(&self) -> (p: &HexenProject)
        ensures
            p@ == self@.present,
    {
        &self.present
    }

    /// Whether there is a step to undo.
    pub fn can_undo(&self) -> (res: bool)
        ensures
            res == (self@.past.len() > 0),
    {
        self.past.len() > 0
    }

    /// Whether there is a step to redo.
    pub fn can_redo(&self) -> (res: bool)
        ensures
            res == (self@.future.len() > 0),
    {
        self.future.len() > 0
    }

    /// Applies `command` to the current project. When it lands, the
    /// result becomes current; when it fails, nothing changes.
    pub fn execute(&mut self, command: Command) -> (r: Result<(), MutationError>)
        ensures
            apply_command_spec(old(self)@.present, final(self)@.present, command, r),
            r is Ok ==> final(self)@ == after_execute(old(self)@, final(self)@.present),
            r is Err ==> final(self)@ == old(self)@,
    {
        let mut next = self.present.clone();
        let r = apply_command(&mut next, command);
        match r {
            Ok(()) => {
                let ghost before = self@;
                let mut prev = next;
                std::mem::swap(&mut prev, &mut self.present);
                self.past.push(prev);
                self.future = Vec::new();
                proof {
                    assert(projects_view(self.past@) =~= before.past.push(before.present));
                    assert(projects_view(self.future@) =~= Seq::<ProjectView>::empty());
                }
                Ok(())
            },
            Err(e) => Err(e),
        }
    }

    /// Steps back to the previous project; `false` when there is none.
    pub fn undo(&mut self) -> (stepped: bool)
        ensures
            stepped == (old(self)@.past.len() > 0),
            final(self)@ == after_undo(old(self)@),
    {
        let ghost before = self@;
        match self.past.pop() {
            Some(mut prev) => {
                std::mem::swap(&mut prev, &mut self.present);
                self.future.push(prev);
                proof {
                    assert(projects_view(self.past@) =~= before.past.drop_last());
                    assert(projects_view(self.future@) =~= before.future.push(before.present));
                }
                true
            },
            None => false,
        }
    }

    /// Steps forward to the project an undo left; `false` when there is
    /// none.
    pub fn redo(&mut self) -> (stepped: bool)
        ensures
            stepped == (old(self)@.future.len() > 0),
            final(self)@ == after_redo(old(self)@),
    {
        let ghost before = self@;
        match self.future.pop() {
            Some(mut next) => {
                std::mem::swap(&mut next, &mut self.present);
                self.past.push(next);
                proof {
                    assert(projects_view(self.future@) =~= before.future.drop_last());
                    assert(projects_view(self.past@) =~= before.past.push(before.present));
                }
                true
            },
            None => false,
        }
    }
}

} // verus!
