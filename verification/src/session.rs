//! The live state of one open project, shared by every client watching
//! it: the project, its resolved content, and its undo/redo history.
//! Each change lands here first; the caller then broadcasts the new state
//! and writes the project back.

use vstd::prelude::*;

use crate::commands::{apply_command_spec, Command};
use crate::content::resolve_inline_content;
use crate::history::{after_execute, after_redo, after_undo, History, HistoryView};
use crate::keyed::KeyedMap;
use crate::mutations::MutationError;
use crate::project::{
    HexenProject, InlineLocationContent, Location, LocationContent, LocationContentKind,
    LocationView, ResolvedContent,
};
use crate::project_io::{is_inline_resolution, OpenedProject};

verus! {

pub struct ProjectSession {
    pub path: String,
    pub project: HexenProject,
    pub resolved_content: KeyedMap<ResolvedContent>,
    pub resolve_errors: KeyedMap<String>,
    pub warnings: Vec<String>,
    /// Undo/redo history, shared by every client on this project.
    pub history: History,
}

/// A Location's inline content, if that is what it has.
pub open spec fn inline_of(l: LocationView) -> Option<InlineLocationContent> {
    match l.content {
        Some(LocationContent { kind: Some(LocationContentKind::Inline(c)) }) => Some(c),
        _ => None,
    }
}

/// The inline content of the last Location with id `id` that has some.
pub open spec fn last_inline(locs: Seq<LocationView>, id: Seq<char>) -> Option<InlineLocationContent>
    decreases locs.len(),
{
    if locs.len() == 0 {
        None
    } else if locs.last().id == id && inline_of(locs.last()) is Some {
        inline_of(locs.last())
    } else {
        last_inline(locs.drop_last(), id)
    }
}

/// Every Location with inline content has it re-resolved; every other
/// entry stays as it was.
pub open spec fn refreshed_content(
    before: Map<Seq<char>, ResolvedContent>,
    after: Map<Seq<char>, ResolvedContent>,
    locs: Seq<LocationView>,
) -> bool {
    forall|k: Seq<char>|
        #![trigger after.dom().contains(k)]
        #![trigger last_inline(locs, k)]
        match last_inline(locs, k) {
            Some(c) => after.dom().contains(k) && is_inline_resolution(after[k], c),
            None => after.dom().contains(k) == before.dom().contains(k) && (before.dom().contains(k)
                ==> after[k] == before[k]),
        }
}

/// Every Location with inline content has its resolution error dropped;
/// the rest stay.
pub open spec fn refreshed_errors(
    before: Map<Seq<char>, String>,
    after: Map<Seq<char>, String>,
    locs: Seq<LocationView>,
) -> bool {
    forall|k: Seq<char>|
        #![trigger after.dom().contains(k)]
        #![trigger last_inline(locs, k)]
        after.dom().contains(k) == (before.dom().contains(k) && last_inline(locs, k) is None) && (
        after.dom().contains(k) ==> after[k] == before[k])
}

/// `after` is `before` settled on its history's current project: that
/// project in place, its inline content re-resolved, the rest as it was.
pub open spec fn settled(before: ProjectSession, after: ProjectSession) -> bool {
    &&& after.project@ == after.history@.present
    &&& after.path == before.path
    &&& after.warnings == before.warnings
    &&& refreshed_content(
        before.resolved_content.map(),
        after.resolved_content.map(),
        after.project@.locations,
    )
    &&& refreshed_errors(before.resolve_errors.map(), after.resolve_errors.map(), after.project@.locations)
}

/// Nothing about the session changed.
pub open spec fn unchanged(before: ProjectSession, after: ProjectSession) -> bool {
    &&& after.project == before.project
    &&& after.path == before.path
    &&& after.warnings == before.warnings
    &&& after.resolved_content.map() == before.resolved_content.map()
    &&& after.resolve_errors.map() == before.resolve_errors.map()
    &&& after.history@ == before.history@
}

/// Re-resolves the inline content of `locations`.
fn refresh_inline(
    locations: &Vec<Location>,
    resolved: &mut KeyedMap<ResolvedContent>,
    errors: &mut KeyedMap<String>,
)
    ensures
        refreshed_content(
            old(resolved).map(),
            final(resolved).map(),
            locations@.map_values(|l: Location| l@),
        ),
        refreshed_errors(old(errors).map(), final(errors).map(), locations@.map_values(|l: Location| l@)),
{
    let ghost locs = locations@.map_values(|l: Location| l@);
    let ghost init_r = resolved.map();
    let ghost init_e = errors.map();
    let n = locations.len();
    let mut i: usize = 0;
    proof {
        assert(locs.take(0) =~= Seq::<LocationView>::empty());
    }
    while i < n
        invariant
            n == locations@.len(),
            locs == locations@.map_values(|l: Location| l@),
            i <= n,
            refreshed_content(init_r, resolved.map(), locs.take(i as int)),
            refreshed_errors(init_e, errors.map(), locs.take(i as int)),
        decreases n - i,
    {
        let l = &locations[i];
        let ghost before_r = resolved.map();
        let ghost before_e = errors.map();
        proof {
            assert(locs.take(i + 1).drop_last() =~= locs.take(i as int));
            assert(locs.take(i + 1).last() == l@);
        }
        match &l.content {
            Some(c) => match &c.kind {
                Some(LocationContentKind::Inline(inline)) => {
                    resolved.insert(l.id.clone(), resolve_inline_content(inline));
                    errors.remove(l.id.as_str());
                },
                _ => {},
            },
            None => {},
        }
        proof {
            let t = locs.take(i + 1);
            assert forall|k: Seq<char>| #[trigger] last_inline(t, k) == if k == l@.id && inline_of(l@) is Some {
                inline_of(l@)
            } else {
                last_inline(locs.take(i as int), k)
            } by {}
        }
        i = i + 1;
    }
    proof {
        assert(locs.take(n as int) =~= locs);
    }
}

/// Puts the history's current project in place and re-resolves its
/// inline content.
fn settle(session: &mut ProjectSession)
    ensures
        settled(*old(session), *final(session)),
        final(session).history@ == old(session).history@,
{
    session.project = session.history.current().clone();
    refresh_inline(&session.project.locations, &mut session.resolved_content, &mut session.resolve_errors);
}

impl ProjectSession {
    /// A session on the project opened from `path`, with nothing to undo.
    pub fn open(path: String, opened: OpenedProject) -> (s: Self)
        ensures
            s.path == path,
            s.project == opened.project,
            s.warnings == opened.warnings,
            s.resolved_content.map() == opened.resolved_content.map(),
            s.resolve_errors.map() == opened.resolve_errors.map(),
            s.history@ == (HistoryView {
                past: Seq::empty(),
                present: opened.project@,
                future: Seq::empty(),
            }),
    {
        let history = History::new(opened.project.clone());
        ProjectSession {
            path,
            project: opened.project,
            resolved_content: opened.resolved_content,
            resolve_errors: opened.resolve_errors,
            warnings: opened.warnings,
            history,
        }
    }
}

/// Applies `command` through the history. When it lands the session
/// settles on the result, to be broadcast and saved; when it fails
/// nothing changes.
pub fn apply_and_broadcast(session: &mut ProjectSession, command: Command) -> (r: Result<(), MutationError>)
    ensures
        apply_command_spec(old(session).history@.present, final(session).history@.present, command, r),
        r is Ok ==> final(session).history@ == after_execute(
            old(session).history@,
            final(session).history@.present,
        ) && settled(*old(session), *final(session)),
        r is Err ==> unchanged(*old(session), *final(session)),
{
    let r = session.history.execute(command);
    if r.is_ok() {
        settle(session);
    }
    r
}

/// Steps the history back; `true` when it did, and the session settled
/// on the earlier project, to be broadcast and saved.
pub fn undo(session: &mut ProjectSession) -> (stepped: bool)
    ensures
        stepped == (old(session).history@.past.len() > 0),
        final(session).history@ == after_undo(old(session).history@),
        stepped ==> settled(*old(session), *final(session)),
        !stepped ==> unchanged(*old(session), *final(session)),
{
    let stepped = session.history.undo();
    if stepped {
        settle(session);
    }
    stepped
}

/// Steps the history forward again; `true` when it did, and the session
/// settled on that project, to be broadcast and saved.
pub fn redo(session: &mut ProjectSession) -> (stepped: bool)
    ensures
        stepped == (old(session).history@.future.len() > 0),
        final(session).history@ == after_redo(old(session).history@),
        stepped ==> settled(*old(session), *final(session)),
        !stepped ==> unchanged(*old(session), *final(session)),
{
    let stepped = session.history.redo();
    if stepped {
        settle(session);
    }
    stepped
}

} // verus!
