//! The command union a client sends, and the reducer that applies one.

use vstd::prelude::*;

use crate::mutations::{
    add_location, add_location_link, add_location_link_spec, ensure_location, fog_change_spec,
    hidden_from, revealed_with, save_grid, save_image, save_link, save_link_spec,
    save_location_content, save_location_content_spec, set_field_spec, set_fog, set_fog_cells,
    with_fog, with_grid, with_image, InlineContentPatch, LinkPatch, MutationError,
};
use crate::project::{strings_view, FloatBits, FogOfWar, Grid, HexenProject, ImageRef, LocationView, ProjectView};

verus! {

#[derive(Debug, PartialEq)]
pub struct SaveLinkCommand {
    pub location_id: String,
    pub link_id: String,
    pub patch: Option<LinkPatch>,
}

#[derive(Debug, PartialEq)]
pub struct SaveLocationContentCommand {
    pub location_id: String,
    pub patch: Option<InlineContentPatch>,
}

#[derive(Debug, PartialEq)]
pub struct AddLocationLinkCommand {
    pub parent_location_id: String,
    pub target_location_id: String,
    pub x: FloatBits,
    pub y: FloatBits,
    pub link_type: String,
}

#[derive(Debug, PartialEq)]
pub struct SaveGridCommand {
    pub location_id: String,
    pub grid: Option<Grid>,
}

#[derive(Debug, PartialEq)]
pub struct SaveImageCommand {
    pub location_id: String,
    pub image: Option<ImageRef>,
}

#[derive(Debug, PartialEq)]
pub struct SetFogCommand {
    pub location_id: String,
    pub fog: Option<FogOfWar>,
}

#[derive(Debug, PartialEq)]
pub struct SetFogCellsCommand {
    pub location_id: String,
    pub cells: Vec<String>,
    pub revealed: bool,
}

#[derive(Debug, PartialEq)]
pub struct AddLocationCommand {
    pub location_id: String,
}

#[derive(Debug, PartialEq)]
pub enum CommandKind {
    SaveLink(SaveLinkCommand),
    SaveLocationContent(SaveLocationContentCommand),
    AddLocationLink(AddLocationLinkCommand),
    SaveGrid(SaveGridCommand),
    SaveImage(SaveImageCommand),
    SetFog(SetFogCommand),
    SetFogCells(SetFogCellsCommand),
    AddLocation(AddLocationCommand),
}

/// One edit of a project, as a client sends it.
#[derive(Debug, PartialEq)]
pub struct Command {
    pub kind: Option<CommandKind>,
}

/// A patch that changes nothing.
pub open spec fn empty_link_patch() -> LinkPatch {
    LinkPatch {
        id: None,
        target: None,
        x: None,
        y: None,
        link_type: None,
        icon: None,
        color: None,
        hidden: None,
    }
}

pub open spec fn empty_content_patch() -> InlineContentPatch {
    InlineContentPatch { title: None, body: None }
}

/// What applying `command` to a project in state `old` does.
pub open spec fn apply_command_spec(
    old: ProjectView,
    new: ProjectView,
    command: Command,
    r: Result<(), MutationError>,
) -> bool {
    match command.kind {
        Some(CommandKind::SaveLink(c)) => save_link_spec(
            old,
            new,
            c.location_id@,
            c.link_id@,
            match c.patch {
                Some(p) => p,
                None => empty_link_patch(),
            },
            r,
        ),
        Some(CommandKind::SaveLocationContent(c)) => save_location_content_spec(
            old,
            new,
            c.location_id@,
            match c.patch {
                Some(p) => p,
                None => empty_content_patch(),
            },
            r,
        ),
        Some(CommandKind::AddLocationLink(c)) => add_location_link_spec(
            old,
            new,
            c.parent_location_id@,
            c.target_location_id@,
            c.x,
            c.y,
            c.link_type,
            r,
        ),
        Some(CommandKind::SaveGrid(c)) => set_field_spec(
            old,
            new,
            c.location_id@,
            r,
            |l: LocationView| with_grid(l, c.grid),
        ),
        Some(CommandKind::SaveImage(c)) => set_field_spec(
            old,
            new,
            c.location_id@,
            r,
            |l: LocationView| with_image(l, c.image),
        ),
        Some(CommandKind::SetFog(c)) => set_field_spec(
            old,
            new,
            c.location_id@,
            r,
            |l: LocationView|
                with_fog(
                    l,
                    match c.fog {
                        Some(f) => Some(f@),
                        None => None,
                    },
                ),
        ),
        Some(CommandKind::SetFogCells(c)) => fog_change_spec(
            old,
            new,
            c.location_id@,
            r,
            |cells: Seq<Seq<char>>|
                if c.revealed {
                    revealed_with(cells, strings_view(c.cells@))
                } else {
                    hidden_from(cells, strings_view(c.cells@))
                },
        ),
        Some(CommandKind::AddLocation(c)) => r is Ok && new == ensure_location(old, c.location_id@),
        None => r matches Err(MutationError::EmptyCommand) && new == old,
    }
}

/// Applies one command to `project`; on an error the project is unchanged.
pub fn apply_command(project: &mut HexenProject, command: Command) -> (r: Result<(), MutationError>)
    ensures
        apply_command_spec(old(project)@, final(project)@, command, r),
{
    match command.kind {
        Some(CommandKind::SaveLink(c)) => {
            let patch = match c.patch {
                Some(p) => p,
                None => LinkPatch {
                    id: None,
                    target: None,
                    x: None,
                    y: None,
                    link_type: None,
                    icon: None,
                    color: None,
                    hidden: None,
                },
            };
            save_link(project, c.location_id.as_str(), c.link_id.as_str(), patch)
        },
        Some(CommandKind::SaveLocationContent(c)) => {
            let patch = match c.patch {
                Some(p) => p,
                None => InlineContentPatch { title: None, body: None },
            };
            save_location_content(project, c.location_id.as_str(), patch)
        },
        Some(CommandKind::AddLocationLink(c)) => add_location_link(
            project,
            c.parent_location_id.as_str(),
            c.target_location_id.as_str(),
            c.x,
            c.y,
            c.link_type,
        ),
        Some(CommandKind::SaveGrid(c)) => save_grid(project, c.location_id.as_str(), c.grid),
        Some(CommandKind::SaveImage(c)) => save_image(project, c.location_id.as_str(), c.image),
        Some(CommandKind::SetFog(c)) => set_fog(project, c.location_id.as_str(), c.fog),
        Some(CommandKind::SetFogCells(c)) => set_fog_cells(
            project,
            c.location_id.as_str(),
            &c.cells,
            c.revealed,
        ),
        Some(CommandKind::AddLocation(c)) => add_location(project, c.location_id.as_str()),
        None => Err(MutationError::EmptyCommand),
    }
}

} // verus!
