//! The editor's client-side UI state and every rule about which switch
//! resets which, as plain methods.

use vstd::prelude::*;

verus! {

/// What the editor shows and which tools are armed.
#[derive(Debug, PartialEq)]
pub struct UiState {
    pub current_location_id: Option<String>,
    pub selected_link_id: Option<String>,
    /// Gates every mutating surface; off by default.
    pub edit_mode: bool,
    /// The independent fog-of-war switch.
    pub gm_mode: bool,
    /// The fog paint tool's armed state.
    pub painting_fog: bool,
    /// A view toggle that carries across projects and locations.
    pub grid_visible: bool,
    /// The Add Location tool's armed state.
    pub placing_location: bool,
}

/// The state a fresh editor starts in.
pub open spec fn default_ui_state() -> UiState {
    UiState {
        current_location_id: None,
        selected_link_id: None,
        edit_mode: false,
        gm_mode: false,
        painting_fog: false,
        grid_visible: true,
        placing_location: false,
    }
}

impl Default for UiState {
    fn default() -> (s: Self)
        ensures
            s == default_ui_state(),
    {
        UiState {
            current_location_id: None,
            selected_link_id: None,
            edit_mode: false,
            gm_mode: false,
            painting_fog: false,
            grid_visible: true,
            placing_location: false,
        }
    }
}

impl UiState {
    /// A different project was opened: everything but the view toggles
    /// goes back to its defaults.
    pub fn open_project(&mut self)
        ensures
            *final(self) == (UiState { grid_visible: old(self).grid_visible, ..default_ui_state() }),
    {
        let grid_visible = self.grid_visible;
        *self = UiState {
            current_location_id: None,
            selected_link_id: None,
            edit_mode: false,
            gm_mode: false,
            painting_fog: false,
            grid_visible,
            placing_location: false,
        };
    }

    /// Moves to another location, clearing the link selection and
    /// disarming both tools.
    pub fn set_current_location(&mut self, id: Option<String>)
        ensures
            *final(self) == (UiState {
                current_location_id: id,
                selected_link_id: None,
                placing_location: false,
                painting_fog: false,
                ..*old(self)
            }),
    {
        self.current_location_id = id;
        self.selected_link_id = None;
        self.placing_location = false;
        self.painting_fog = false;
    }

    pub fn select_link(&mut self, id: Option<String>)
        ensures
            *final(self) == (UiState { selected_link_id: id, ..*old(self) }),
    {
        self.selected_link_id = id;
    }

    /// Switches edit mode, clearing the link selection and disarming both
    /// tools.
    pub fn set_edit_mode(&mut self, edit_mode: bool)
        ensures
            *final(self) == (UiState {
                edit_mode,
                selected_link_id: None,
                placing_location: false,
                painting_fog: false,
                ..*old(self)
            }),
    {
        self.edit_mode = edit_mode;
        self.selected_link_id = None;
        self.placing_location = false;
        self.painting_fog = false;
    }

    /// Switches GM mode, disarming the fog paint tool.
    pub fn set_gm_mode(&mut self, gm_mode: bool)
        ensures
            *final(self) == (UiState { gm_mode, painting_fog: false, ..*old(self) }),
    {
        self.gm_mode = gm_mode;
        self.painting_fog = false;
    }

    /// Arms or disarms the fog paint tool, clearing the link selection.
    pub fn set_painting_fog(&mut self, painting_fog: bool)
        ensures
            *final(self) == (UiState { painting_fog, selected_link_id: None, ..*old(self) }),
    {
        self.painting_fog = painting_fog;
        self.selected_link_id = None;
    }

    pub fn set_grid_visible(&mut self, grid_visible: bool)
        ensures
            *final(self) == (UiState { grid_visible, ..*old(self) }),
    {
        self.grid_visible = grid_visible;
    }

    /// Arms or disarms the Add Location tool, clearing the link selection.
    pub fn set_placing_location(&mut self, placing_location: bool)
        ensures
            *final(self) == (UiState { placing_location, selected_link_id: None, ..*old(self) }),
    {
        self.placing_location = placing_location;
        self.selected_link_id = None;
    }
}

} // verus!
