use hexen::ui_state::UiState;

fn some(s: &str) -> Option<String> {
    Some(s.to_string())
}

#[test]
fn opening_a_project_resets_location_and_link_selection() {
    let mut s = UiState::default();
    s.set_current_location(some("somewhere"));
    s.select_link(some("something"));
    s.open_project();
    assert_eq!(s.current_location_id, None);
    assert_eq!(s.selected_link_id, None);
}

#[test]
fn switching_location_clears_link_selection_but_not_the_location() {
    let mut s = UiState::default();
    s.select_link(some("inn"));
    s.set_current_location(some("town"));
    assert_eq!(s.current_location_id, some("town"));
    assert_eq!(s.selected_link_id, None);
}

#[test]
fn starts_in_view_mode_with_gm_mode_off() {
    let s = UiState::default();
    assert!(!s.edit_mode);
    assert!(!s.gm_mode);
}

#[test]
fn opening_a_project_drops_back_to_view_mode_and_gm_off() {
    let mut s = UiState::default();
    s.set_edit_mode(true);
    s.set_gm_mode(true);
    s.open_project();
    assert!(!s.edit_mode);
    assert!(!s.gm_mode);
}

#[test]
fn switching_edit_mode_clears_link_selection() {
    let mut s = UiState::default();
    s.select_link(some("inn"));
    s.set_edit_mode(true);
    assert_eq!(s.selected_link_id, None);
    assert!(s.edit_mode);
}

#[test]
fn gm_mode_and_edit_mode_are_independent() {
    let mut s = UiState::default();
    s.set_edit_mode(false);
    s.set_gm_mode(true);
    assert!(!s.edit_mode && s.gm_mode);
    s.set_edit_mode(true);
    assert!(s.gm_mode);
}

#[test]
fn turning_off_gm_mode_disarms_the_fog_paint_tool() {
    let mut s = UiState::default();
    s.set_gm_mode(true);
    s.set_painting_fog(true);
    s.set_gm_mode(false);
    assert!(!s.painting_fog);
}

#[test]
fn turning_off_edit_mode_disarms_the_fog_paint_tool() {
    let mut s = UiState::default();
    s.set_gm_mode(true);
    s.set_edit_mode(true);
    s.set_painting_fog(true);
    s.set_edit_mode(false);
    assert!(!s.painting_fog);
}

#[test]
fn switching_location_disarms_both_tools() {
    let mut s = UiState::default();
    s.set_gm_mode(true);
    s.set_edit_mode(true);
    s.set_painting_fog(true);
    s.set_placing_location(true);
    s.set_current_location(some("inn"));
    assert!(!s.painting_fog);
    assert!(!s.placing_location);
}

#[test]
fn arming_either_tool_clears_link_selection() {
    let mut s = UiState::default();
    s.select_link(some("inn"));
    s.set_painting_fog(true);
    assert_eq!(s.selected_link_id, None);
    assert!(s.painting_fog);

    s.select_link(some("inn"));
    s.set_placing_location(true);
    assert_eq!(s.selected_link_id, None);
    assert!(s.placing_location);
}

#[test]
fn grid_is_visible_by_default_and_survives_opening_another_project() {
    let mut s = UiState::default();
    assert!(s.grid_visible);
    s.set_grid_visible(false);
    s.open_project();
    assert!(!s.grid_visible);
}

#[test]
fn leaving_edit_mode_exits_the_add_location_tool() {
    let mut s = UiState::default();
    s.set_edit_mode(true);
    s.set_placing_location(true);
    s.set_edit_mode(false);
    assert!(!s.placing_location);
}

#[test]
fn selecting_a_link_keeps_the_location_and_the_tools() {
    let mut s = UiState::default();
    s.set_current_location(some("town"));
    s.set_grid_visible(false);
    s.select_link(some("inn"));
    assert_eq!(s.current_location_id, some("town"));
    assert_eq!(s.selected_link_id, some("inn"));
    assert!(!s.grid_visible);
}
