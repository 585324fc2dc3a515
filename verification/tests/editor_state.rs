use beditor::editor_state::{
    game_control, global_input_actions, on_close_requested, shown_game_controls, stateful_entity_owner,
    EditorActionPresses, EditorState, EntityOwner, GameControls, KeyboardFocus, SimulationState, UiState,
};

fn press(toggle: bool, stop: bool) -> EditorActionPresses {
    EditorActionPresses { simulation_toggle: toggle, stop_simulation: stop }
}

const LIVE: EditorState = EditorState::Simulating(SimulationState::Live);
const IDLE: EditorState = EditorState::Simulating(SimulationState::Idle);

#[test]
fn shortcuts_from_editing() {
    assert_eq!(global_input_actions(EditorState::Editing, &[press(true, false)]), Some(LIVE));
    assert_eq!(global_input_actions(EditorState::Editing, &[press(false, true)]), None);
    assert_eq!(global_input_actions(EditorState::Editing, &[press(true, true)]), Some(LIVE));
    assert_eq!(global_input_actions(EditorState::Editing, &[]), None);
}

#[test]
fn shortcuts_while_simulating() {
    assert_eq!(global_input_actions(LIVE, &[press(true, false)]), Some(IDLE));
    assert_eq!(global_input_actions(LIVE, &[press(true, true)]), Some(EditorState::Editing));
    assert_eq!(global_input_actions(IDLE, &[press(false, true), press(true, false)]), Some(IDLE));
    assert_eq!(global_input_actions(IDLE, &[press(false, false)]), None);
}

#[test]
fn game_controls_by_state() {
    assert_eq!(shown_game_controls(EditorState::Editing), GameControls { play: true, pause: false, stop: false });
    assert_eq!(shown_game_controls(IDLE), GameControls { play: true, pause: false, stop: true });
    assert_eq!(shown_game_controls(LIVE), GameControls { play: false, pause: true, stop: true });
    assert_eq!(shown_game_controls(EditorState::Exiting), GameControls { play: false, pause: false, stop: false });
    let all = GameControls { play: true, pause: true, stop: true };
    assert_eq!(game_control(EditorState::Editing, all), Some(LIVE));
    assert_eq!(game_control(IDLE, all), Some(EditorState::Editing));
    assert_eq!(game_control(LIVE, GameControls { play: true, pause: true, stop: false }), Some(IDLE));
    assert_eq!(game_control(EditorState::SimulationPrep, all), None);
}

#[test]
fn close_and_owner() {
    assert_eq!(on_close_requested(2), Some(EditorState::Exiting));
    assert_eq!(on_close_requested(0), None);
    assert_eq!(stateful_entity_owner(EditorState::Editing), Some(EntityOwner::Editor));
    assert_eq!(stateful_entity_owner(EditorState::SimulationPrep), Some(EntityOwner::Simulation));
    assert_eq!(stateful_entity_owner(IDLE), Some(EntityOwner::Simulation));
    assert_eq!(stateful_entity_owner(EditorState::Exiting), None);
}

#[test]
fn keyboard_focus() {
    assert_eq!(KeyboardFocus::from_inputs(&[false, true], false), KeyboardFocus::Focused);
    assert_eq!(KeyboardFocus::from_inputs(&[], true), KeyboardFocus::Focused);
    assert_eq!(KeyboardFocus::from_inputs(&[false], false), KeyboardFocus::Unfocused);
}

#[test]
fn ui_state_hover_frames() {
    let mut s = UiState::new();
    assert!(!s.hovered());
    s.mark_hovered();
    assert!(s.hovered());
    s.clear();
    assert!(!s.hovered());
    assert!(s.was_hovered());
    s.clear();
    assert!(!s.was_hovered());
}
