//! The editor camera's mouse drags: when orbiting and panning start and stop,
//! and when the cursor is hidden for them.
use vstd::prelude::*;
use crate::editor_state::UiState;

verus! {

/// Whether a drag of the editor camera (orbit or pan) is going on.
#[derive(Debug, Clone, Copy, PartialEq, Eq, Structural)]
pub enum DragState {
    Active,
    Inactive,
}

/// What happens to the cursor over the editor view.
#[derive(Debug, Clone, Copy, PartialEq, Eq, Structural)]
pub enum CursorChange {
    Keep,
    Hide,
    Show,
}

/// The state of the orbit and pan buttons of one camera in this frame.
#[derive(Debug, Clone, Copy, PartialEq, Eq, Structural)]
pub struct DragButtons {
    pub orbit_just_pressed: bool,
    pub pan_just_pressed: bool,
    pub orbit_just_released: bool,
    pub pan_just_released: bool,
    /// The orbit button is up.
    pub orbit_released: bool,
    /// The pan button is up.
    pub pan_released: bool,
}

/// What a frame's buttons change: the cursor, and the next orbit and pan
/// states where they are set.
#[derive(Debug, Clone, Copy, PartialEq, Eq, Structural)]
pub struct DragUpdate {
    pub cursor: CursorChange,
    pub orbit: Option<DragState>,
    pub pan: Option<DragState>,
}

/// The camera moves with the mouse while it orbits or pans.
pub fn mouse_movement_active(orbit: DragState, pan: DragState) -> (active: bool)
    ensures
        active == (orbit == DragState::Active || pan == DragState::Active),
{
    match (orbit, pan) {
        (DragState::Inactive, DragState::Inactive) => false,
        _ => true,
    }
}

/// The mouse drives the camera only while it hovers one of the editor views.
pub fn mouse_hovered_in_editor_view(views: &[UiState]) -> (hovered: bool)
    ensures
        hovered == exists|i: int| 0 <= i < views@.len() && #[trigger] views@[i].hovered_spec(),
{
    let mut i: usize = 0;
    while i < views.len()
        invariant
            i <= views@.len(),
            forall|j: int| 0 <= j < i ==> !#[trigger] views@[j].hovered_spec(),
        decreases views@.len() - i,
    {
        if views[i].hovered() {
            return true;
        }
        i = i + 1;
    }
    false
}

/// What a frame's presses change: a press of the orbit or the pan button
/// starts that drag, and either press hides the cursor.
pub open spec fn started(buttons: DragButtons) -> DragUpdate {
    DragUpdate {
        cursor: if buttons.orbit_just_pressed || buttons.pan_just_pressed {
            CursorChange::Hide
        } else {
            CursorChange::Keep
        },
        orbit: if buttons.orbit_just_pressed { Some(DragState::Active) } else { None },
        pan: if buttons.pan_just_pressed { Some(DragState::Active) } else { None },
    }
}

/// Whether a release ends the last drag that was held: the cursor comes back
/// only when the other button is up too.
pub open spec fn last_drag_ended(buttons: DragButtons) -> bool {
    (buttons.orbit_just_released && buttons.pan_released) || (buttons.pan_just_released
        && buttons.orbit_released)
}

/// What a frame's releases change: a release of the orbit or the pan button
/// ends that drag, and the cursor is shown again once neither is held.
pub open spec fn ended(buttons: DragButtons) -> DragUpdate {
    DragUpdate {
        cursor: if last_drag_ended(buttons) {
            CursorChange::Show
        } else {
            CursorChange::Keep
        },
        orbit: if buttons.orbit_just_released { Some(DragState::Inactive) } else { None },
        pan: if buttons.pan_just_released { Some(DragState::Inactive) } else { None },
    }
}

/// The drags that this frame's presses start.
pub fn drag_started(buttons: DragButtons) -> (update: DragUpdate)
    ensures
        update == started(buttons),
        update.cursor == (if buttons.orbit_just_pressed || buttons.pan_just_pressed {
            CursorChange::Hide
        } else {
            CursorChange::Keep
        }),
        update.orbit == (if buttons.orbit_just_pressed { Some(DragState::Active) } else { None }),
        update.pan == (if buttons.pan_just_pressed { Some(DragState::Active) } else { None }),
{
    let cursor = if buttons.orbit_just_pressed || buttons.pan_just_pressed {
        CursorChange::Hide
    } else {
        CursorChange::Keep
    };
    let orbit = if buttons.orbit_just_pressed { Some(DragState::Active) } else { None };
    let pan = if buttons.pan_just_pressed { Some(DragState::Active) } else { None };
    DragUpdate { cursor, orbit, pan }
}

/// The drags that this frame's releases end.
pub fn drag_ended(buttons: DragButtons) -> (update: DragUpdate)
    ensures
        update == ended(buttons),
        update.cursor == (if (buttons.orbit_just_released && buttons.pan_released) || (
        buttons.pan_just_released && buttons.orbit_released) {
            CursorChange::Show
        } else {
            CursorChange::Keep
        }),
        update.orbit == (if buttons.orbit_just_released { Some(DragState::Inactive) } else { None }),
        update.pan == (if buttons.pan_just_released { Some(DragState::Inactive) } else { None }),
{
    let show = (buttons.orbit_just_released && buttons.pan_released) || (buttons.pan_just_released
        && buttons.orbit_released);
    let cursor = if show { CursorChange::Show } else { CursorChange::Keep };
    let orbit = if buttons.orbit_just_released { Some(DragState::Inactive) } else { None };
    let pan = if buttons.pan_just_released { Some(DragState::Inactive) } else { None };
    DragUpdate { cursor, orbit, pan }
}

/// A state after an update: the one it sets, else the one before.
pub open spec fn state_after(before: DragState, set: Option<DragState>) -> DragState {
    match set {
        Some(s) => s,
        None => before,
    }
}

/// Pressing one drag button while the camera is still hides the cursor and
/// starts the mouse movement; releasing that button with the other up shows
/// the cursor and leaves both drags inactive.
pub proof fn law_drag_round_trip(press: DragButtons, release: DragButtons)
    requires
        press.orbit_just_pressed != press.pan_just_pressed,
        release.orbit_just_released == press.orbit_just_pressed,
        release.pan_just_released == press.pan_just_pressed,
        release.orbit_released,
        release.pan_released,
    ensures
        ({
            let up = started(press);
            let down = ended(release);
            let orbit = state_after(DragState::Inactive, up.orbit);
            let pan = state_after(DragState::Inactive, up.pan);
            &&& up.cursor == CursorChange::Hide
            &&& (orbit == DragState::Active || pan == DragState::Active)
            &&& down.cursor == CursorChange::Show
            &&& state_after(orbit, down.orbit) == DragState::Inactive
            &&& state_after(pan, down.pan) == DragState::Inactive
        }),
{
}

} // verus!
