//! The editor's run state and the decisions that move it: the play, pause
//! and stop buttons, the keyboard shortcuts, closing the window, and who owns
//! newly spawned entities.
use vstd::prelude::*;

verus! {

/// Whether a running simulation advances.
#[derive(Debug, Clone, Copy, PartialEq, Eq, Hash, Structural)]
pub enum SimulationState {
    Live,
    Idle,
}

/// What the editor is doing.
#[derive(Debug, Clone, Copy, PartialEq, Eq, Hash, Structural)]
pub enum EditorState {
    Editing,
    SimulationPrep,
    Simulating(SimulationState),
    Exiting,
}

/// Which editor shortcuts were just pressed on one input map.
#[derive(Debug, Clone, Copy, PartialEq, Eq, Structural)]
pub struct EditorActionPresses {
    /// `F5`
    pub simulation_toggle: bool,
    /// `Escape`
    pub stop_simulation: bool,
}

/// The state that the shortcuts of the first `n` input maps ask for, the
/// later ones overriding the earlier; `None` when none asks for anything.
pub open spec fn shortcut_target(current: EditorState, presses: Seq<EditorActionPresses>, n: int) -> Option<EditorState>
    decreases n,
{
    if n <= 0 {
        None
    } else {
        let before = shortcut_target(current, presses, n - 1);
        let p = presses[n - 1];
        let after_toggle = if p.simulation_toggle {
            if current == EditorState::Editing {
                Some(EditorState::Simulating(SimulationState::Live))
            } else {
                Some(EditorState::Simulating(SimulationState::Idle))
            }
        } else {
            before
        };
        if current != EditorState::Editing && p.stop_simulation {
            Some(EditorState::Editing)
        } else {
            after_toggle
        }
    }
}

/// The next state asked for by the shortcuts pressed on each input map:
/// `F5` starts the simulation from editing and pauses it otherwise, `Escape`
/// returns to editing from any other state. The last request wins; `None`
/// leaves the state as it is.
pub fn global_input_actions(current: EditorState, presses: &[EditorActionPresses]) -> (next: Option<EditorState>)
    ensures
        next == shortcut_target(current, presses@, presses@.len() as int),
        presses@.len() > 0 && current != EditorState::Editing && presses@.last().stop_simulation ==> next
            == Some(EditorState::Editing),
        presses@.len() > 0 && presses@.last().simulation_toggle && !(current != EditorState::Editing
            && presses@.last().stop_simulation) ==> next == Some(
            if current == EditorState::Editing {
                EditorState::Simulating(SimulationState::Live)
            } else {
                EditorState::Simulating(SimulationState::Idle)
            },
        ),
        (forall|k: int|
            0 <= k < presses@.len() ==> !(#[trigger] presses@[k]).simulation_toggle && !(current
                != EditorState::Editing && presses@[k].stop_simulation)) ==> next is None,
{
    proof {
        if presses@.len() > 0 {
            let n = presses@.len() as int;
            let p = presses@[n - 1];
            if p.simulation_toggle || (current != EditorState::Editing && p.stop_simulation) {
                law_last_request_wins(current, presses@, n, n - 1);
            }
        }
        if forall|k: int|
            0 <= k < presses@.len() ==> !(#[trigger] presses@[k]).simulation_toggle && !(current
                != EditorState::Editing && presses@[k].stop_simulation) {
            law_nothing_asked(current, presses@, presses@.len() as int);
        }
    }
    let mut next: Option<EditorState> = None;
    let mut i: usize = 0;
    while i < presses.len()
        invariant
            i <= presses@.len(),
            next == shortcut_target(current, presses@, i as int),
        decreases presses@.len() - i,
    {
        let p = presses[i];
        if p.simulation_toggle {
            if current == EditorState::Editing {
                next = Some(EditorState::Simulating(SimulationState::Live));
            } else {
                next = Some(EditorState::Simulating(SimulationState::Idle));
            }
        }
        if current != EditorState::Editing && p.stop_simulation {
            next = Some(EditorState::Editing);
        }
        i = i + 1;
    }
    next
}

/// The last input map that asks for something decides: `Escape` asks for
/// editing in every state but editing, and otherwise `F5` asks to start the
/// simulation from editing and to pause it from any other state.
pub proof fn law_last_request_wins(current: EditorState, presses: Seq<EditorActionPresses>, n: int, j: int)
    requires
        0 <= j < n <= presses.len(),
        presses[j].simulation_toggle || (current != EditorState::Editing && presses[j].stop_simulation),
        forall|k: int|
            j < k < n ==> !(#[trigger] presses[k]).simulation_toggle && !(current != EditorState::Editing
                && presses[k].stop_simulation),
    ensures
        shortcut_target(current, presses, n) == (if current != EditorState::Editing
            && presses[j].stop_simulation {
            Some(EditorState::Editing)
        } else if current == EditorState::Editing {
            Some(EditorState::Simulating(SimulationState::Live))
        } else {
            Some(EditorState::Simulating(SimulationState::Idle))
        }),
    decreases n,
{
    if n - 1 > j {
        assert(!presses[n - 1].simulation_toggle);
        law_last_request_wins(current, presses, n - 1, j);
    }
}

/// When no input map asks for anything, nothing is asked.
pub proof fn law_nothing_asked(current: EditorState, presses: Seq<EditorActionPresses>, n: int)
    requires
        n <= presses.len(),
        forall|k: int|
            0 <= k < n ==> !(#[trigger] presses[k]).simulation_toggle && !(current != EditorState::Editing
                && presses[k].stop_simulation),
    ensures
        shortcut_target(current, presses, n) is None,
    decreases n,
{
    if n > 0 {
        assert(!presses[n - 1].simulation_toggle);
        law_nothing_asked(current, presses, n - 1);
    }
}

/// While editing, the shortcuts can only start the simulation; once it
/// runs, they can only pause it or return to editing.
pub proof fn law_shortcut_targets(current: EditorState, presses: Seq<EditorActionPresses>, n: int)
    ensures
        current == EditorState::Editing ==> (shortcut_target(current, presses, n) is None
            || shortcut_target(current, presses, n) == Some(
            EditorState::Simulating(SimulationState::Live),
        )),
        current != EditorState::Editing ==> (shortcut_target(current, presses, n) is None
            || shortcut_target(current, presses, n) == Some(
            EditorState::Simulating(SimulationState::Idle),
        ) || shortcut_target(current, presses, n) == Some(EditorState::Editing)),
    decreases n,
{
    if n > 0 {
        law_shortcut_targets(current, presses, n - 1);
    }
}

/// Which of the play, pause and stop buttons the menu bar shows.
#[derive(Debug, Clone, Copy, PartialEq, Eq, Structural)]
pub struct GameControls {
    pub play: bool,
    pub pause: bool,
    pub stop: bool,
}

/// The buttons shown in each state: play while editing, play and stop while
/// paused, pause and stop while running, none otherwise.
pub fn shown_game_controls(state: EditorState) -> (controls: GameControls)
    ensures
        controls.play == (state == EditorState::Editing || state == EditorState::Simulating(
            SimulationState::Idle,
        )),
        controls.pause == (state == EditorState::Simulating(SimulationState::Live)),
        controls.stop == (state is Simulating),
{
    match state {
        EditorState::Editing => GameControls { play: true, pause: false, stop: false },
        EditorState::Simulating(SimulationState::Idle) => GameControls {
            play: true,
            pause: false,
            stop: true,
        },
        EditorState::Simulating(SimulationState::Live) => GameControls {
            play: false,
            pause: true,
            stop: true,
        },
        _ => GameControls { play: false, pause: false, stop: false },
    }
}

/// The state that clicks on the shown buttons ask for: play runs the
/// simulation, pause holds it, stop returns to editing; stop wins over the
/// other button. Clicks on buttons that are not shown do nothing.
pub fn game_control(state: EditorState, clicks: GameControls) -> (next: Option<EditorState>)
    ensures
        ({
            let shown = shown_game_controls_spec(state);
            next == (if shown.stop && clicks.stop {
                Some(EditorState::Editing)
            } else if shown.pause && clicks.pause {
                Some(EditorState::Simulating(SimulationState::Idle))
            } else if shown.play && clicks.play {
                Some(EditorState::Simulating(SimulationState::Live))
            } else {
                None
            })
        }),
        state is Simulating && clicks.stop ==> next == Some(EditorState::Editing),
        state == EditorState::Editing ==> next == (if clicks.play {
            Some(EditorState::Simulating(SimulationState::Live))
        } else {
            None
        }),
        state == EditorState::Simulating(SimulationState::Live) && !clicks.stop ==> next == (if clicks.pause {
            Some(EditorState::Simulating(SimulationState::Idle))
        } else {
            None
        }),
        state == EditorState::Simulating(SimulationState::Idle) && !clicks.stop ==> next == (if clicks.play {
            Some(EditorState::Simulating(SimulationState::Live))
        } else {
            None
        }),
        state == EditorState::SimulationPrep || state == EditorState::Exiting ==> next is None,
{
    let shown = shown_game_controls(state);
    let mut next = None;
    if shown.play && clicks.play {
        next = Some(EditorState::Simulating(SimulationState::Live));
    }
    if shown.pause && clicks.pause {
        next = Some(EditorState::Simulating(SimulationState::Idle));
    }
    if shown.stop && clicks.stop {
        next = Some(EditorState::Editing);
    }
    next
}

/// The buttons shown in a state, as [`shown_game_controls`] returns them.
pub open spec fn shown_game_controls_spec(state: EditorState) -> GameControls {
    GameControls {
        play: state == EditorState::Editing || state == EditorState::Simulating(SimulationState::Idle),
        pause: state == EditorState::Simulating(SimulationState::Live),
        stop: state is Simulating,
    }
}

/// Closing the window asks the editor to exit.
pub fn on_close_requested(close_requests: usize) -> (next: Option<EditorState>)
    ensures
        next == (if close_requests > 0 {
            Some(EditorState::Exiting)
        } else {
            None
        }),
{
    if close_requests > 0 {
        Some(EditorState::Exiting)
    } else {
        None
    }
}

/// Who owns an entity spawned through the editor.
#[derive(Debug, Clone, Copy, PartialEq, Eq, Structural)]
pub enum EntityOwner {
    /// Kept when the simulation stops.
    Editor,
    /// Dropped when the simulation stops.
    Simulation,
}

/// The owner of an entity spawned in the given state; `None` when no entity
/// may be spawned (while exiting).
pub fn stateful_entity_owner(state: EditorState) -> (owner: Option<EntityOwner>)
    ensures
        owner == (match state {
            EditorState::Editing => Some(EntityOwner::Editor),
            EditorState::SimulationPrep => Some(EntityOwner::Simulation),
            EditorState::Simulating(_) => Some(EntityOwner::Simulation),
            EditorState::Exiting => None,
        }),
{
    match state {
        EditorState::Editing => Some(EntityOwner::Editor),
        EditorState::SimulationPrep | EditorState::Simulating(_) => Some(EntityOwner::Simulation),
        _ => None,
    }
}

/// Whether the editor's user interface holds the keyboard.
#[derive(Debug, Clone, Copy, PartialEq, Eq, Hash, Structural)]
pub enum KeyboardFocus {
    Unfocused,
    Focused,
}

impl Default for KeyboardFocus {
    fn default() -> (focus: KeyboardFocus)
        ensures
            focus == KeyboardFocus::Unfocused,
    {
        KeyboardFocus::Unfocused
    }
}

impl KeyboardFocus {
    /// Focused when one of the egui contexts wants keyboard input or a bevy
    /// entity holds the input focus.
    pub fn from_inputs(egui_wants_keyboard: &[bool], bevy_has_focus: bool) -> (focus: KeyboardFocus)
        ensures
            focus == KeyboardFocus::Focused <==> (bevy_has_focus || exists|i: int|
                0 <= i < egui_wants_keyboard@.len() && #[trigger] egui_wants_keyboard@[i]),
    {
        let mut egui_has_focus = false;
        let mut i: usize = 0;
        while i < egui_wants_keyboard.len()
            invariant
                i <= egui_wants_keyboard@.len(),
                egui_has_focus <==> exists|k: int| 0 <= k < i && #[trigger] egui_wants_keyboard@[k],
            decreases egui_wants_keyboard@.len() - i,
        {
            if egui_wants_keyboard[i] {
                egui_has_focus = true;
            }
            i = i + 1;
        }
        if egui_has_focus || bevy_has_focus {
            KeyboardFocus::Focused
        } else {
            KeyboardFocus::Unfocused
        }
    }
}

/// Whether a panel is under the pointer, this frame and the last.
#[derive(Debug)]
pub struct UiState {
    hovered: bool,
    was_hovered: bool,
}

impl Default for UiState {
    fn default() -> (s: UiState)
        ensures
            !s.hovered_spec(),
            !s.was_hovered_spec(),
    {
        UiState { hovered: false, was_hovered: false }
    }
}

impl UiState {
    pub closed spec fn hovered_spec(&self) -> bool {
        self.hovered
    }

    pub closed spec fn was_hovered_spec(&self) -> bool {
        self.was_hovered
    }

    pub fn new() -> (s: UiState)
        ensures
            !s.hovered_spec(),
            !s.was_hovered_spec(),
    {
        UiState { hovered: false, was_hovered: false }
    }

    pub fn hovered(&self) -> (h: bool)
        ensures
            h == self.hovered_spec(),
    {
        self.hovered
    }

    /// What `hovered` was before the last `clear`.
    pub fn was_hovered(&self) -> (h: bool)
        ensures
            h == self.was_hovered_spec(),
    {
        self.was_hovered
    }

    pub fn mark_hovered(&mut self)
        ensures
            final(self).hovered_spec(),
            final(self).was_hovered_spec() == old(self).was_hovered_spec(),
    {
        self.hovered = true;
    }

    /// Starts a new frame: remembers this frame's hover and forgets it.
    pub fn clear(&mut self)
        ensures
            !final(self).hovered_spec(),
            final(self).was_hovered_spec() == old(self).hovered_spec(),
    {
        self.was_hovered = self.hovered;
        self.hovered = false;
    }
}

/// How the pointer moved relative to the editor view since the last frame.
#[derive(Debug, Clone, Copy, PartialEq, Eq, Structural)]
pub struct HoverChange {
    pub entered: bool,
    pub left: bool,
}

/// Entering is being over the view now and not before; leaving the reverse.
pub fn hover_change(hovered_before: bool, is_hovered: bool) -> (change: HoverChange)
    ensures
        change.entered == (is_hovered && !hovered_before),
        change.left == (hovered_before && !is_hovered),
        !(change.entered && change.left),
{
    HoverChange { entered: is_hovered && !hovered_before, left: hovered_before && !is_hovered }
}

/// What becomes of the preview of a dragged bundle over the editor view.
#[derive(Debug, Clone, Copy, PartialEq, Eq, Structural)]
pub struct DropPreviewActions {
    /// Remove the preview entity that exists.
    pub despawn_preview: bool,
    /// Spawn a new preview entity from the dragged bundle.
    pub spawn_preview: bool,
}

/// On entering with a dragged bundle taken, the old preview (if any) gives
/// way to a new one; on leaving, the preview (if any) goes.
pub fn drop_preview(change: HoverChange, took_payload: bool, has_preview: bool) -> (actions: DropPreviewActions)
    ensures
        actions.spawn_preview == (change.entered && took_payload),
        actions.despawn_preview == (has_preview && ((change.entered && took_payload) || change.left)),
{
    let spawn = change.entered && took_payload;
    DropPreviewActions { despawn_preview: has_preview && (spawn || change.left), spawn_preview: spawn }
}

} // verus!
