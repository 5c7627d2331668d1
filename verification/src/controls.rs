use vstd::prelude::*;

verus! {

/// What one frame of the side panel decided.
#[derive(Clone, Copy, Debug, PartialEq, Eq, Structural)]
pub struct SidebarOutcome {
    /// Whether the simulation runs after this frame.
    pub is_simulating: bool,
    /// Whether to give the model its missing edges first (a simulation is
    /// being started).
    pub prepare_model: bool,
    /// Whether to put the model back as it was before any simulation (done
    /// after `prepare_model`).
    pub restore_model: bool,
}

/// The side panel's decisions: "Play"/"Pause" toggles the simulation, and
/// starting it first prepares the model; "Reset" restores the model and
/// stops the simulation.
pub fn sidebar_step(
    is_simulating: bool,
    play_pause_clicked: bool,
    reset_clicked: bool,
) -> (outcome: SidebarOutcome)
    ensures
        outcome.prepare_model == (play_pause_clicked && !is_simulating),
        outcome.restore_model == reset_clicked,
        outcome.is_simulating == if reset_clicked {
            false
        } else if play_pause_clicked {
            !is_simulating
        } else {
            is_simulating
        },
{
    let mut running = is_simulating;
    let mut prepare_model = false;
    if play_pause_clicked {
        if !running {
            prepare_model = true;
        }
        running = !running;
    }
    if reset_clicked {
        running = false;
    }
    SidebarOutcome { is_simulating: running, prepare_model, restore_model: reset_clicked }
}

/// The side panel's heading.
pub fn simulation_heading(is_simulating: bool) -> (heading: &'static str)
    ensures
        heading@ == if is_simulating {
            "Simulation is running"@
        } else {
            "Simulation is paused"@
        },
{
    if is_simulating {
        "Simulation is running"
    } else {
        "Simulation is paused"
    }
}

/// The text of the button that starts or pauses the simulation.
pub fn play_button_text(is_simulating: bool) -> (text: &'static str)
    ensures
        text@ == if is_simulating {
            "Pause"@
        } else {
            "Play"@
        },
{
    if is_simulating {
        "Pause"
    } else {
        "Play"
    }
}

/// The width, in pixels, left to the 3D view once the side panels take
/// `left` and `right` pixels of a window `total` pixels wide: never less
/// than one pixel.
pub fn remaining_viewport_width(total: u32, left: i32, right: i32) -> (width: u32)
    requires
        i32::MIN <= (total as i32) - left <= i32::MAX,
        i32::MIN <= (total as i32) - left - right <= i32::MAX,
    ensures
        width == if (total as i32) - left - right >= 1 {
            ((total as i32) - left - right) as u32
        } else {
            1u32
        },
{
    let width: i32 = total as i32 - left - right;
    if width >= 1 {
        width as u32
    } else {
        1
    }
}

/// What one frame of the main loop does.
#[derive(Clone, Copy, Debug, PartialEq, Eq, Structural)]
pub struct FramePlan {
    /// Advance the simulation by one step.
    pub simulate: bool,
    /// Draw the scene and the side panel again.
    pub redraw: bool,
    /// Show what was drawn.
    pub swap_buffers: bool,
    /// Sleep until the next input event.
    pub wait_next_event: bool,
}

/// A frame redraws when the side panel changed, the simulation runs, or
/// the camera moved; it shows what it drew, and otherwise waits for input.
pub fn frame_plan(is_simulating: bool, gui_changed: bool, view_changed: bool) -> (plan: FramePlan)
    ensures
        plan.simulate == is_simulating,
        plan.redraw == (gui_changed || is_simulating || view_changed),
        plan.swap_buffers == plan.redraw,
        plan.wait_next_event == !plan.redraw,
{
    let redraw = gui_changed || is_simulating || view_changed;
    FramePlan {
        simulate: is_simulating,
        redraw,
        swap_buffers: redraw,
        wait_next_event: !redraw,
    }
}

} // verus!
