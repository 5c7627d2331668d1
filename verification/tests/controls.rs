use trefoil::controls::{
    frame_plan, play_button_text, remaining_viewport_width, sidebar_step, simulation_heading,
    FramePlan, SidebarOutcome,
};
use trefoil::render::{Layer, RenderOptions};

#[test]
fn play_starts_the_simulation_after_preparing_the_model() {
    assert_eq!(
        sidebar_step(false, true, false),
        SidebarOutcome { is_simulating: true, prepare_model: true, restore_model: false }
    );
}

#[test]
fn pause_stops_without_preparing() {
    assert_eq!(
        sidebar_step(true, true, false),
        SidebarOutcome { is_simulating: false, prepare_model: false, restore_model: false }
    );
}

#[test]
fn reset_restores_and_stops() {
    assert_eq!(
        sidebar_step(true, false, true),
        SidebarOutcome { is_simulating: false, prepare_model: false, restore_model: true }
    );
    assert_eq!(
        sidebar_step(false, true, true),
        SidebarOutcome { is_simulating: false, prepare_model: true, restore_model: true }
    );
}

#[test]
fn no_click_changes_nothing() {
    for running in [false, true] {
        assert_eq!(
            sidebar_step(running, false, false),
            SidebarOutcome { is_simulating: running, prepare_model: false, restore_model: false }
        );
    }
}

#[test]
fn texts_follow_the_simulation_state() {
    assert_eq!(simulation_heading(true), "Simulation is running");
    assert_eq!(simulation_heading(false), "Simulation is paused");
    assert_eq!(play_button_text(true), "Pause");
    assert_eq!(play_button_text(false), "Play");
}

#[test]
fn viewport_width_leaves_room_for_panels() {
    assert_eq!(remaining_viewport_width(1000, 0, 250), 750);
    assert_eq!(remaining_viewport_width(200, 0, 250), 1);
    assert_eq!(remaining_viewport_width(250, 0, 250), 1);
    assert_eq!(remaining_viewport_width(252, 1, 250), 1);
    assert_eq!(remaining_viewport_width(253, 1, 250), 2);
}

#[test]
fn frame_redraws_only_on_change() {
    assert_eq!(
        frame_plan(false, false, false),
        FramePlan { simulate: false, redraw: false, swap_buffers: false, wait_next_event: true }
    );
    assert_eq!(
        frame_plan(true, false, false),
        FramePlan { simulate: true, redraw: true, swap_buffers: true, wait_next_event: false }
    );
    assert!(frame_plan(false, true, false).redraw);
    assert!(frame_plan(false, false, true).redraw);
}

#[test]
fn layers_follow_the_options() {
    let all = RenderOptions { show_axes: true, show_vert_indices: true };
    assert_eq!(
        all.layers(),
        vec![Layer::VertexTexts, Layer::EdgeMesh, Layer::VertexMesh, Layer::Axes]
    );
    assert_eq!(RenderOptions::default().layers(), vec![Layer::EdgeMesh, Layer::VertexMesh]);
    let axes = RenderOptions { show_axes: true, show_vert_indices: false };
    assert_eq!(axes.layers(), vec![Layer::EdgeMesh, Layer::VertexMesh, Layer::Axes]);
}
