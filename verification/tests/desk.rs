use lightherder::command::{flip, Action, Axis, Edge, Throw};
use lightherder::desk::{Desk, Effect};
use lightherder::params::{Focus, Knob, Node};
use lightherder::tempo::Step;

fn turn(desk: &mut Desk, knob: Knob) -> Effect {
    desk.act(Action::Turn(knob, Throw::Travel { codes: 10, halvings: 2 }))
}

fn focus(camera: usize, monitor: usize, switcher: usize) -> Focus {
    Focus { camera, monitor, switcher }
}

#[test]
fn the_desk_starts_on_the_first_of_everything_with_nothing_turned() {
    let desk = Desk::new();
    assert_eq!(desk.focus, focus(0, 0, 0));
    assert_eq!(desk.last_knob, None);
    assert_eq!(desk.cut, None);
    assert!(!desk.solo && !desk.overlay);
}

#[test]
fn a_turn_acts_on_the_focused_node_and_names_the_knob() {
    let mut desk = Desk::new();
    desk.act(Action::Focus(Node::Monitor, 3));
    let throw = Throw::Steps(-2);
    assert_eq!(
        desk.act(Action::Turn(Knob::Contrast, throw)),
        Effect::Turn(Knob::Contrast, throw, focus(0, 3, 0))
    );
    assert_eq!(desk.last_knob, Some(Knob::Contrast));
}

#[test]
fn a_rewind_puts_back_the_knob_just_turned_and_nothing_before_one_is() {
    let mut desk = Desk::new();
    assert_eq!(desk.act(Action::ResetLastKnob), Effect::NothingTurned);
    turn(&mut desk, Knob::Zoom);
    assert_eq!(
        desk.act(Action::ResetLastKnob),
        Effect::ResetKnob(Knob::Zoom, focus(0, 0, 0))
    );
}

#[test]
fn the_knob_a_rewind_means_does_not_outlive_a_move_of_its_node_or_a_reset() {
    let mut desk = Desk::new();
    turn(&mut desk, Knob::Zoom);
    desk.act(Action::Focus(Node::Camera, 1));
    assert_eq!(desk.act(Action::ResetLastKnob), Effect::NothingTurned);

    turn(&mut desk, Knob::Zoom);
    assert_eq!(desk.act(Action::Reset), Effect::Reset);
    assert_eq!(desk.act(Action::ResetLastKnob), Effect::NothingTurned);

    turn(&mut desk, Knob::Contrast);
    assert_eq!(
        desk.act(Action::ResetLastKnob),
        Effect::ResetKnob(Knob::Contrast, focus(1, 0, 0))
    );
}

#[test]
fn a_select_of_a_node_the_last_knob_does_not_read_leaves_it_named() {
    let mut desk = Desk::new();
    turn(&mut desk, Knob::Switcher);
    desk.act(Action::Focus(Node::Camera, 1));
    assert_eq!(desk.last_knob, Some(Knob::Switcher), "the crossfade is not the camera's");
    desk.act(Action::Focus(Node::Monitor, 1));
    assert_eq!(desk.last_knob, Some(Knob::Switcher), "nor the monitor's");
    desk.act(Action::Focus(Node::Switcher, 1));
    assert_eq!(desk.last_knob, None, "the switcher moved out from under it");

    turn(&mut desk, Knob::Zoom);
    desk.act(Action::Focus(Node::Monitor, 0));
    desk.act(Action::Focus(Node::Switcher, 0));
    assert_eq!(desk.last_knob, Some(Knob::Zoom), "zoom reads neither");
    desk.act(Action::Focus(Node::Camera, 1));
    assert_eq!(desk.last_knob, Some(Knob::Zoom), "the same camera again");
    desk.act(Action::Focus(Node::Camera, 0));
    assert_eq!(desk.last_knob, None);
}

#[test]
fn a_select_forgives_the_knobs_of_its_kind_only_when_it_moves_them() {
    let mut desk = Desk::new();
    assert_eq!(
        desk.act(Action::Focus(Node::Switcher, 0)),
        Effect::Refocused { forgive: None }
    );
    assert_eq!(
        desk.act(Action::Focus(Node::Switcher, 2)),
        Effect::Refocused { forgive: Some(Node::Switcher) }
    );
}

#[test]
fn a_monitor_select_moves_the_monitor_and_not_the_camera() {
    let mut desk = Desk::new();
    desk.act(Action::Focus(Node::Monitor, 4));
    assert_eq!(desk.focus.monitor, 4);
    assert_eq!(desk.focus.camera, 0, "the other hand moved");
}

#[test]
fn a_cut_throws_the_focused_switcher_and_the_release_throws_it_back() {
    let mut desk = Desk::new();
    desk.act(Action::Focus(Node::Switcher, 2));
    assert_eq!(desk.act(Action::Cut(Edge::Down)), Effect::Reverse(2));
    assert_eq!(desk.act(Action::Cut(Edge::Down)), Effect::Nothing, "a second press is no second cut");
    assert_eq!(desk.act(Action::Cut(Edge::Up)), Effect::Reverse(2));
    assert_eq!(desk.act(Action::Cut(Edge::Up)), Effect::Nothing, "nothing is held");
}

#[test]
fn a_held_cut_is_released_on_the_switcher_it_was_taken_from() {
    let mut desk = Desk::new();
    desk.act(Action::Focus(Node::Switcher, 1));
    assert_eq!(desk.act(Action::Cut(Edge::Down)), Effect::Reverse(1));
    desk.act(Action::Focus(Node::Switcher, 3));
    assert_eq!(desk.act(Action::Reverse), Effect::Reverse(3));
    assert_eq!(desk.act(Action::Cut(Edge::Up)), Effect::Reverse(1));
}

#[test]
fn a_reset_under_a_held_cut_wins_over_the_release() {
    let mut desk = Desk::new();
    desk.act(Action::Cut(Edge::Down));
    desk.act(Action::Reset);
    assert_eq!(desk.act(Action::Cut(Edge::Up)), Effect::Nothing);
}

#[test]
fn the_latches_flip_and_flip_back() {
    let mut desk = Desk::new();
    assert_eq!(desk.act(Action::Solo), Effect::Solo(true));
    assert_eq!(desk.act(Action::Overlay), Effect::Overlay(true));
    assert_eq!(desk.act(Action::Solo), Effect::Solo(false));
    assert_eq!(desk.act(Action::Overlay), Effect::Overlay(false));
    assert_eq!(desk, Desk::new());
}

#[test]
fn the_monitor_commands_act_on_the_focused_monitor() {
    let mut desk = Desk::new();
    desk.act(Action::Focus(Node::Monitor, 2));
    assert_eq!(desk.act(Action::Select), Effect::Select(2));
    assert_eq!(desk.act(Action::Flip(Axis::Y)), Effect::Flip(2, Axis::Y));
}

#[test]
fn the_rest_of_the_panel_passes_straight_through() {
    let mut desk = Desk::new();
    assert_eq!(desk.act(Action::Clear), Effect::Clear);
    assert_eq!(desk.act(Action::Screencap), Effect::Screencap);
    assert_eq!(desk.act(Action::Record(Edge::Down)), Effect::StartRecording);
    assert_eq!(desk.act(Action::Record(Edge::Up)), Effect::StopRecording);
    assert_eq!(desk.act(Action::Rate(Step::Faster)), Effect::Rate(Step::Faster));
    assert_eq!(desk.act(Action::Finer), Effect::Finer);
    assert_eq!(desk.act(Action::Coarser), Effect::Coarser);
    assert_eq!(desk.act(Action::Clutch(Edge::Down)), Effect::Nothing);
    assert_eq!(desk, Desk::new());
}

#[test]
fn a_flip_throws_one_latch_and_again_puts_it_back() {
    let once = flip([false, false], Axis::X);
    assert_eq!(once, [true, false]);
    assert_eq!(flip(once, Axis::Y), [true, true]);
    assert_eq!(flip(once, Axis::X), [false, false]);
    assert_eq!(Axis::Y.index(), 1);
}
