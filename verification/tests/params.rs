use lightherder::command::{released, Action, Axis, Edge};
use lightherder::params::{Focus, Knob, Node, Side};

#[test]
fn no_two_knobs_share_a_name() {
    for (i, knob) in Knob::ALL.iter().enumerate() {
        let clash = Knob::ALL[..i].iter().any(|other| other.name() == knob.name());
        assert!(!clash, "{knob:?} shares its name");
    }
}

#[test]
fn a_knob_is_found_by_its_name() {
    for knob in Knob::ALL {
        assert_eq!(Knob::from_name(knob.name()), Some(knob));
    }
    assert_eq!(Knob::from_name("no such knob"), None);
}

#[test]
fn a_readout_is_indexed_the_way_the_knobs_are_listed() {
    for (i, knob) in Knob::ALL.iter().enumerate() {
        assert_eq!(knob.index(), i, "{knob:?}");
        assert_eq!(Knob::at(i), *knob);
    }
}

#[test]
fn the_focus_moves_the_leg_it_names_and_no_other() {
    let focus = Focus { camera: 1, monitor: 2, switcher: 3 };
    for node in Node::ALL {
        let moved = focus.with(node, 7);
        assert_eq!(moved.at(node), 7);
        for other in Node::ALL.into_iter().filter(|o| *o != node) {
            assert_eq!(moved.at(other), focus.at(other));
        }
    }
}

#[test]
fn a_side_reads_exactly_the_indices_its_knobs_are_stored_under() {
    assert!(Knob::Zoom.side().reads(Node::Camera));
    assert!(!Knob::Zoom.side().reads(Node::Monitor));
    assert_eq!(Knob::Hue.side(), Side::Monitor);
    assert_eq!(Knob::Period.side(), Side::Switcher);
    assert_eq!(Node::Camera.name(), "camera");
    assert_eq!(Node::Switcher.short(), "sw");
}

#[test]
fn a_select_names_its_kind_and_its_place() {
    assert_eq!(Action::Focus(Node::Camera, 2).caption(), "cam 3");
    assert_eq!(Action::Focus(Node::Monitor, 0).caption(), "mon 1");
    assert_eq!(Action::Focus(Node::Switcher, 3).caption(), "sw 4");
}

#[test]
fn letting_go_reaches_only_the_held_commands() {
    assert_eq!(released(Action::Record(Edge::Down)), Some(Action::Record(Edge::Up)));
    assert_eq!(released(Action::Cut(Edge::Down)), Some(Action::Cut(Edge::Up)));
    assert_eq!(released(Action::Clutch(Edge::Down)), Some(Action::Clutch(Edge::Up)));
    for action in [
        Action::Reset,
        Action::ResetLastKnob,
        Action::Clear,
        Action::Solo,
        Action::Overlay,
        Action::Screencap,
        Action::Reverse,
        Action::Select,
        Action::Flip(Axis::X),
        Action::Finer,
        Action::Coarser,
        Action::Focus(Node::Camera, 0),
        Action::Record(Edge::Up),
        Action::Cut(Edge::Up),
        Action::Clutch(Edge::Up),
    ] {
        assert_eq!(released(action), None, "{action:?}");
    }
}
