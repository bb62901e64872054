use lightherder::rig::{count, Rig, Select, CAMERAS, MONITORS, SELECTS, SWITCHERS};
use lightherder::params::Node;

#[test]
fn the_rig_is_three_cameras_five_monitors_and_four_switchers() {
    assert_eq!(
        (count(Node::Camera), count(Node::Monitor), count(Node::Switcher)),
        (CAMERAS, MONITORS, SWITCHERS)
    );
    assert_eq!((CAMERAS, MONITORS, SWITCHERS, SELECTS), (3, 5, 4, 4));
}

#[test]
fn the_rig_starts_with_every_monitor_on_its_program() {
    let rig = Rig::identity();
    for m in 0..SELECTS {
        assert!(rig.on_program(m), "monitor {m}");
    }
    assert!(!rig.on_program(4), "the rotating monitor shows camera B, always");
    assert_eq!(rig.beat(0), [false; SWITCHERS], "no switcher is in the period mode");
}

#[test]
fn each_select_turns_its_own_monitor_and_no_other() {
    for m in 0..SELECTS {
        let mut rig = Rig::identity();
        assert!(rig.select(m));
        for other in 0..SELECTS {
            assert_eq!(rig.on_program(other), other != m, "{m} moved {other}");
        }
        assert_eq!(rig.selects[m], Select::Direct);
        assert!(rig.select(m));
        assert!(rig.on_program(m), "a select is its own undo");
    }
}

#[test]
fn the_rotating_monitor_has_no_select_to_press() {
    let mut rig = Rig::identity();
    assert!(!rig.select(4));
    assert!(!rig.select(9));
    assert_eq!(rig.selects, [Select::Program; SELECTS]);
}

#[test]
fn a_switcher_reverses_on_the_passes_its_period_divides() {
    let mut rig = Rig::identity();
    rig.periods = [0, 3, 60, 1];
    assert_eq!(rig.beat(0), [false, true, true, true]);
    assert_eq!(rig.beat(1), [false, false, false, true]);
    assert_eq!(rig.beat(6), [false, true, false, true]);
    assert_eq!(rig.beat(120), [false, true, true, true]);
    assert_eq!(rig.beat(121), [false, false, false, true]);
}
