use lightherder::cards::cards;
use lightherder::command::{Action, Axis, Edge, Throw};
use lightherder::lamps::lamp;
use lightherder::midi::{
    buttons, faders, lamps, releases, spot, transport, Group, Midi, Shown, CLUTCH, COARSER,
    FINER, FLIP_X, FLIP_Y, M_ROW, REVERSE, R_ROW, SELECT, S_ROW,
};
use lightherder::params::{Focus, Knob, Node};
use lightherder::rig::count;
use lightherder::tempo::Step;
use lightherder::wire::{ControlChange, Message, Stream};

/// The reach of the delay units on the rig as it is launched.
const DELAY: u32 = 0;

#[test]
fn the_transport_grid_is_arranged_the_way_the_device_is() {
    assert_eq!(
        transport()
            .iter()
            .map(|t| (t.cc, t.row, t.col, t.group.map(Group::name)))
            .collect::<Vec<_>>(),
        [
            (58, 0, 0, Some("TRACK")),
            (59, 0, 1, Some("TRACK")),
            (46, 1, 0, None),
            (60, 1, 2, Some("MARKER")),
            (61, 1, 3, Some("MARKER")),
            (62, 1, 4, Some("MARKER")),
            (43, 2, 0, None),
            (44, 2, 1, None),
            (42, 2, 2, None),
            (41, 2, 3, None),
            (45, 2, 4, None),
        ],
    );
}

#[test]
fn the_spots_are_the_four_blocks_and_the_strip() {
    let spot = |cc| spot(cc).map(|s| format!("{s:?}"));
    assert_eq!(spot(0).as_deref(), Some("Fader(0)"));
    assert_eq!(spot(7).as_deref(), Some("Fader(7)"));
    assert_eq!(spot(16).as_deref(), Some("Rotary(0)"));
    assert_eq!(spot(23).as_deref(), Some("Rotary(7)"));
    assert_eq!(spot(32).as_deref(), Some("S(0)"));
    assert_eq!(spot(39).as_deref(), Some("S(7)"));
    assert_eq!(spot(48).as_deref(), Some("M(0)"));
    assert_eq!(spot(55).as_deref(), Some("M(7)"));
    assert_eq!(spot(64).as_deref(), Some("R(0)"));
    assert_eq!(spot(71).as_deref(), Some("R(7)"));
    assert!(spot(41).unwrap().contains("row: 2, col: 3"), "{:?}", spot(41));
    assert!(spot(59).unwrap().contains("row: 0, col: 1"), "{:?}", spot(59));
    for gap in [8, 15, 24, 31, 40, 47, 56, 57, 63, 72, 127] {
        assert_eq!(spot(gap), None, "cc {gap}");
    }
}

const SAMPLE_CARDS: &str = "\
 1 [NVidia         ]: HDA-Intel - HDA NVidia
                      HDA NVidia at 0xf7080000 irq 100
 2 [Generic        ]: HDA-Intel - HD-Audio Generic
                      HD-Audio Generic at 0xf7b00000 irq 102
 5 [nanoKONTROL2   ]: USB-Audio - nanoKONTROL2
                      KORG INC. nanoKONTROL2 at usb-0000:00:14.0-2, full speed
";

#[test]
fn the_second_line_of_a_card_is_not_a_card() {
    let seen: Vec<u32> = cards(SAMPLE_CARDS).into_iter().map(|(index, _)| index).collect();
    assert_eq!(seen, [1, 2, 5]);
}

#[test]
fn every_bound_button_is_a_lamp_and_nothing_else_is() {
    for cc in 0..128u8 {
        assert_eq!(
            lamps() & lamp(cc) != 0,
            buttons().iter().any(|b| b.cc == cc),
            "cc {cc}"
        );
    }
}

#[test]
fn every_control_is_on_the_panel_once() {
    let mut ccs: Vec<u8> = faders()
        .iter()
        .map(|f| f.cc)
        .chain(buttons().iter().map(|b| b.cc))
        .collect();
    for cc in &ccs {
        assert!(spot(*cc).is_some(), "cc {cc} is nowhere on the panel");
    }
    let all = ccs.len();
    ccs.sort_unstable();
    ccs.dedup();
    assert_eq!(ccs.len(), all, "a control is bound twice");
}

#[test]
fn the_panel_is_wired_the_way_the_readme_says() {
    let faders: Vec<(u8, Knob)> = faders().iter().map(|f| (f.cc, f.knob)).collect();
    assert_eq!(
        faders,
        [
            (0, Knob::Hue),
            (1, Knob::Saturation),
            (2, Knob::Brightness),
            (3, Knob::Contrast),
            (4, Knob::Temperature),
            (5, Knob::Sharpness),
            (6, Knob::Period),
            (7, Knob::Switcher),
            (16, Knob::Zoom),
            (17, Knob::Rotation),
            (18, Knob::Delay),
        ]
    );
    let buttons: Vec<(u8, Action)> = buttons().iter().map(|b| (b.cc, b.action)).collect();
    assert_eq!(
        buttons,
        [
            (32, Action::Focus(Node::Camera, 0)),
            (33, Action::Focus(Node::Camera, 1)),
            (34, Action::Focus(Node::Camera, 2)),
            (48, Action::Focus(Node::Monitor, 0)),
            (49, Action::Focus(Node::Monitor, 1)),
            (50, Action::Focus(Node::Monitor, 2)),
            (51, Action::Focus(Node::Monitor, 3)),
            (52, Action::Focus(Node::Monitor, 4)),
            (64, Action::Focus(Node::Switcher, 0)),
            (65, Action::Focus(Node::Switcher, 1)),
            (66, Action::Focus(Node::Switcher, 2)),
            (67, Action::Focus(Node::Switcher, 3)),
            (62, Action::Clear),
            (43, Action::ResetLastKnob),
            (42, Action::Reset),
            (46, Action::Overlay),
            (44, Action::Solo),
            (60, Action::Screencap),
            (45, Action::Record(Edge::Down)),
            (61, Action::Cut(Edge::Down)),
            (58, Action::Rate(Step::Slower)),
            (59, Action::Rate(Step::Faster)),
            (68, Action::Reverse),
            (69, Action::Flip(Axis::X)),
            (70, Action::Flip(Axis::Y)),
            (71, Action::Select),
            (37, Action::Finer),
            (38, Action::Coarser),
            (39, Action::Clutch(Edge::Down)),
        ]
    );
    for cc in [19, 20, 21, 22, 23, 41] {
        assert!(!faders.iter().any(|f| f.0 == cc), "cc {cc} is bound");
        assert!(!buttons.iter().any(|b| b.0 == cc), "cc {cc} is bound");
    }
}

#[test]
fn every_select_row_is_exactly_as_wide_as_its_kind() {
    for (node, row) in [(Node::Camera, S_ROW), (Node::Monitor, M_ROW), (Node::Switcher, R_ROW)] {
        let bound: Vec<u8> = buttons()
            .iter()
            .filter(|b| matches!(b.action, Action::Focus(kind, _) if kind == node))
            .map(|b| b.cc)
            .collect();
        let want: Vec<u8> = (0..count(node)).map(|i| row + i as u8).collect();
        assert_eq!(bound, want, "{}", node.short());
    }
}

#[test]
fn every_caption_is_two_words_at_most_and_names_one_control() {
    let mut captions: Vec<String> = faders()
        .iter()
        .map(|f| f.knob.name().to_string())
        .chain(buttons().iter().map(|b| b.action.caption()))
        .collect();
    for caption in &captions {
        assert!(caption.split_whitespace().count() <= 2, "{caption:?}");
    }
    let all = captions.len();
    captions.sort();
    captions.dedup();
    assert_eq!(captions.len(), all, "two controls share a caption");
}

fn cc(control: u8, value: u8) -> Vec<u8> {
    vec![0xB0, control, value]
}

fn feed(midi: &mut Midi, bytes: &[u8]) -> Vec<Action> {
    feed_with(midi, bytes, DELAY)
}

fn feed_with(midi: &mut Midi, bytes: &[u8], delay: u32) -> Vec<Action> {
    let mut stream = Stream::new();
    let mut out = Vec::new();
    stream.feed(bytes, &mut out);
    out.into_iter()
        .filter_map(|m| match m {
            Message::Control(change) => midi.action_for(change, delay),
            Message::Sysex(_) => None,
        })
        .collect()
}

fn turned(midi: &mut Midi, value: u8) -> Option<Throw> {
    match feed(midi, &cc(1, value))[..] {
        [] => None,
        [Action::Turn(Knob::Saturation, by)] => Some(by),
        ref other => panic!("{other:?}"),
    }
}

fn at(camera: usize, monitor: usize) -> Focus {
    Focus { camera, monitor, switcher: 0 }
}

#[test]
fn the_lamp_of_each_node_is_the_button_that_selects_it() {
    let midi = Midi::default();
    for index in 0..count(Node::Camera) {
        let focus = Focus { camera: index, monitor: index, switcher: index };
        assert_eq!(
            midi.wanted(focus, Shown::default()),
            lamp(S_ROW + index as u8) | lamp(M_ROW + index as u8) | lamp(R_ROW + index as u8),
            "node {index}"
        );
    }
}

#[test]
fn the_panel_is_the_focused_pair_and_whatever_is_under_a_finger() {
    let mut midi = Midi::default();
    let focus = at(2, 1);
    let pair = lamp(S_ROW + 2) | lamp(M_ROW + 1) | lamp(R_ROW);
    assert_eq!(midi.wanted(focus, Shown::default()), pair);
    assert_eq!(feed(&mut midi, &cc(62, 127)), [Action::Clear]);
    assert_eq!(midi.wanted(focus, Shown::default()), pair | lamp(62));
    assert_eq!(feed(&mut midi, &cc(62, 0)), []);
    assert_eq!(midi.wanted(focus, Shown::default()), pair);
    let switcher = lamp(R_ROW);
    assert_eq!(midi.wanted(at(99, 1), Shown::default()), lamp(M_ROW + 1) | switcher);
    assert_eq!(midi.wanted(at(2, 99), Shown::default()), lamp(S_ROW + 2) | switcher);
    assert_eq!(midi.wanted(at(99, 99), Shown::default()), switcher);
    let lost = Focus { camera: 99, monitor: 99, switcher: 99 };
    assert_eq!(midi.wanted(lost, Shown::default()), 0);
}

#[test]
fn a_latched_mode_lights_the_button_that_holds_it() {
    let midi = Midi::default();
    let focus = at(0, 0);
    let base = midi.wanted(focus, Shown::default());
    let lit = |shown: Shown| midi.wanted(focus, shown) & !base;
    assert_eq!(lit(Shown { overlay: true, ..Shown::default() }), lamp(46), "the overlay is cycle");
    assert_eq!(lit(Shown { solo: true, ..Shown::default() }), lamp(44), "the display's solo is forward");
    assert_eq!(
        lit(Shown { program: true, ..Shown::default() }),
        lamp(SELECT),
        "the select is the record row's last button"
    );
    assert_eq!(lit(Shown { flipped: [true, false], ..Shown::default() }), lamp(FLIP_X));
    assert_eq!(lit(Shown { flipped: [false, true], ..Shown::default() }), lamp(FLIP_Y));
    assert_eq!(
        lit(Shown { flipped: [true, true], ..Shown::default() }),
        lamp(FLIP_X) | lamp(FLIP_Y)
    );
}

fn travel(codes: i16, halvings: u8) -> Option<Throw> {
    Some(Throw::Travel { codes, halvings })
}

#[test]
fn a_fader_turns_its_knob_by_how_far_it_moved_and_not_to_where_it_stands() {
    let mut midi = Midi::default();
    assert_eq!(turned(&mut midi, 127), None);
    assert_eq!(turned(&mut midi, 0), travel(-127, 2));
    assert_eq!(turned(&mut midi, 127), travel(127, 2));
    assert_eq!(turned(&mut midi, 126), travel(-1, 2));
    assert_eq!(turned(&mut midi, 126), None);
}

#[test]
fn the_precision_ladder_is_five_rungs_from_a_whole_travel_to_a_sixteenth() {
    let mut midi = Midi::default();
    assert_eq!(midi.precision().describe(), "1/4");
    let throw = |midi: &mut Midi| {
        turned(midi, 0);
        turned(midi, 127).unwrap()
    };
    assert_eq!(throw(&mut midi), Throw::Travel { codes: 127, halvings: 2 });
    for (press, want, halvings) in [
        (COARSER, "1/2", 1),
        (COARSER, "1/1", 0),
        (COARSER, "1/1", 0),
        (FINER, "1/2", 1),
        (FINER, "1/4", 2),
        (FINER, "1/8", 3),
        (FINER, "1/16", 4),
        (FINER, "1/16", 4),
    ] {
        match feed(&mut midi, &cc(press, 127))[..] {
            [Action::Finer] => midi.finer(),
            [Action::Coarser] => midi.coarser(),
            ref other => panic!("{other:?}"),
        }
        feed(&mut midi, &cc(press, 0));
        assert_eq!(midi.precision().describe(), want);
        assert_eq!(throw(&mut midi), Throw::Travel { codes: 127, halvings }, "{want}");
    }
}

#[test]
fn the_clutch_holds_every_knob_still_and_lets_go_without_a_jump() {
    let mut midi = Midi::default();
    assert_eq!(turned(&mut midi, 127), None);
    assert_eq!(feed(&mut midi, &cc(CLUTCH, 127)), [Action::Clutch(Edge::Down)]);
    assert_eq!(turned(&mut midi, 64), None);
    assert_eq!(turned(&mut midi, 0), None);
    assert_eq!(feed(&mut midi, &cc(16, 50)), []);
    assert_eq!(feed(&mut midi, &cc(16, 90)), []);
    assert_eq!(feed(&mut midi, &cc(CLUTCH, 0)), [Action::Clutch(Edge::Up)]);
    assert_eq!(turned(&mut midi, 10), travel(10, 2));
    assert_eq!(feed(&mut midi, &cc(16, 91)), [Action::Turn(Knob::Zoom, Throw::Travel { codes: 1, halvings: 2 })]);
    let lit = |midi: &Midi| midi.wanted(at(0, 0), Shown::default()) & lamp(CLUTCH) != 0;
    assert!(!lit(&midi));
    feed(&mut midi, &cc(CLUTCH, 127));
    assert!(lit(&midi));
    feed(&mut midi, &cc(CLUTCH, 0));
    assert!(!lit(&midi));
}

#[test]
fn a_count_knob_runs_its_whole_count_over_the_throw_a_step_at_a_time_deaf_to_the_precision() {
    let mut midi = Midi::default();
    let delay = |midi: &mut Midi, value: u8| match feed_with(midi, &cc(18, value), 4)[..] {
        [] => None,
        [Action::Turn(Knob::Delay, Throw::Steps(by))] => Some(by),
        ref other => panic!("{other:?}"),
    };
    assert_eq!(delay(&mut midi, 0), None);
    assert_eq!(delay(&mut midi, 15), None);
    assert_eq!(delay(&mut midi, 16), Some(1));
    assert_eq!(delay(&mut midi, 127), Some(3));
    midi.finer();
    assert_eq!(delay(&mut midi, 0), Some(-4));
    midi.coarser();
    midi.coarser();
    assert_eq!(delay(&mut midi, 127), Some(4));
}

#[test]
fn the_period_runs_sixty_passes_over_the_throw() {
    let mut midi = Midi::default();
    assert_eq!(feed(&mut midi, &cc(6, 0)), []);
    assert_eq!(feed(&mut midi, &cc(6, 127)), [Action::Turn(Knob::Period, Throw::Steps(60))]);
}

#[test]
fn forgiving_a_knob_lets_go_of_the_half_step_it_was_owed() {
    let mut midi = Midi::default();
    assert_eq!(feed_with(&mut midi, &cc(18, 0), 4), []);
    assert_eq!(feed_with(&mut midi, &cc(18, 15), 4), []);
    midi.forgive(&[Knob::Delay]);
    assert_eq!(feed_with(&mut midi, &cc(18, 16), 4), []);
}

#[test]
fn an_unplug_throws_nothing() {
    let mut midi = Midi::default();
    assert_eq!(turned(&mut midi, 40), None);
    midi.unplugged();
    assert_eq!(turned(&mut midi, 0), None);
    assert_eq!(turned(&mut midi, 127), travel(127, 2));
}

#[test]
fn unplugging_the_surface_lets_go_of_every_button_a_finger_was_on() {
    let mut midi = Midi::default();
    assert_eq!(
        feed(&mut midi, &[cc(45, 127), cc(61, 127)].concat()),
        [Action::Record(Edge::Down), Action::Cut(Edge::Down)]
    );
    let mut acted = feed(&mut midi, &cc(60, 127));
    midi.unplugged();
    for release in releases() {
        acted.extend(midi.action_for(release, DELAY));
    }
    assert_eq!(
        acted,
        [Action::Screencap, Action::Record(Edge::Up), Action::Cut(Edge::Up)]
    );
    assert!((0..128u8).all(|cc| !midi.held(cc)));
}

#[test]
fn a_button_acts_when_it_goes_down_and_not_when_it_comes_up() {
    let mut midi = Midi::default();
    assert_eq!(feed(&mut midi, &cc(SELECT, 127)), [Action::Select]);
    assert_eq!(feed(&mut midi, &cc(SELECT, 127)), []);
    assert_eq!(feed(&mut midi, &cc(SELECT, 0)), []);
    assert_eq!(feed(&mut midi, &cc(SELECT, 127)), [Action::Select]);
}

#[test]
fn the_capture_buttons_are_a_press_and_a_hold() {
    let mut midi = Midi::default();
    assert_eq!(feed(&mut midi, &cc(60, 127)), [Action::Screencap]);
    assert_eq!(feed(&mut midi, &cc(60, 0)), []);
    assert_eq!(feed(&mut midi, &cc(45, 127)), [Action::Record(Edge::Down)]);
    assert_eq!(feed(&mut midi, &cc(45, 127)), []);
    assert_eq!(feed(&mut midi, &cc(45, 0)), [Action::Record(Edge::Up)]);
    assert_eq!(feed(&mut midi, &cc(45, 0)), []);
}

#[test]
fn the_buttons_reach_the_nodes_and_the_transport() {
    let mut midi = Midi::default();
    for (row, node) in [(S_ROW, Node::Camera), (M_ROW, Node::Monitor), (R_ROW, Node::Switcher)] {
        let width = count(node);
        for index in [0, width - 1] {
            assert_eq!(
                feed(&mut midi, &cc(row + index as u8, 127)),
                [Action::Focus(node, index)],
                "{} {index}",
                node.short()
            );
        }
    }
    assert_eq!(feed(&mut midi, &cc(REVERSE, 127)), [Action::Reverse]);
    assert_eq!(feed(&mut midi, &cc(FLIP_X, 127)), [Action::Flip(Axis::X)]);
    assert_eq!(feed(&mut midi, &cc(FLIP_Y, 127)), [Action::Flip(Axis::Y)]);
    assert_eq!(feed(&mut midi, &cc(SELECT, 127)), [Action::Select]);
    assert_eq!(feed(&mut midi, &cc(FINER, 127)), [Action::Finer]);
    assert_eq!(feed(&mut midi, &cc(COARSER, 127)), [Action::Coarser]);
    assert_eq!(feed(&mut midi, &cc(CLUTCH, 127)), [Action::Clutch(Edge::Down)]);
    assert_eq!(feed(&mut midi, &cc(43, 127)), [Action::ResetLastKnob]);
    assert_eq!(feed(&mut midi, &cc(42, 127)), [Action::Reset]);
    assert_eq!(feed(&mut midi, &cc(46, 127)), [Action::Overlay]);
    assert_eq!(feed(&mut midi, &cc(58, 127)), [Action::Rate(Step::Slower)]);
    assert_eq!(feed(&mut midi, &cc(59, 127)), [Action::Rate(Step::Faster)]);
}

#[test]
fn a_dead_control_does_nothing() {
    let mut midi = Midi::default();
    for dead in [20, 41, 100] {
        assert_eq!(feed(&mut midi, &cc(dead, 127)), [], "cc {dead}");
        assert_eq!(feed(&mut midi, &cc(dead, 0)), [], "cc {dead}");
    }
}

#[test]
fn a_surface_on_another_channel_is_still_the_surface() {
    let mut midi = Midi::default();
    assert_eq!(feed(&mut midi, &[0xB9, 62, 127]), [Action::Clear]);
}

#[test]
fn a_control_change_names_its_control_in_every_release() {
    let all = releases();
    assert_eq!(all.len(), buttons().len());
    assert!(all.iter().all(|r: &ControlChange| r.value == 0));
}
