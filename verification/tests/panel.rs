use lightherder::lamps::{
    controls, dump, inquiry, lamp, request, CONTROL, DARK, EXTERNAL, GLOBAL_CHANNEL, INTERNAL, KORG,
    LED_MODE, LIT, SCENE_BYTES,
};
use lightherder::panel::{Event, Panel, Step};

/// The eight control numbers these tests let the instrument light.
const BUTTONS: u128 = 0xFF << 32;

const NANO_KONTROL2: [u8; 2] = [0x13, 0x01];

/// The surface's side of the conversation: every write the panel asks for
/// goes onto `wire`, and the replies go in as events.
struct Device {
    panel: Panel,
    step: Step,
    wire: Vec<u8>,
    read: usize,
}

impl Device {
    fn new() -> Device {
        let mut panel = Panel::new(BUTTONS);
        let step = panel.start();
        let mut device = Device { panel, step, wire: Vec::new(), read: 0 };
        device.pump();
        device
    }

    /// Perform every write the panel asks for, until it waits on something.
    fn pump(&mut self) {
        while let Step::Write(bytes) = &self.step {
            self.wire.extend_from_slice(bytes);
            self.step = self.panel.next(Event::Wrote(true));
        }
    }

    fn hand(&mut self, event: Event) {
        if matches!(self.step, Step::Finished) {
            return;
        }
        self.step = self.panel.next(event);
        self.pump();
    }

    fn say(&mut self, frame: Vec<u8>) {
        self.hand(Event::Frame(frame));
    }

    fn show(&mut self, want: u128) {
        self.hand(Event::Show(want));
    }

    /// The reply waited for did not come in time.
    fn silence(&mut self) {
        if matches!(self.step, Step::Reply | Step::Wait) {
            self.hand(Event::TimedOut);
        }
    }

    fn read(&mut self, n: usize) -> Vec<u8> {
        assert!(self.read + n <= self.wire.len(), "the instrument wrote nothing");
        let got = self.wire[self.read..self.read + n].to_vec();
        self.read += n;
        got
    }

    fn done(mut self, tail: &[u8]) {
        self.hand(Event::Quit);
        assert!(matches!(self.step, Step::Finished), "the panel did not finish");
        assert_eq!(&self.wire[self.read..], tail, "wrote more than it should have");
    }

    fn handshake(&mut self, channel: u8, led: u8) {
        assert_eq!(self.read(6), inquiry());
        self.say(inquiry_reply(channel));
        assert_eq!(self.read(11), request(channel));
        self.say(dumped(channel, led));
        if led != EXTERNAL {
            assert_eq!(
                self.read(402),
                dump(channel, &scene_of(channel, EXTERNAL)),
                "the scene was not handed back as it came"
            );
            self.say(answered(channel, 0x23));
        }
    }

    fn blanked(&mut self, channel: u8) {
        let want: Vec<u8> = controls(BUTTONS)
            .into_iter()
            .flat_map(|cc| [CONTROL | channel, cc, DARK])
            .collect();
        assert_eq!(self.read(want.len()), want, "the panel was not blanked");
    }
}

fn scene_of(channel: u8, led: u8) -> Vec<u8> {
    let mut scene = vec![0u8; SCENE_BYTES];
    scene[GLOBAL_CHANNEL] = channel;
    scene[LED_MODE] = led;
    scene[SCENE_BYTES - 1] = 0xFF;
    scene
}

fn dumped(channel: u8, led: u8) -> Vec<u8> {
    dump(channel, &scene_of(channel, led))
}

fn inquiry_reply(channel: u8) -> Vec<u8> {
    let mut reply = vec![0xF0, 0x7E, channel, 0x06, 0x02, KORG];
    reply.extend(NANO_KONTROL2);
    reply.extend([0x00, 0x00, 0, 0, 0, 0, 0xF7]);
    reply
}

fn answered(channel: u8, func: u8) -> Vec<u8> {
    vec![0xF0, KORG, 0x40 | channel, 0x00, 0x01, 0x13, 0x00, 0x5F, func, 0x00, 0xF7]
}

#[test]
fn an_internal_surface_is_handed_back_its_own_scene_with_the_mode_set() {
    let mut device = Device::new();
    device.handshake(0, INTERNAL);
    device.blanked(0);
    device.show(lamp(33));
    assert_eq!(device.read(3), [CONTROL, 33, LIT]);
}

#[test]
fn the_mode_goes_back_to_internal_on_the_way_out() {
    let mut device = Device::new();
    device.handshake(0, INTERNAL);
    device.blanked(0);
    device.show(lamp(32));
    assert_eq!(device.read(3), [CONTROL, 32, LIT]);
    device.done(&[vec![CONTROL, 32, DARK], dump(0, &scene_of(0, INTERNAL))].concat());
}

#[test]
fn a_surface_already_in_external_mode_is_not_written_a_scene_to_get_there() {
    let mut device = Device::new();
    device.handshake(0, EXTERNAL);
    device.blanked(0);
    device.show(lamp(32));
    assert_eq!(device.read(3), [CONTROL, 32, LIT]);
    device.done(&[vec![CONTROL, 32, DARK], dump(0, &scene_of(0, INTERNAL))].concat());
}

#[test]
fn the_panel_is_blanked_before_the_first_lamp_rather_than_assumed_dark() {
    let mut device = Device::new();
    device.handshake(0, EXTERNAL);
    device.blanked(0);
    device.show(lamp(32));
    assert_eq!(device.read(3), [CONTROL, 32, LIT]);
}

#[test]
fn one_lamp_moves_out_before_the_next_comes_on() {
    let mut device = Device::new();
    device.handshake(0, EXTERNAL);
    device.blanked(0);
    device.show(lamp(32));
    assert_eq!(device.read(3), [CONTROL, 32, LIT]);
    device.show(lamp(35));
    assert_eq!(device.read(6), [CONTROL, 32, DARK, CONTROL, 35, LIT]);
    for _ in 0..60 {
        device.show(lamp(35));
    }
    device.show(0);
    assert_eq!(device.read(3), [CONTROL, 35, DARK]);
}

#[test]
fn every_button_the_map_binds_is_lit_while_it_is_held() {
    let mut device = Device::new();
    device.handshake(0, EXTERNAL);
    device.blanked(0);
    device.show(lamp(32) | lamp(36));
    assert_eq!(device.read(6), [CONTROL, 32, LIT, CONTROL, 36, LIT]);
    device.show(lamp(32));
    assert_eq!(device.read(3), [CONTROL, 36, DARK]);
}

#[test]
fn a_lamp_no_button_of_the_map_answers_to_is_never_written() {
    let mut device = Device::new();
    device.handshake(0, EXTERNAL);
    device.blanked(0);
    device.show(lamp(7) | lamp(90) | lamp(33));
    assert_eq!(device.read(3), [CONTROL, 33, LIT]);
    device.done(&[vec![CONTROL, 33, DARK], dump(0, &scene_of(0, INTERNAL))].concat());
}

#[test]
fn a_surface_that_stops_answering_is_left_in_the_mode_it_was_found_in() {
    let mut device = Device::new();
    assert_eq!(device.read(6), inquiry());
    device.say(inquiry_reply(0));
    assert_eq!(device.read(11), request(0));
    device.say(dumped(0, INTERNAL));
    assert_eq!(device.read(402), dump(0, &scene_of(0, EXTERNAL)));
    device.silence();
    device.blanked(0);
    device.show(lamp(32));
    assert_eq!(device.read(3), [CONTROL, 32, LIT]);
    device.done(&[vec![CONTROL, 32, DARK], dump(0, &scene_of(0, INTERNAL))].concat());
}

#[test]
fn the_lamps_are_addressed_to_the_channel_the_surface_answered_on() {
    let mut device = Device::new();
    device.handshake(3, EXTERNAL);
    device.blanked(3);
    device.show(lamp(32));
    assert_eq!(device.read(3), [CONTROL | 3, 32, LIT]);
}

#[test]
fn a_scene_that_does_not_agree_with_the_surface_is_not_written_back() {
    let mut device = Device::new();
    assert_eq!(device.read(6), inquiry());
    device.say(inquiry_reply(0));
    assert_eq!(device.read(11), request(0));
    device.say(dump(0, &scene_of(3, INTERNAL)));
    device.blanked(0);
    device.show(lamp(32));
    assert_eq!(device.read(3), [CONTROL, 32, LIT]);
    device.done(&[CONTROL, 32, DARK]);
}

#[test]
fn a_device_that_answers_as_something_else_is_written_to_no_further() {
    let mut device = Device::new();
    assert_eq!(device.read(6), inquiry());
    let mut reply = vec![0xF0, 0x7E, 0x00, 0x06, 0x02, 0x41];
    reply.extend([0x13, 0x01, 0x00, 0x00, 0, 0, 0, 0, 0xF7]);
    device.say(reply);
    device.show(lamp(32));
    device.done(&[]);
}

#[test]
fn a_focus_moved_during_the_handshake_is_the_one_that_lights() {
    let mut device = Device::new();
    assert_eq!(device.read(6), inquiry());
    device.show(lamp(32));
    device.show(lamp(37));
    device.say(inquiry_reply(0));
    assert_eq!(device.read(11), request(0));
    device.say(dumped(0, EXTERNAL));
    device.blanked(0);
    assert_eq!(device.read(3), [CONTROL, 37, LIT]);
}

#[test]
fn a_surface_that_will_not_answer_is_still_played() {
    let mut device = Device::new();
    assert_eq!(device.read(6), inquiry());
    device.show(lamp(32));
    device.silence();
    device.done(&[]);
}

#[test]
fn a_refused_scene_still_leaves_the_instrument_lighting_what_it_can() {
    let mut device = Device::new();
    assert_eq!(device.read(6), inquiry());
    device.say(inquiry_reply(0));
    assert_eq!(device.read(11), request(0));
    device.say(dumped(0, INTERNAL));
    assert_eq!(device.read(402).len(), 402);
    device.say(answered(0, 0x24));
    device.blanked(0);
    device.show(lamp(32));
    assert_eq!(device.read(3), [CONTROL, 32, LIT]);
    device.done(&[CONTROL, 32, DARK]);
}

#[test]
fn a_write_that_fails_puts_the_panel_back_and_stops() {
    let mut panel = Panel::new(BUTTONS);
    assert!(matches!(panel.start(), Step::Write(_)));
    assert!(matches!(panel.next(Event::Wrote(false)), Step::Finished));
}
