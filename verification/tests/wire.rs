use lightherder::wire::{ControlChange, Message, Stream, SYSEX_MAX};

fn cc(control: u8, value: u8) -> Vec<u8> {
    vec![0xB0, control, value]
}

fn messages(bytes: &[u8]) -> Vec<Message> {
    let mut stream = Stream::new();
    let mut out = Vec::new();
    for byte in bytes {
        stream.push(*byte, &mut out);
    }
    out
}

fn decode(bytes: &[u8]) -> Vec<ControlChange> {
    messages(bytes)
        .into_iter()
        .filter_map(|m| match m {
            Message::Control(cc) => Some(cc),
            Message::Sysex(_) => None,
        })
        .collect()
}

fn sysex(bytes: &[u8]) -> Vec<Vec<u8>> {
    messages(bytes)
        .into_iter()
        .filter_map(|m| match m {
            Message::Sysex(frame) => Some(frame),
            Message::Control(_) => None,
        })
        .collect()
}

fn message(control: u8, value: u8) -> ControlChange {
    ControlChange { control, value }
}

#[test]
fn a_control_change_is_its_control_and_its_value() {
    assert_eq!(decode(&cc(7, 100)), [message(7, 100)]);
}

#[test]
fn running_status_is_how_a_sweep_arrives() {
    let mut bytes = cc(5, 1);
    bytes.extend([5, 2, 5, 3]);
    assert_eq!(
        decode(&bytes),
        [message(5, 1), message(5, 2), message(5, 3)]
    );
}

#[test]
fn a_clock_byte_in_the_middle_of_a_message_is_not_part_of_it() {
    let bytes = [0xB0, 0x07, 0xF8, 0x40, 0xFE, 0x07, 0x41];
    assert_eq!(decode(&bytes), [message(7, 0x40), message(7, 0x41)]);
}

#[test]
fn a_scene_dump_is_not_a_hundred_knob_moves() {
    let dump = [0xF0, 0x42, 0x40, 0x00, 0x01, 0x13, 0x00, 0x7F, 0xF7];
    let mut bytes = cc(1, 9);
    bytes.extend(dump);
    bytes.extend([0x02, 0x05]);
    assert_eq!(decode(&bytes), [message(1, 9)]);
    assert_eq!(sysex(&bytes), [dump.to_vec()]);
}

#[test]
fn a_frame_that_never_ends_is_dropped_rather_than_kept() {
    let mut bytes = vec![0xF0, 0x42];
    bytes.extend(std::iter::repeat_n(0x00, SYSEX_MAX * 2));
    bytes.extend(cc(7, 64));
    assert_eq!(decode(&bytes), [message(7, 64)]);
    assert!(sysex(&bytes).is_empty(), "an endless frame came out");

    let mut cut = vec![0xF0, 0x42, 0x40];
    cut.extend(cc(7, 65));
    assert_eq!(decode(&cut), [message(7, 65)]);
    assert!(sysex(&cut).is_empty(), "a frame with no end came out");

    let mut whole = vec![0xF0];
    whole.extend(std::iter::repeat_n(0x01, SYSEX_MAX - 2));
    whole.push(0xF7);
    assert_eq!(whole.len(), SYSEX_MAX);
    assert_eq!(sysex(&whole), [whole.clone()]);
}

#[test]
fn a_real_time_byte_inside_a_frame_is_not_part_of_it() {
    let bytes = [0xF0, 0x42, 0xF8, 0x40, 0xFE, 0xF7];
    assert_eq!(sysex(&bytes), [vec![0xF0, 0x42, 0x40, 0xF7]]);
}

#[test]
fn only_a_control_change_comes_out() {
    let mut bytes = vec![0x90, 0x40, 0x7F];
    bytes.extend([0xC0, 0x05]);
    bytes.extend([0xE0, 0x00, 0x40]);
    bytes.extend(cc(3, 11));
    assert_eq!(decode(&bytes), [message(3, 11)]);
}

#[test]
fn a_message_this_decoder_pairs_up_wrongly_does_not_eat_the_next_one() {
    assert_eq!(decode(&[0xD0, 0x20, 0xB0, 0x07, 0x40]), [message(7, 0x40)]);
    assert_eq!(decode(&[0xC0, 0x05, 0xB0, 0x07, 0x41]), [message(7, 0x41)]);
}

#[test]
fn a_surface_on_another_channel_still_sends_its_knobs() {
    assert_eq!(decode(&[0xB9, 0x07, 0x64]), [message(7, 0x64)]);
}

#[test]
fn three_bytes_split_across_reads_are_one_message() {
    let mut stream = Stream::new();
    let mut out = Vec::new();
    stream.feed(&[0xB0, 0x01], &mut out);
    assert!(out.is_empty());
    stream.feed(&[0x7F, 0x01], &mut out);
    stream.feed(&[0x00], &mut out);
    let got: Vec<ControlChange> = out
        .into_iter()
        .filter_map(|m| match m {
            Message::Control(cc) => Some(cc),
            Message::Sysex(_) => None,
        })
        .collect();
    assert_eq!(got, [message(1, 0x7F), message(1, 0x00)]);
}

#[test]
fn whatever_arrives_what_comes_out_is_well_formed() {
    // A cable's worth of everything at once: channel messages of every kind,
    // running status, real time anywhere, frames cut short and frames whole.
    let mut bytes: Vec<u8> = Vec::new();
    let mut x: u32 = 12345;
    for _ in 0..20_000 {
        x = x.wrapping_mul(1_103_515_245).wrapping_add(12_345);
        bytes.push((x >> 16) as u8);
    }
    let mut stream = Stream::new();
    let mut out = Vec::new();
    stream.feed(&bytes, &mut out);
    let mut status: u8 = 0;
    let mut seen = 0;
    for (at, &byte) in bytes.iter().enumerate() {
        let mut one = Vec::new();
        let mut replay = Stream::new();
        replay.feed(&bytes[..at], &mut Vec::new());
        replay.push(byte, &mut one);
        for message in &one {
            if let Message::Control(_) = message {
                assert!((0xB0..=0xBF).contains(&status), "a control under {status:#x}");
            }
        }
        if (0x80..=0xF7).contains(&byte) {
            status = byte;
        }
        seen += one.len();
        if at > 400 {
            break;
        }
    }
    assert!(seen <= out.len());
    for message in &out {
        match message {
            Message::Control(cc) => assert!(cc.control < 0x80 && cc.value < 0x80),
            Message::Sysex(frame) => {
                assert!(frame.len() >= 2 && frame.len() <= SYSEX_MAX + 1);
                assert_eq!(frame[0], 0xF0);
                assert_eq!(*frame.last().unwrap(), 0xF7);
                assert!(frame[1..frame.len() - 1].iter().all(|b| *b < 0x80));
            }
        }
    }
}
