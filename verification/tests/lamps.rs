use lightherder::lamps::{
    ack, channel_of, dump, inquiry, pack, packed_len, request, scene_in, unpack, EXTERNAL,
    GLOBAL_CHANNEL, KORG, LED_MODE, SCENE_BYTES,
};

const NANO_KONTROL2: [u8; 2] = [0x13, 0x01];

#[test]
fn seven_bit_packing_is_korg_s_own() {
    assert_eq!(pack(&[0x80, 0x01, 0xFF]), [0b101, 0x00, 0x01, 0x7F]);
    assert_eq!(unpack(&[0b101, 0x00, 0x01, 0x7F]), [0x80, 0x01, 0xFF]);
    let eight: Vec<u8> = (0..8).map(|i| 0x80 | i).collect();
    assert_eq!(
        pack(&eight),
        [0x7F, 0, 1, 2, 3, 4, 5, 6, 0x01, 7],
        "the eighth byte belongs to a group of its own"
    );
}

#[test]
fn a_scene_is_three_hundred_and_thirty_nine_bytes_in_three_hundred_and_eighty_eight() {
    assert_eq!(packed_len(SCENE_BYTES), 388);
    let scene: Vec<u8> = (0..SCENE_BYTES).map(|i| i as u8).collect();
    assert_eq!(pack(&scene).len(), 388);
    assert!(pack(&scene).iter().all(|b| *b < 0x80), "a byte with bit 7");
    assert_eq!(unpack(&pack(&scene)), scene);
    assert_eq!(dump(0, &scene).len(), 402);
}

#[test]
fn only_a_nano_kontrol2_answers_the_inquiry() {
    let reply = |maker, family: [u8; 2]| {
        let mut frame = vec![0xF0, 0x7E, 0x05, 0x06, 0x02, maker];
        frame.extend(family);
        frame.extend([0x00, 0x00, 0, 0, 0, 0, 0xF7]);
        frame
    };
    assert_eq!(channel_of(&reply(KORG, NANO_KONTROL2)), Some(5));
    assert_eq!(channel_of(&reply(KORG, [0x14, 0x01])), None);
    assert_eq!(channel_of(&reply(0x41, NANO_KONTROL2)), None);
    assert_eq!(channel_of(&inquiry()), None);
    assert_eq!(channel_of(&[]), None);
}

fn scene_of(channel: u8, led: u8) -> Vec<u8> {
    let mut scene = vec![0u8; SCENE_BYTES];
    scene[GLOBAL_CHANNEL] = channel;
    scene[LED_MODE] = led;
    scene[SCENE_BYTES - 1] = 0xFF;
    scene
}

fn dumped(channel: u8, led: u8) -> Vec<u8> {
    dump(channel, &scene_of(channel, led))
}

fn answered(channel: u8, func: u8) -> Vec<u8> {
    vec![0xF0, KORG, 0x40 | channel, 0x00, 0x01, 0x13, 0x00, 0x5F, func, 0x00, 0xF7]
}

#[test]
fn a_scene_is_read_back_out_of_the_dump_that_carried_it() {
    let got = scene_in(0, &dumped(0, EXTERNAL)).expect("a well-formed dump");
    assert_eq!(got[LED_MODE], EXTERNAL);
    assert_eq!(got[SCENE_BYTES - 1], 0xFF);
    assert_eq!(scene_in(1, &dumped(0, EXTERNAL)), None);
    assert_eq!(scene_in(0, &dumped(1, EXTERNAL)), None);
    let mut short = dumped(0, EXTERNAL);
    short.pop();
    assert_eq!(scene_in(0, &short), None);
    let mut long = dumped(0, EXTERNAL);
    long.push(0xF7);
    assert_eq!(scene_in(0, &long), None);
    assert_eq!(scene_in(0, &request(0)), None);
}

#[test]
fn the_acknowledgement_and_the_refusal_are_told_apart() {
    assert_eq!(ack(0, &answered(0, 0x23)), Some(true));
    assert_eq!(ack(0, &answered(0, 0x24)), Some(false));
    assert_eq!(ack(0, &answered(0, 0x21)), None);
    assert_eq!(ack(3, &answered(3, 0x23)), Some(true));
    assert_eq!(ack(3, &answered(0, 0x23)), None);
}

#[test]
fn a_dump_is_the_head_the_packed_scene_and_the_end() {
    let scene = scene_of(2, EXTERNAL);
    let frame = dump(2, &scene);
    assert_eq!(
        frame[..13],
        [0xF0, KORG, 0x42, 0x00, 0x01, 0x13, 0x00, 0x7F, 0x7F, 0x02, 0x03, 0x05, 0x40]
    );
    assert_eq!(frame[13..frame.len() - 1], pack(&scene)[..]);
    assert_eq!(frame[frame.len() - 1], 0xF7);
    assert_eq!(
        request(2),
        [0xF0, KORG, 0x42, 0x00, 0x01, 0x13, 0x00, 0x1F, 0x10, 0x00, 0xF7]
    );
    assert_eq!(inquiry(), [0xF0, 0x7E, 0x7F, 0x06, 0x01, 0xF7]);
}
