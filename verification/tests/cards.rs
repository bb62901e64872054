use lightherder::cards::{cards, device, endpoints, mentions, surfaces};

const SAMPLE_CARDS: &str = "\
 1 [NVidia         ]: HDA-Intel - HDA NVidia
                      HDA NVidia at 0xf7080000 irq 100
 2 [Generic        ]: HDA-Intel - HD-Audio Generic
                      HD-Audio Generic at 0xf7b00000 irq 102
 5 [nanoKONTROL2   ]: USB-Audio - nanoKONTROL2
                      KORG INC. nanoKONTROL2 at usb-0000:00:14.0-2, full speed
";

#[test]
fn the_surface_is_found_by_name_among_the_cards_that_are_not_it() {
    assert_eq!(surfaces(SAMPLE_CARDS), [5]);
    assert_eq!(surfaces(&SAMPLE_CARDS.to_uppercase()), [5]);
    assert!(surfaces(" 1 [NVidia ]: x\n 2 [Launchpad ]: y\n").is_empty());
}

#[test]
fn every_matching_card_is_offered_in_turn() {
    let two = format!("{SAMPLE_CARDS} 6 [nanoKONTROL2_1 ]: USB-Audio - nanoKONTROL2\n");
    assert_eq!(surfaces(&two), [5, 6]);
}

#[test]
fn a_card_line_is_its_number_and_the_line() {
    let found = cards(SAMPLE_CARDS);
    assert_eq!(found[2], (5, " 5 [nanoKONTROL2   ]: USB-Audio - nanoKONTROL2"));
    assert_eq!(cards("+7 x\r\n\n 12\n4294967296 too big\nx 3\n").into_iter().map(|c| c.0).collect::<Vec<_>>(), [7, 12]);
}

#[test]
fn every_endpoint_of_a_card_is_named() {
    let names = endpoints(5);
    assert_eq!(names.len(), 8);
    assert_eq!(names[0], "midiC5D0");
    assert_eq!(names[7], "midiC5D7");
}

#[test]
fn a_lowered_line_mentions_the_lowered_name_anywhere_in_it() {
    assert!(mentions(" 5 [nanokontrol2   ]: usb-audio - nanokontrol2", "nanokontrol"));
    assert!(mentions("nanokontrol", "nanokontrol"));
    assert!(!mentions(" 5 [nanoKONTROL2 ]", "nanokontrol"), "the case is the caller's to lower");
    assert!(!mentions("nano", "nanokontrol"));
    assert!(mentions("anything", ""));
    assert_eq!(device(), "nanoKONTROL");
}
