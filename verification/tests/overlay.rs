use lightherder::lamps::lamp;
use lightherder::midi::{buttons, faders, spot, transport, Spot, CLUTCH, M_ROW, R_ROW, STRIPS, S_ROW};
use lightherder::canvas::{Canvas, Ink};
use lightherder::overlay::{
    button_x, controls, rasterize, row_y, source_box, sources, strip_x, thumb_y, track_x,
    Control, Reading, Readout, BUTTON_H, BUTTON_W, GLYPH, GROUP_LIFT, NEEDLE, PAD, PANEL_H,
    PANEL_W, RESTING_THUMB, ROTARY_R, ROTARY_Y, SOURCE_H, SOURCE_W, SQUARE, STRIPS_X, STRIP_W,
    THUMB_H, THUMB_TRAVEL,
};
use lightherder::params::{Knob, Node};

/// What the instrument reads as it starts: every knob at its identity, the
/// crossfades at the top of their travel with In1 whole.
fn reading(knob: Knob) -> Reading {
    let (value, thumb, needle) = match knob {
        Knob::Zoom => ("1.000", 23, (0, -NEEDLE)),
        Knob::Rotation => ("0.050", 23, (1, -10)),
        Knob::Delay => ("0", 0, (-7, 7)),
        Knob::Switcher => ("1.000", THUMB_TRAVEL, (7, 7)),
        Knob::Period => ("0", 0, (-7, 7)),
        _ => ("0.000", 23, (0, -NEEDLE)),
    };
    Reading {
        value: value.to_string(),
        thumb,
        needle_x: needle.0,
        needle_y: needle.1,
    }
}

fn readout(lamps: u128) -> Readout {
    Readout {
        knobs: Knob::ALL.iter().map(|k| reading(*k)).collect(),
        lamps,
    }
}

fn at_rest() -> Readout {
    readout(0)
}

fn box_of(c: &Canvas, x: i32, y: i32, w: i32, h: i32) -> Vec<Option<Ink>> {
    let mut out = Vec::new();
    for row in y..y + h {
        for col in x..x + w {
            out.push(c.texel(col, row));
        }
    }
    out
}

fn marked_texels(c: &Canvas, x: i32, y: i32, w: i32, h: i32) -> usize {
    box_of(c, x, y, w, h)
        .iter()
        .filter(|p| **p != Some(Ink::Back))
        .count()
}

fn lit_texels(c: &Canvas) -> usize {
    box_of(c, 0, 0, c.width(), c.height())
        .iter()
        .filter(|p| **p == Some(Ink::Lit))
        .count()
}

fn row_of(node: Node) -> u8 {
    match node {
        Node::Camera => S_ROW,
        Node::Monitor => M_ROW,
        Node::Switcher => R_ROW,
    }
}

#[test]
fn the_left_cluster_is_arranged_the_way_the_surface_is() {
    let raster = rasterize(&at_rest());
    assert_eq!(button_x(0), PAD);
    assert!(button_x(4) + BUTTON_W < STRIPS_X);
    assert_eq!(
        marked_texels(&raster, button_x(1), row_y(1), BUTTON_W, BUTTON_H),
        0,
    );
    for col in [0, 2, 3, 4] {
        assert!(
            marked_texels(&raster, button_x(col), row_y(1), BUTTON_W, BUTTON_H) > 0,
            "middle row column {col}",
        );
    }
    let says = |cx: i32, row: u8, word: &str| {
        let mut want = Canvas::new(PANEL_W, PANEL_H);
        want.text_centred(cx, row_y(row) - GROUP_LIFT, word, Ink::Dim);
        let w = word.chars().count() as i32 * GLYPH;
        let (x, y) = (cx - w / 2 - GLYPH, row_y(row) - GROUP_LIFT);
        assert_eq!(
            box_of(&raster, x, y, w + 2 * GLYPH, GLYPH),
            box_of(&want, x, y, w + 2 * GLYPH, GLYPH),
            "{word}",
        );
    };
    says((button_x(0) + button_x(1) + BUTTON_W) / 2, 0, "TRACK");
    says((button_x(2) + button_x(4) + BUTTON_W) / 2, 1, "MARKER");
}

#[test]
fn the_panel_is_drawn_and_captioned() {
    let raster = rasterize(&at_rest());
    assert_eq!((raster.width(), raster.height()), (PANEL_W, PANEL_H));
    assert_eq!(raster.pixels().len(), (PANEL_W * PANEL_H * 4) as usize);
    assert!(lit_texels(&raster) > 1000, "{}", lit_texels(&raster));
}

#[test]
fn every_caption_lands_on_its_own_control() {
    let readout = at_rest();
    let raster = rasterize(&readout);
    for (cc, control) in controls() {
        let mut want = Canvas::new(PANEL_W, PANEL_H);
        want.place(cc, &control, &readout);
        let lit: Vec<(i32, i32)> = (0..PANEL_H)
            .flat_map(|y| (0..PANEL_W).map(move |x| (x, y)))
            .filter(|(x, y)| want.texel(*x, *y) == Some(Ink::Lit))
            .collect();
        assert!(lit.len() > 20, "cc {cc} drew {} texels", lit.len());
        for (x, y) in lit {
            assert_eq!(raster.texel(x, y), Some(Ink::Lit), "cc {cc} at {x},{y}");
        }
    }
}

fn row_index(node: Node) -> u8 {
    match spot(row_of(node)).expect("a select row is a block of spots") {
        Spot::S(_) => 0,
        Spot::M(_) => 1,
        Spot::R(_) => 2,
        other => panic!("a select row landed on {other:?}"),
    }
}

fn band(c: &Canvas, node: Node, i: u8) -> Vec<Option<Ink>> {
    let w = track_x(i) - strip_x(i) - 1;
    box_of(c, strip_x(i), row_y(row_index(node)), w, SQUARE)
}

fn band_of(node: Node, i: u8, draw: impl Fn(&mut Canvas)) -> Vec<Option<Ink>> {
    let mut c = Canvas::new(PANEL_W, PANEL_H);
    draw(&mut c);
    band(&c, node, i)
}

fn asleep(node: Node, i: u8) -> Vec<Option<Ink>> {
    band_of(node, i, |c| c.strip_chrome(i))
}

fn captioned(node: Node, i: u8, caption: &str) -> Vec<Option<Ink>> {
    band_of(node, i, |c| {
        c.strip_chrome(i);
        c.place(
            row_of(node) + i,
            &Control::Button(caption.to_string()),
            &at_rest(),
        );
    })
}

#[test]
fn a_select_row_is_drawn_for_its_own_kind_and_stops_where_the_graph_does() {
    let raster = rasterize(&at_rest());
    for node in Node::ALL {
        for i in 0..STRIPS {
            let bound = buttons().into_iter().find(|b| b.cc == row_of(node) + i);
            let want = match bound {
                Some(b) => captioned(node, i, &b.action.caption()),
                None => asleep(node, i),
            };
            assert_eq!(band(&raster, node, i), want, "{} {}", node.short(), i + 1);
        }
    }
}

fn strip_of(knob: Knob) -> u8 {
    let cc = faders().into_iter().find(|f| f.knob == knob).unwrap().cc;
    match spot(cc).unwrap() {
        Spot::Fader(i) | Spot::Rotary(i) => i,
        other => panic!("{knob:?} sits on {other:?}"),
    }
}

#[test]
fn a_knob_is_drawn_where_the_program_holds_it_and_nothing_else_moves() {
    let rest = rasterize(&at_rest());
    let mut moved = at_rest();
    moved.knobs[Knob::Switcher.index()] = Reading {
        value: "0.000".to_string(),
        thumb: 0,
        needle_x: -7,
        needle_y: 7,
    };
    assert_eq!(moved.reads(Knob::Switcher), "0.000");
    assert_eq!(at_rest().reads(Knob::Switcher), "1.000");
    let thrown = rasterize(&moved);
    let strip = strip_of(Knob::Switcher);
    let (x0, x1) = (strip_x(strip), strip_x(strip) + STRIP_W);
    for y in 0..PANEL_H {
        for x in 0..PANEL_W {
            if (x0..x1).contains(&x) {
                continue;
            }
            assert_eq!(
                rest.texel(x, y),
                thrown.texel(x, y),
                "a switcher moved changed {x},{y}"
            );
        }
    }
    let thumb = |c: &Canvas, y: i32| marked_texels(c, track_x(strip) - 1, y, 14, THUMB_H);
    assert_eq!(thumb(&rest, thumb_y(THUMB_TRAVEL)), 14 * THUMB_H as usize);
    assert_eq!(thumb(&thrown, thumb_y(0)), 14 * THUMB_H as usize);
    assert!(thumb_y(0) > thumb_y(RESTING_THUMB) && thumb_y(RESTING_THUMB) > thumb_y(THUMB_TRAVEL));
    assert!(thumb_y(THUMB_TRAVEL) > row_y(0) && thumb_y(0) + THUMB_H < row_y(2) + SQUARE);
}

#[test]
fn one_thumb_per_fader_and_one_needle_per_rotary() {
    let raster = rasterize(&at_rest());
    let track = |i: u8| {
        let x = track_x(i) + 1;
        (row_y(0) + 1..row_y(2) + SQUARE - 1)
            .filter(|y| marked_texels(&raster, x, *y, 1, 1) > 0)
            .count()
    };
    let needles = |i: u8| {
        let cx = strip_x(i) + STRIP_W / 2;
        let r = ROTARY_R - 3;
        let ring = (0..360).step_by(3).map(|deg| {
            let a = (deg as f32).to_radians();
            (
                cx + (a.sin() * r as f32).round() as i32,
                ROTARY_Y - (a.cos() * r as f32).round() as i32,
            )
        });
        let samples: Vec<bool> = ring
            .map(|(x, y)| marked_texels(&raster, x, y, 1, 1) > 0)
            .collect();
        let mut on = *samples.last().unwrap();
        let mut hits = 0;
        for hit in samples {
            hits += usize::from(hit && !on);
            on = hit;
        }
        hits
    };
    for i in 0..STRIPS {
        assert_eq!(track(i), THUMB_H as usize, "fader {}", i + 1);
        assert_eq!(needles(i), 1, "rotary {}", i + 1);
    }
}

#[test]
fn a_lit_lamp_fills_its_button_on_the_panel() {
    let dark = rasterize(&readout(0));
    let lit = rasterize(&readout(lamp(46) | lamp(CLUTCH)));
    let inside = |c: &Canvas, x: i32, y: i32, w: i32, h: i32| {
        box_of(c, x + 1, y + 1, w - 2, h - 2)
            .iter()
            .filter(|p| **p == Some(Ink::Lit))
            .count()
    };
    let Some(Spot::Transport(help)) = spot(46) else {
        panic!("help is on the transport")
    };
    let (x, y) = (button_x(help.col), row_y(help.row));
    assert!(
        inside(&lit, x, y, BUTTON_W, BUTTON_H) > inside(&dark, x, y, BUTTON_W, BUTTON_H) + 400
    );
    let Some(Spot::S(i)) = spot(CLUTCH) else {
        panic!("the clutch is on the S row")
    };
    let (x, y) = (strip_x(i) + 2, row_y(0));
    assert_eq!(
        inside(&lit, x, y, SQUARE, SQUARE),
        ((SQUARE - 2) * (SQUARE - 2)) as usize
    );
    assert_eq!(inside(&dark, x, y, SQUARE, SQUARE), 0);
}

#[test]
fn a_canvas_starts_as_bare_ground_and_clips_at_its_edges() {
    let mut c = Canvas::new(4, 3);
    assert_eq!(c.pixels(), [0u8, 0, 0, 200].repeat(12));
    c.set(-1, 0, Ink::Lit);
    c.set(4, 0, Ink::Lit);
    c.set(0, 3, Ink::Lit);
    assert_eq!(lit_texels(&c), 0);
    c.set(3, 2, Ink::Dim);
    assert_eq!(c.texel(3, 2), Some(Ink::Dim));
    assert_eq!(&c.pixels()[44..48], &[255, 255, 255, 70]);
    assert_eq!(c.texel(4, 2), None);
}

#[test]
fn a_fill_covers_its_box_and_a_frame_its_border() {
    let mut c = Canvas::new(10, 10);
    c.fill(2, 3, 4, 2, Ink::Lit);
    assert_eq!(lit_texels(&c), 8);
    assert_eq!(c.texel(5, 4), Some(Ink::Lit));
    assert_eq!(c.texel(6, 4), Some(Ink::Back));
    let mut c = Canvas::new(10, 10);
    c.frame(1, 1, 5, 4, Ink::Lit);
    assert_eq!(lit_texels(&c), 14);
    assert_eq!(c.texel(3, 2), Some(Ink::Back));
    assert_eq!(c.texel(5, 4), Some(Ink::Lit));
}

#[test]
fn a_ring_keeps_to_half_a_texel_of_its_circle() {
    let mut c = Canvas::new(40, 40);
    c.ring(20, 20, 12, Ink::Lit);
    for y in 0..40 {
        for x in 0..40 {
            let d = (((x - 20) * (x - 20) + (y - 20) * (y - 20)) as f32).sqrt() - 12.0;
            assert_eq!(c.texel(x, y) == Some(Ink::Lit), d.abs() <= 0.5, "{x},{y}");
        }
    }
    let mut dot = Canvas::new(3, 3);
    dot.ring(1, 1, 0, Ink::Lit);
    assert_eq!(lit_texels(&dot), 1);
    assert_eq!(dot.texel(1, 1), Some(Ink::Lit));
}

#[test]
fn a_line_steps_one_texel_along_its_longer_axis() {
    let mut c = Canvas::new(20, 20);
    c.line((2, 3), (12, 8), Ink::Lit);
    assert_eq!(lit_texels(&c), 11);
    for (x, y) in [(2, 3), (3, 4), (4, 4), (5, 5), (12, 8)] {
        assert_eq!(c.texel(x, y), Some(Ink::Lit), "{x},{y}");
    }
    let mut upright = Canvas::new(20, 30);
    upright.line((5, 24), (5, 14), Ink::Lit);
    for y in 0..30 {
        assert_eq!(upright.texel(5, y) == Some(Ink::Lit), (14..=24).contains(&y), "{y}");
    }
}

#[test]
fn text_is_the_font_s_glyphs_and_stops_at_the_margin() {
    let mut c = Canvas::new(40, 10);
    c.text(1, 1, "Ab", 40, Ink::Lit);
    for (i, ch) in "Ab".chars().enumerate() {
        let glyph = font8x8::legacy::BASIC_LEGACY[ch as usize];
        for (dy, row) in glyph.iter().enumerate() {
            for dx in 0..8 {
                let x = 1 + i as i32 * 8 + dx;
                let y = 1 + dy as i32;
                assert_eq!(
                    c.texel(x, y) == Some(Ink::Lit),
                    row & (1 << dx) != 0,
                    "{ch} at {x},{y}"
                );
            }
        }
    }
    let mut cut = Canvas::new(40, 10);
    cut.text(0, 0, "AAAA", 20, Ink::Lit);
    assert_eq!(marked_texels(&cut, 16, 0, 24, 10), 0);
    assert!(marked_texels(&cut, 8, 0, 8, 8) > 0);
    let mut beyond = Canvas::new(40, 10);
    beyond.text(0, 0, "é", 40, Ink::Lit);
    assert_eq!(lit_texels(&beyond), 0);
}

#[test]
fn centred_text_straddles_its_column() {
    let mut c = Canvas::new(40, 10);
    c.text_centred(20, 0, "II", Ink::Lit);
    let mut d = Canvas::new(40, 10);
    d.text(12, 0, "II", 40, Ink::Lit);
    assert_eq!(box_of(&c, 0, 0, 40, 10), box_of(&d, 0, 0, 40, 10));
}

#[test]
fn a_spare_control_shows_a_dim_indicator_at_rest() {
    let mut c = Canvas::new(PANEL_W, PANEL_H);
    c.dead_indicators();
    for i in 0..STRIPS {
        let cx = strip_x(i) + STRIP_W / 2;
        let upright = (ROTARY_Y - NEEDLE..=ROTARY_Y).all(|y| c.texel(cx, y) == Some(Ink::Dim));
        assert_eq!(upright, i >= 3, "rotary {}", i + 1);
    }
    assert_eq!(marked_texels(&c, STRIPS_X, 60, PANEL_W - STRIPS_X, 80), 0);
}

#[test]
fn the_sources_legend_boxes_each_camera_and_the_seed() {
    assert_eq!(source_box(2), (0, 44, SOURCE_W, SOURCE_H));
    let legend = sources();
    assert_eq!((legend.width(), legend.height()), (SOURCE_W, 82));
    for row in 0..4 {
        let (x, y, w, h) = source_box(row);
        assert_eq!(legend.texel(x, y), Some(Ink::Lit));
        assert_eq!(legend.texel(x + w - 1, y + h - 1), Some(Ink::Lit));
        assert!(marked_texels(&legend, x + 1, y + 1, w - 2, h - 2) > 20, "row {row}");
    }
    let mut seed = Canvas::new(SOURCE_W, 82);
    seed.text_centred(SOURCE_W / 2, 66 + 4, "seed", Ink::Lit);
    assert_eq!(box_of(&legend, 1, 67, 62, 14), box_of(&seed, 1, 67, 62, 14));
}

#[test]
fn every_transport_key_is_outlined() {
    let raster = rasterize(&at_rest());
    for t in transport() {
        let x = button_x(t.col);
        let y = row_y(t.row);
        assert_ne!(raster.texel(x, y), Some(Ink::Back), "cc {}", t.cc);
        assert_ne!(raster.texel(x + BUTTON_W - 1, y + BUTTON_H - 1), Some(Ink::Back));
    }
}
