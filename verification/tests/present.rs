use lightherder::config::focuses;
use lightherder::params::{Focus, Node};
use lightherder::present::{grid, tiles, View};

#[test]
fn a_solo_is_the_whole_tiling_with_one_tile() {
    assert_eq!(tiles(4, Some(2)).collect::<Vec<_>>(), vec![2]);
    assert_eq!(grid(tiles(4, Some(2)).len()), (1, 1));
    assert_eq!(tiles(4, None).collect::<Vec<_>>(), vec![0, 1, 2, 3]);
    assert_eq!(grid(tiles(4, None).len()), (2, 2));
    assert_eq!(View::Solo(3).solo(), Some(3));
    assert_eq!(View::Bank { focus: Some(1) }.solo(), None);
}

#[test]
fn the_grid_holds_every_monitor_and_stays_square() {
    for monitors in 1..=5 {
        let (cols, rows) = grid(monitors);
        assert!(cols * rows >= monitors as u32, "{monitors} monitors");
        assert!(cols.abs_diff(rows) <= 1, "{monitors}: {cols}x{rows}");
    }
    assert_eq!(grid(1), (1, 1));
    assert_eq!(grid(2), (2, 1));
    assert_eq!(grid(4), (2, 2));
    assert_eq!(grid(5), (3, 2));
    assert_eq!(grid(10), (4, 3));
}

#[test]
fn a_walk_over_a_side_steps_only_the_indices_it_reads() {
    let cameras = focuses(Some(Node::Camera));
    assert_eq!(
        cameras,
        (0..3).map(|camera| Focus { camera, monitor: 0, switcher: 0 }).collect::<Vec<_>>()
    );
    assert_eq!(focuses(Some(Node::Monitor)).len(), 5);
    assert_eq!(focuses(None), [Focus::default()]);
}
