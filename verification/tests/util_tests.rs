use xtrans_codec::colored::Colored;
use xtrans_codec::datagrid::DataGrid;
use xtrans_codec::datagrid::Position;
use xtrans_codec::datagrid::Size;
use xtrans_codec::process_common::flatten;
use xtrans_codec::zip_with_offset::zip_with_offset;
use xtrans_codec::Color;

#[test]
fn color_indexing() {
    assert_eq!(Color::Red.idx(), 0);
    assert_eq!(Color::Green.idx(), 1);
    assert_eq!(Color::Blue.idx(), 2);
    assert_eq!(Color::from(0), Some(Color::Red));
    assert_eq!(Color::from(2), Some(Color::Blue));
    assert_eq!(Color::from(3), None);
    assert_eq!(Color::Green.letter(), "G");
    assert_eq!(Color::Blue.multipliers(), [0, 0, 1]);
}

#[test]
fn grid_wrapping_access() {
    let size = Size(3, 2);
    assert_eq!(size.count(), 6);
    assert!(size.encloses(Position(2, 1)));
    assert!(!size.encloses(Position(3, 0)));
    let grid = DataGrid::wrap(vec![1u16, 2, 3, 4, 5, 6], Size(3, 2));
    assert_eq!(grid.at(Position(0, 0)), 1);
    assert_eq!(grid.at(Position(2, 1)), 6);
    // Both coordinates wrap modulo the window size.
    assert_eq!(grid.at(Position(3, 2)), 1);
    assert_eq!(grid.at(Position(5, 1)), 6);
    assert_eq!(grid.row(1), vec![4, 5, 6]);
}

#[test]
fn subgrid_re_anchors() {
    let grid = DataGrid::wrap((0u16..24).collect(), Size(6, 4));
    let sub = grid.subgrid(Position(2, 1), Size(2, 2));
    assert_eq!(sub.size(), Size(2, 2));
    assert_eq!(sub.at(Position(0, 0)), 8);
    assert_eq!(sub.at(Position(1, 1)), 15);
    // The sub-window wraps within its own bounds, not the parent's.
    assert_eq!(sub.at(Position(2, 0)), 8);
    assert_eq!(sub.row(0), vec![8, 9]);
}

#[test]
fn colored_record_access() {
    let mut c = Colored::new(1u32, 2u32, 3u32);
    assert_eq!(*c.get(Color::Red), 1);
    assert_eq!(*c.get(Color::Green), 2);
    *c.get_mut(Color::Blue) = 30;
    let (r, g, b) = c.split();
    assert_eq!((*r, *g, *b), (1, 2, 30));
    let (_, _, b) = c.split_mut();
    *b = 40;
    assert_eq!(*c.get(Color::Blue), 40);
}

#[test]
fn zip_with_offset_delays_each_stream() {
    let a = vec![10u8, 11];
    let b = vec![20u8, 21];
    let zipped = zip_with_offset(&a, 0, &b, 2);
    assert_eq!(
        zipped,
        vec![
            (Some(10), None),
            (Some(11), None),
            (None, Some(20)),
            (None, Some(21)),
        ]
    );
    assert_eq!(flatten(Some((1u8, 2u8))), (Some(1), Some(2)));
    assert_eq!(flatten::<u8, u8>(None), (None, None));
}
