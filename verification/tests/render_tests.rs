use code_grids::parse_corpus;
use code_grids::render_points;
use code_grids::slot_points;
use code_grids::Point;

fn cell(raw: &[u8], x: u32, y: u32) -> (u8, u8, u8) {
    let base: usize = 3 * (6 * y as usize + x as usize);
    (raw[base], raw[base + 1], raw[base + 2])
}

#[test]
fn empty_canvas_is_all_black() {
    let raw = render_points(&Vec::new()).to_raw();
    assert_eq!(raw.len(), 108);
    assert!(raw.iter().all(|&b| b == 0));
}

#[test]
fn single_point_paints_its_cell() {
    let p = Point::from_record(b"A5Y").unwrap();
    let raw = render_points(&vec![p]).to_raw();
    assert_eq!(cell(&raw, 0, 4), (252, 237, 0));
    assert_eq!(cell(&raw, 0, 0), (0, 0, 0));
    assert_eq!(cell(&raw, 4, 0), (0, 0, 0));
}

#[test]
fn later_point_overwrites_earlier() {
    let first = Point::from_record(b"A1R").unwrap();
    let second = Point::from_record(b"A1V").unwrap();
    let raw = render_points(&vec![first, second]).to_raw();
    assert_eq!(cell(&raw, 0, 0), (158, 27, 219));
}

#[test]
fn distinct_cells_keep_their_colors() {
    let a = Point::from_record(b"A1R").unwrap();
    let b = Point::from_record(b"F6B").unwrap();
    let raw = render_points(&vec![a, b]).to_raw();
    assert_eq!(cell(&raw, 0, 0), (255, 24, 0));
    assert_eq!(cell(&raw, 5, 5), (0, 15, 255));
}

#[test]
fn slot_points_collects_across_days() {
    let groups = parse_corpus(b"A1R\nB2O\n0\nC3Y\nD4G").unwrap();
    let s0 = slot_points(&groups, 0);
    assert_eq!(s0.len(), 2);
    assert_eq!(s0[0].canonical_form(), "A1R");
    assert_eq!(s0[1].canonical_form(), "C3Y");
    let s1 = slot_points(&groups, 1);
    assert_eq!(s1[0].canonical_form(), "B2O");
    assert_eq!(s1[1].canonical_form(), "D4G");
}

#[test]
fn end_to_end_two_days_share_cells() {
    let vis = b"A1R\nB2O\nC3Y\nD4G\nE5B\nF6I\n0\nA1V\nB2?\nC3R\nD4O\nE5Y\nF6G\n";
    let groups = parse_corpus(vis).unwrap();
    assert_eq!(groups.len(), 2);
    for i in 0..6 {
        let pts = slot_points(&groups, i);
        assert_eq!(pts.len(), 2);
        let raw = render_points(&pts).to_raw();
        // both days map this slot to the same cell: the later day's color stands
        let (x, y) = pts[1].get_pos();
        assert_eq!((x, y), pts[0].get_pos());
        assert_eq!(cell(&raw, x, y), pts[1].get_rgb());
        // exactly one cell is painted: the two writes collide in position
        let mut lit: usize = 0;
        for yy in 0..6 {
            for xx in 0..6 {
                if cell(&raw, xx, yy) != (0, 0, 0) {
                    lit += 1;
                }
            }
        }
        assert_eq!(lit, 1);
    }
}

#[test]
fn slot_zero_end_to_end_colors() {
    let groups = parse_corpus(b"A1R\nB2O\nC3Y\nD4G\nE5B\nF6I\n0\nA1V\nB2?\nC3R\nD4O\nE5Y\nF6G\n")
        .unwrap();
    let pts = slot_points(&groups, 0);
    let raw = render_points(&pts).to_raw();
    // day 1 wrote red at (0, 0); day 2 overwrote it with violet
    assert_eq!(cell(&raw, 0, 0), (158, 27, 219));
}
