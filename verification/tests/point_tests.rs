use code_grids::ParseError;
use code_grids::Point;

#[test]
fn valid_record_round_trips() {
    let p = Point::from_record(b"A5Y").unwrap();
    assert_eq!(p.canonical_form(), "A5Y");
    assert_eq!(p.get_pos(), (0, 4));
}

#[test]
fn lowercase_input_uppercases() {
    let p = Point::from_record(b"a5y").unwrap();
    assert_eq!(p.canonical_form(), "A5Y");
    assert_eq!(p.get_pos(), (0, 4));
}

#[test]
fn all_valid_records_round_trip() {
    let colors = [b'R', b'O', b'Y', b'G', b'B', b'I', b'V', b'?'];
    for s in [b'A', b'B', b'C', b'D', b'E', b'F'] {
        for d in [b'1', b'2', b'3', b'4', b'5', b'6'] {
            for c in colors {
                let rec = [s, d, c];
                let p = Point::from_record(&rec).unwrap();
                let text: Vec<u8> = p.canonical_form().into_bytes();
                assert_eq!(text, rec.to_vec());
            }
        }
    }
}

#[test]
fn transposed_swaps_coordinates() {
    let p = Point::from_record(b"B3G").unwrap();
    assert_eq!(p.get_pos(), (1, 2));
    assert_eq!(p.get_transposed(), (2, 1));
}

#[test]
fn positions_cover_grid_without_repeats() {
    let mut seen = [[false; 6]; 6];
    for s in [b'A', b'B', b'C', b'D', b'E', b'F'] {
        for d in [b'1', b'2', b'3', b'4', b'5', b'6'] {
            let rec = [s, d, b'R'];
            let p = Point::from_record(&rec).unwrap();
            let (x, y) = p.get_pos();
            assert!(x < 6 && y < 6);
            assert!(!seen[x as usize][y as usize]);
            seen[x as usize][y as usize] = true;
        }
    }
}

#[test]
fn colors_map_to_exact_triples() {
    assert_eq!(Point::from_record(b"A1R").unwrap().get_rgb(), (255, 24, 0));
    assert_eq!(Point::from_record(b"A1O").unwrap().get_rgb(), (255, 133, 0));
    assert_eq!(Point::from_record(b"A1Y").unwrap().get_rgb(), (252, 237, 0));
    assert_eq!(Point::from_record(b"A1G").unwrap().get_rgb(), (0, 109, 0));
    assert_eq!(Point::from_record(b"A1B").unwrap().get_rgb(), (0, 15, 255));
    assert_eq!(Point::from_record(b"A1I").unwrap().get_rgb(), (80, 15, 134));
    assert_eq!(Point::from_record(b"A1V").unwrap().get_rgb(), (158, 27, 219));
    assert_eq!(Point::from_record(b"A1?").unwrap().get_rgb(), (135, 74, 43));
}

#[test]
fn wrong_length_is_malformed() {
    assert_eq!(Point::from_record(b"").unwrap_err(), ParseError::MalformedRecord);
    assert_eq!(Point::from_record(b"A5").unwrap_err(), ParseError::MalformedRecord);
    assert_eq!(Point::from_record(b"A5YR").unwrap_err(), ParseError::MalformedRecord);
}

#[test]
fn bad_symbol_is_invalid_symbol() {
    assert_eq!(Point::from_record(b"G5Y").unwrap_err(), ParseError::InvalidSymbol);
    assert_eq!(Point::from_record(b"15Y").unwrap_err(), ParseError::InvalidSymbol);
}

#[test]
fn bad_slot_is_invalid_slot() {
    assert_eq!(Point::from_record(b"A0Y").unwrap_err(), ParseError::InvalidSlot);
    assert_eq!(Point::from_record(b"A7Y").unwrap_err(), ParseError::InvalidSlot);
    assert_eq!(Point::from_record(b"AAY").unwrap_err(), ParseError::InvalidSlot);
}

#[test]
fn bad_color_is_invalid_color() {
    assert_eq!(Point::from_record(b"A5Z").unwrap_err(), ParseError::InvalidColor);
    assert_eq!(Point::from_record(b"A50").unwrap_err(), ParseError::InvalidColor);
}

#[test]
fn first_failing_check_names_the_error() {
    assert_eq!(Point::from_record(b"G0ZX").unwrap_err(), ParseError::MalformedRecord);
    assert_eq!(Point::from_record(b"G0Z").unwrap_err(), ParseError::InvalidSymbol);
    assert_eq!(Point::from_record(b"A0Z").unwrap_err(), ParseError::InvalidSlot);
}
