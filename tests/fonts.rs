use invaders::fonts::{futural_char, parse_glyph_line};

#[test]
fn glyph_line_is_parsed_into_margins_and_strokes() {
    let line = b"  501  9I[RFJ[ RRFZ[ RMTWT".to_vec();
    let (id, g) = parse_glyph_line(&line).unwrap();
    assert_eq!(id, 501);
    assert_eq!(g.left, -9);
    assert_eq!(g.right, 9);
    assert_eq!(
        g.strokes,
        vec![vec![(0, -12), (-8, 9)], vec![(0, -12), (8, 9)], vec![(-5, 2), (5, 2)]]
    );
}

#[test]
fn glyph_without_points_has_one_empty_stroke() {
    let (id, g) = parse_glyph_line(&b"  699  1JZ".to_vec()).unwrap();
    assert_eq!(id, 699);
    assert_eq!((g.left, g.right), (-8, 8));
    assert_eq!(g.strokes, vec![Vec::<(i32, i32)>::new()]);
    let (id, _) = parse_glyph_line(&b"12345  1JZ".to_vec()).unwrap();
    assert_eq!(id, 12345);
}

#[test]
fn malformed_glyph_lines_are_refused() {
    assert!(parse_glyph_line(&b"  501  9I".to_vec()).is_none());
    assert!(parse_glyph_line(&b"  501  9I[R".to_vec()).is_none());
    assert!(parse_glyph_line(&b"  5x1  9I[RF".to_vec()).is_none());
    assert!(parse_glyph_line(&b"       9I[RF".to_vec()).is_none());
    assert!(parse_glyph_line(&b" 5 01  9I[RF".to_vec()).is_none());
    assert!(parse_glyph_line(&Vec::new()).is_none());
}

#[test]
fn glyph_numbers_map_to_characters() {
    assert_eq!(futural_char(501), Some('A'));
    assert_eq!(futural_char(526), Some('Z'));
    assert_eq!(futural_char(601), Some('a'));
    assert_eq!(futural_char(699), Some(' '));
    assert_eq!(futural_char(700), Some('0'));
    assert_eq!(futural_char(804), Some('\\'));
    assert_eq!(futural_char(731), Some('\''));
    assert_eq!(futural_char(12345), Some('_'));
    assert_eq!(futural_char(1), None);
    assert_eq!(futural_char(710), None);
}
