use typthon::location::{location_from_range, module_location, span_location, LineIndex, SourceLocationExt, Span};

#[test]
fn test_line_index() {
    let source = "line1\nline2\nline3";
    let index = LineIndex::new(source);
    assert_eq!(index.offset_to_position(0), (1, 0));
    assert_eq!(index.offset_to_position(6), (2, 0));
    assert_eq!(index.offset_to_position(12), (3, 0));
}

#[test]
fn positions_inside_lines_and_past_the_end() {
    let index = LineIndex::new("ab\ncde\n\nf");
    assert_eq!(index.offset_to_position(1), (1, 1));
    assert_eq!(index.offset_to_position(2), (1, 2));
    assert_eq!(index.offset_to_position(5), (2, 2));
    assert_eq!(index.offset_to_position(7), (3, 0));
    assert_eq!(index.offset_to_position(8), (4, 0));
    assert_eq!(index.offset_to_position(20), (4, 12));
}

#[test]
fn span_and_module_locations() {
    let index = LineIndex::new("def foo():\n    return 42");
    let loc = span_location(&index, Span { start: 0, end: 24 });
    assert_eq!((loc.line, loc.col, loc.end_line, loc.end_col), (1, 0, 2, 13));
    let same = Span { start: 0, end: 24 }.source_location(&index);
    assert_eq!(same, loc);
    let m = module_location(&index, &[Span { start: 0, end: 10 }, Span { start: 15, end: 24 }]);
    assert_eq!((m.line, m.col, m.end_line, m.end_col), (1, 0, 2, 13));
    let empty = module_location(&index, &[]);
    assert_eq!((empty.line, empty.col, empty.end_line, empty.end_col), (1, 0, 1, 0));
}

#[test]
fn rough_location_from_offsets() {
    let loc = location_from_range(170, 5);
    assert_eq!((loc.line, loc.col, loc.end_line, loc.end_col), (3, 10, 1, 5));
}
