use nexus::lsp::position::{CheckPosition, LineIndex};
use nexus::types::Span;

#[test]
fn single_line() {
    let idx = LineIndex::new("hello");
    let pos = idx.offset_to_position(3);
    assert_eq!(pos.line, 0);
    assert_eq!(pos.character, 3);
}

#[test]
fn multi_line() {
    let idx = LineIndex::new("ab\ncd\nef");
    assert_eq!(idx.offset_to_position(0), CheckPosition { line: 0, character: 0 });
    assert_eq!(idx.offset_to_position(3), CheckPosition { line: 1, character: 0 });
    assert_eq!(idx.offset_to_position(4), CheckPosition { line: 1, character: 1 });
    assert_eq!(idx.offset_to_position(6), CheckPosition { line: 2, character: 0 });
}

#[test]
fn roundtrip() {
    let idx = LineIndex::new("ab\ncd\nef");
    let pos = CheckPosition { line: 1, character: 1 };
    let offset = idx.position_to_offset(pos);
    assert_eq!(offset, 4);
    assert_eq!(idx.offset_to_position(offset), pos);
}

#[test]
fn offsets_behind_the_end_are_the_end() {
    let idx = LineIndex::new("ab\ncd");
    assert_eq!(idx.offset_to_position(99), CheckPosition { line: 1, character: 2 });
    assert_eq!(idx.position_to_offset(CheckPosition { line: 7, character: 0 }), 5);
    assert_eq!(idx.position_to_offset(CheckPosition { line: 1, character: 40 }), 5);
}

#[test]
fn every_offset_leads_back() {
    let text = "a\n\nbc\nd";
    let idx = LineIndex::new(text);
    for o in 0..text.len() + 1 {
        assert_eq!(idx.position_to_offset(idx.offset_to_position(o)), o);
    }
    assert_eq!(idx.line_count(), 4);
}

#[test]
fn columns_count_bytes() {
    let idx = LineIndex::new("ä\nb");
    assert_eq!(idx.offset_to_position(2), CheckPosition { line: 0, character: 2 });
    assert_eq!(idx.offset_to_position(3), CheckPosition { line: 1, character: 0 });
}

#[test]
fn spans_become_ranges() {
    let idx = LineIndex::new("ab\ncd");
    let r = idx.span_to_range(&Span { start: 1, end: 4 });
    assert_eq!(r.start, CheckPosition { line: 0, character: 1 });
    assert_eq!(r.end, CheckPosition { line: 1, character: 1 });
}
