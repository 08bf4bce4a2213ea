use rterm::buffer::Buffer;
use rterm::glyph::{Color, Glyph};

fn chars_of(tail: &[(usize, Glyph)]) -> Vec<char> {
    tail.iter().map(|p| p.1.char).collect()
}

#[test]
fn fresh_buffer_is_empty_cells() {
    let buf = Buffer::new(4);
    assert_eq!(buf.cursor, 0);
    assert_eq!(buf.glyphs.len(), 4);
    for g in &buf.glyphs {
        assert_eq!(g.char, '\0');
    }
}

#[test]
fn glyph_default_attributes() {
    let g = Glyph::new('x');
    assert_eq!(g.char, 'x');
    let white = Color { r: 0x3F80_0000, g: 0x3F80_0000, b: 0x3F80_0000, a: 0x3F80_0000 };
    let clear = Color { r: 0, g: 0, b: 0, a: 0 };
    assert_eq!(g.foreground, white);
    assert_eq!(g.background, clear);
}

#[test]
fn push_overwrites_and_advances() {
    // After a push, the pre-push cursor cell holds the glyph and the cursor
    // is one further, modulo the capacity.
    let mut buf = Buffer::new(3);
    buf.push_glyph(Glyph::new('a'));
    assert_eq!(buf.glyphs[0].char, 'a');
    assert_eq!(buf.cursor, 1);
    buf.push_glyph(Glyph::new('b'));
    buf.push_glyph(Glyph::new('c'));
    assert_eq!(buf.cursor, 0);
    buf.push_glyph(Glyph::new('d'));
    assert_eq!(buf.glyphs[0].char, 'd');
    assert_eq!(buf.cursor, 1);
}

#[test]
fn cursor_wraps_at_push_count_mod_capacity() {
    let mut buf = Buffer::new(3);
    for _ in 0..7 {
        buf.push_glyph(Glyph::new('x'));
    }
    assert_eq!(buf.cursor, 7 % 3);
}

#[test]
fn seek_wraps_both_directions() {
    let mut buf = Buffer::new(5);
    buf.seek_cursor(-1);
    assert_eq!(buf.cursor, 4);
    buf.seek_cursor(1);
    assert_eq!(buf.cursor, 0);
    buf.seek_cursor(-7);
    assert_eq!(buf.cursor, 3);
    buf.seek_cursor(12);
    assert_eq!(buf.cursor, 0);
}

#[test]
fn seek_roundtrip_restores_cursor() {
    let mut buf = Buffer::new(5);
    buf.seek_cursor(2);
    let before = buf.cursor;
    buf.seek_cursor(7);
    buf.seek_cursor(-7);
    assert_eq!(buf.cursor, before);
    buf.seek_cursor(-3);
    buf.seek_cursor(3);
    assert_eq!(buf.cursor, before);
}

#[test]
fn push_text_pushes_each_character() {
    let mut buf = Buffer::new(5);
    buf.push_text("ab\ncd");
    let cells: Vec<char> = buf.glyphs.iter().map(|g| g.char).collect();
    assert_eq!(cells, vec!['a', 'b', '\n', 'c', 'd']);
    assert_eq!(buf.cursor, 0);
}

#[test]
fn tail_stops_at_newline_in_stale_segment() {
    // Capacity 5, push "ab\ncd": the cursor wraps to 0, the head segment is
    // ['a'], and the stale segment past the cursor ends before the '\n', so
    // the visible window is exactly ['a', 'b'].
    let mut buf = Buffer::new(5);
    buf.push_text("ab\ncd");
    let tail = buf.tail(10, 10);
    assert_eq!(chars_of(&tail), vec!['a', 'b']);
    assert_eq!(tail[0].0, 0);
    assert_eq!(tail[1].0, 1);
}

#[test]
fn tail_includes_stale_continuation() {
    // A line that wraps around the ring boundary still renders as one
    // continuous line: the stale cells past the cursor are included up to
    // the first terminator.
    let mut buf = Buffer::new(5);
    buf.push_text("abcde");
    buf.push_glyph(Glyph::new('x'));
    let tail = buf.tail(10, 10);
    assert_eq!(chars_of(&tail), vec!['x', 'b', 'c', 'd', 'e']);
    let indices: Vec<usize> = tail.iter().map(|p| p.0).collect();
    assert_eq!(indices, vec![0, 1, 2, 3, 4]);
}

#[test]
fn tail_stops_at_sentinel_in_stale_segment() {
    let mut buf = Buffer::new(6);
    buf.push_text("abc");
    let tail = buf.tail(10, 10);
    // Head is cells 0..=3 (the cursor cell still holds '\0'); the stale
    // segment stops at once on the next '\0'.
    assert_eq!(chars_of(&tail), vec!['a', 'b', 'c', '\0']);
}

#[test]
fn tail_keeps_only_last_rows() {
    let mut buf = Buffer::new(10);
    buf.push_text("abc\ndef");
    // One row of ten columns: the line ending at the cursor.
    let one_row = buf.tail(10, 1);
    assert_eq!(chars_of(&one_row), vec!['d', 'e', 'f', '\0']);
    // One row of two columns: only the last wrapped pair fits.
    let narrow = buf.tail(2, 1);
    assert_eq!(chars_of(&narrow), vec!['f', '\0']);
    // Two rows of two columns.
    let two_rows = buf.tail(2, 2);
    assert_eq!(chars_of(&two_rows), vec!['d', 'e', 'f', '\0']);
}

#[test]
fn tail_returns_everything_when_viewport_is_large() {
    let mut buf = Buffer::new(4);
    buf.push_text("hi");
    let tail = buf.tail(100, 100);
    assert_eq!(chars_of(&tail), vec!['h', 'i', '\0']);
}

#[test]
fn tail_empty_for_zero_viewport() {
    let mut buf = Buffer::new(5);
    buf.push_text("abc");
    assert!(buf.tail(0, 10).is_empty());
    assert!(buf.tail(10, 0).is_empty());
    assert!(buf.tail(0, 0).is_empty());
}

#[test]
fn tail_on_capacity_one() {
    let mut buf = Buffer::new(1);
    buf.push_glyph(Glyph::new('a'));
    assert_eq!(buf.cursor, 0);
    let tail = buf.tail(5, 5);
    assert_eq!(chars_of(&tail), vec!['a']);
}

#[test]
fn tail_carries_attributes_verbatim() {
    let mut buf = Buffer::new(3);
    let loud = Color { r: 1, g: 2, b: 3, a: 4 };
    let dim = Color { r: 5, g: 6, b: 7, a: 8 };
    buf.push_glyph(Glyph { char: 'q', foreground: loud, background: dim });
    let tail = buf.tail(10, 10);
    assert_eq!(tail[0].1.char, 'q');
    assert_eq!(tail[0].1.foreground, loud);
    assert_eq!(tail[0].1.background, dim);
}

#[test]
fn cursor_identity_holds_for_exactly_one_index() {
    let mut buf = Buffer::new(4);
    buf.push_text("aa");
    assert_eq!(buf.cursor, 2);
    let mut hits = 0;
    for i in 0..buf.glyphs.len() {
        if buf.is_at_cursor(i) {
            hits += 1;
            assert_eq!(i, 2);
        }
    }
    assert_eq!(hits, 1);
}
