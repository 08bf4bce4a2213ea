use rterm::buffer::Buffer;
use rterm::glyph::Glyph;
use rterm::input::{BufferHandler, DefaultHandler, Key};
use rterm::wrap::LineIter;

fn glyphs_of(text: &str) -> Vec<Glyph> {
    text.chars().map(Glyph::new).collect()
}

#[test]
fn line_iter_assigns_wrapped_coordinates() {
    let mut it = LineIter::new(glyphs_of("ab\ncd"), 2);
    let mut seen = Vec::new();
    while let Some((col, row, g)) = it.next() {
        seen.push((col, row, g.char));
    }
    assert_eq!(
        seen,
        vec![(0, 0, 'a'), (1, 0, 'b'), (0, 1, '\n'), (0, 2, 'c'), (1, 2, 'd')]
    );
}

#[test]
fn line_iter_newline_wraps_regardless_of_column() {
    let mut it = LineIter::new(glyphs_of("a\nb"), 80);
    assert_eq!(it.next().map(|(c, r, g)| (c, r, g.char)), Some((0, 0, 'a')));
    assert_eq!(it.next().map(|(c, r, g)| (c, r, g.char)), Some((1, 0, '\n')));
    assert_eq!(it.next().map(|(c, r, g)| (c, r, g.char)), Some((0, 1, 'b')));
    assert_eq!(it.next(), None);
}

#[test]
fn line_iter_wraps_at_zero_width_every_glyph() {
    let mut it = LineIter::new(glyphs_of("xy"), 0);
    assert_eq!(it.next().map(|(c, r, g)| (c, r, g.char)), Some((0, 0, 'x')));
    assert_eq!(it.next().map(|(c, r, g)| (c, r, g.char)), Some((0, 1, 'y')));
    assert_eq!(it.next(), None);
}

#[test]
fn enter_pushes_a_newline() {
    let mut buf = Buffer::new(4);
    let mut handler = DefaultHandler;
    handler.on_key(&mut buf, Key::Return);
    assert_eq!(buf.glyphs[0].char, '\n');
    assert_eq!(buf.cursor, 1);
}

#[test]
fn arrows_seek_by_one() {
    let mut buf = Buffer::new(4);
    let mut handler = DefaultHandler;
    handler.on_key(&mut buf, Key::Right);
    assert_eq!(buf.cursor, 1);
    handler.on_key(&mut buf, Key::Left);
    assert_eq!(buf.cursor, 0);
    handler.on_key(&mut buf, Key::Left);
    assert_eq!(buf.cursor, 3);
}

#[test]
fn backspace_retreats_destructively() {
    // Backspace at cursor k overwrites cell (k - 1) mod capacity with a
    // space and leaves the cursor there.
    let mut buf = Buffer::new(5);
    buf.push_text("abc");
    assert_eq!(buf.cursor, 3);
    let mut handler = DefaultHandler;
    handler.on_key(&mut buf, Key::Backspace);
    assert_eq!(buf.cursor, 2);
    assert_eq!(buf.glyphs[2].char, ' ');
    assert_eq!(buf.glyphs[0].char, 'a');
    assert_eq!(buf.glyphs[1].char, 'b');
}

#[test]
fn backspace_wraps_to_high_end() {
    let mut buf = Buffer::new(5);
    let mut handler = DefaultHandler;
    handler.on_key(&mut buf, Key::Backspace);
    assert_eq!(buf.cursor, 4);
    assert_eq!(buf.glyphs[4].char, ' ');
}

#[test]
fn other_keys_are_ignored() {
    let mut buf = Buffer::new(4);
    buf.push_text("ab");
    let before: Vec<char> = buf.glyphs.iter().map(|g| g.char).collect();
    let cursor = buf.cursor;
    let mut handler = DefaultHandler;
    handler.on_key(&mut buf, Key::Other);
    let after: Vec<char> = buf.glyphs.iter().map(|g| g.char).collect();
    assert_eq!(after, before);
    assert_eq!(buf.cursor, cursor);
}

#[test]
fn text_events_push_each_character() {
    let mut buf = Buffer::new(8);
    let mut handler = DefaultHandler;
    handler.on_text(&mut buf, String::from("hi\nyo"));
    let cells: Vec<char> = buf.glyphs.iter().map(|g| g.char).collect();
    assert_eq!(cells, vec!['h', 'i', '\n', 'y', 'o', '\0', '\0', '\0']);
    assert_eq!(buf.cursor, 5);
}
