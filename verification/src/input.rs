use vstd::prelude::*;
use crate::buffer::{cursor_after_seek, push_seq, Buffer};
use crate::glyph::{default_glyph, Glyph};

verus! {

/// The key events the input policies distinguish. Every key that the default
/// policy ignores is carried as `Other`.
#[derive(Clone, Copy, PartialEq, Eq, Structural, Debug)]
pub enum Key {
    Return,
    Left,
    Right,
    Backspace,
    Other,
}

/// A capability-based input policy: it turns key and text events into buffer
/// mutations, and may only go through the buffer's public operations. What a
/// policy guarantees of an event is stated by its two spec functions, which
/// each implementation supplies.
pub trait BufferHandler {
    /// What this policy guarantees a key event does to the buffer.
    spec fn key_post(&self, pre: Buffer, post: Buffer, key: Key) -> bool;

    /// What this policy guarantees a text event does to the buffer.
    spec fn text_post(&self, pre: Buffer, post: Buffer, text: Seq<char>) -> bool;

    /// Handles one key event.
    fn on_key(&mut self, buffer: &mut Buffer, key: Key)
        requires
            old(buffer).wf(),
        ensures
            final(buffer).wf(),
            old(self).key_post(*old(buffer), *final(buffer), key),
    ;

    /// Handles one text event.
    fn on_text(&mut self, buffer: &mut Buffer, text: String)
        requires
            old(buffer).wf(),
        ensures
            final(buffer).wf(),
            old(self).text_post(*old(buffer), *final(buffer), text@),
    ;
}

/// The default input policy: Enter pushes a newline, the arrow keys seek the
/// cursor by one in either direction, Backspace retreats the cursor and
/// overwrites the now-current cell with a space (a destructive retreat, not
/// the ring's natural push), and every other key is a no-op.
#[derive(Debug)]
pub struct DefaultHandler;

impl BufferHandler for DefaultHandler {
    open spec fn key_post(&self, pre: Buffer, post: Buffer, key: Key) -> bool {
        match key {
            Key::Return => (post.glyphs@, post.cursor as int) == push_seq(
                pre.glyphs@,
                pre.cursor as int,
                seq![default_glyph('\n')],
            ),
            Key::Left => post.glyphs@ == pre.glyphs@ && post.cursor as int == cursor_after_seek(
                pre.cursor as int,
                pre.glyphs@.len() as int,
                -1,
            ),
            Key::Right => post.glyphs@ == pre.glyphs@ && post.cursor as int == cursor_after_seek(
                pre.cursor as int,
                pre.glyphs@.len() as int,
                1,
            ),
            Key::Backspace => {
                let k = cursor_after_seek(pre.cursor as int, pre.glyphs@.len() as int, -1);
                post.cursor as int == k && post.glyphs@ == pre.glyphs@.update(
                    k,
                    default_glyph(' '),
                )
            },
            Key::Other => post == pre,
        }
    }

    open spec fn text_post(&self, pre: Buffer, post: Buffer, text: Seq<char>) -> bool {
        (post.glyphs@, post.cursor as int) == push_seq(
            pre.glyphs@,
            pre.cursor as int,
            text.map_values(|c: char| default_glyph(c)),
        )
    }

    fn on_key(&mut self, buffer: &mut Buffer, key: Key) {
        match key {
            Key::Return => {
                buffer.push_text("\n");
                proof {
                    reveal_strlit("\n");
                    assert("\n"@ =~= seq!['\n']);
                    assert("\n"@.map_values(|c: char| default_glyph(c)) =~= seq![
                        default_glyph('\n'),
                    ]);
                }
            },
            Key::Left => buffer.seek_cursor(-1),
            Key::Right => buffer.seek_cursor(1),
            Key::Backspace => {
                buffer.seek_cursor(-1);
                let idx = buffer.cursor as usize;
                buffer.glyphs[idx] = Glyph::new(' ');
            },
            Key::Other => (),
        }
    }

    fn on_text(&mut self, buffer: &mut Buffer, text: String) {
        buffer.push_text(text.as_str());
    }
}

} // verus!
