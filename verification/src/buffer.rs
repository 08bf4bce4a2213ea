use vstd::prelude::*;
use vstd::arithmetic::div_mod::{
    lemma_fundamental_div_mod, lemma_fundamental_div_mod_converse_mod,
};
use crate::glyph::{default_glyph, is_terminator, Glyph};
use crate::wrap::{keep_count, keep_from, wrap_pos, wrap_step};

verus! {

/// The first position at or after `i` holding a terminator, or the length of
/// the sequence if none follows: where the stale segment past the cursor
/// ends.
pub open spec fn scan_stop(chars: Seq<char>, i: int) -> int
    decreases chars.len() - i,
{
    if i < 0 || i >= chars.len() {
        chars.len() as int
    } else if is_terminator(chars[i]) {
        i
    } else {
        scan_stop(chars, i + 1)
    }
}

/// `scan_stop` lands on the first terminator: everything before it from `i`
/// on is ordinary content, and the position itself, if inside the sequence,
/// holds a terminator.
pub proof fn lemma_scan_stop(chars: Seq<char>, i: int)
    requires
        0 <= i <= chars.len(),
    ensures
        i <= scan_stop(chars, i) <= chars.len(),
        forall|m: int| i <= m < scan_stop(chars, i) ==> !is_terminator(chars[m]),
        scan_stop(chars, i) < chars.len() ==> is_terminator(chars[scan_stop(chars, i)]),
    decreases chars.len() - i,
{
    if i < chars.len() && !is_terminator(chars[i]) {
        lemma_scan_stop(chars, i + 1);
    }
}

/// The cursor position that a seek by `n` reaches from `cursor`: offsets wrap
/// modulo the capacity in both directions, a negative offset wrapping to the
/// high end.
pub open spec fn cursor_after_seek(cursor: int, cap: int, n: int) -> int {
    (cursor + n) % cap
}

/// The buffer state after pushing the glyphs of `gs` in order: each push
/// overwrites the cell under the cursor and advances the cursor by one,
/// modulo the capacity. Returns the cells and the cursor.
pub open spec fn push_seq(cells: Seq<Glyph>, cursor: int, gs: Seq<Glyph>) -> (Seq<Glyph>, int)
    decreases gs.len(),
{
    if gs.len() == 0 {
        (cells, cursor)
    } else {
        push_seq(
            cells.update(cursor, gs[0]),
            cursor_after_seek(cursor, cells.len() as int, 1),
            gs.skip(1),
        )
    }
}

/// A fixed-capacity ring of glyph cells with a write cursor.
///
/// The cursor is the index of the *next* cell a push overwrites, never the
/// index of the last-written cell; it always stays inside the ring.
#[derive(Debug)]
pub struct Buffer {
    pub cursor: u32,
    pub glyphs: Vec<Glyph>,
}

impl Buffer {
    /// The ring invariant: at least one cell, the cursor inside the ring, and
    /// a capacity the 32-bit cursor can index.
    pub open spec fn wf(self) -> bool {
        &&& 1 <= self.glyphs@.len()
        &&& self.glyphs@.len() <= u32::MAX
        &&& (self.cursor as int) < self.glyphs@.len()
    }

    /// The characters held by the cells, in ring order.
    pub open spec fn chars(self) -> Seq<char> {
        self.glyphs@.map_values(|g: Glyph| g.char)
    }

    /// Builds a buffer of `size` unwritten cells with the cursor at the
    /// start. A zero capacity is rejected here once and for all: every cursor
    /// step elsewhere is taken modulo the capacity.
    pub fn new(size: usize) -> (buf: Buffer)
        requires
            1 <= size <= u32::MAX,
        ensures
            buf.wf(),
            buf.cursor == 0,
            buf.glyphs@ == Seq::new(size as nat, |i: int| default_glyph('\0')),
    {
        let mut glyphs: Vec<Glyph> = Vec::new();
        let mut i: usize = 0;
        while i < size
            invariant
                i <= size,
                glyphs@.len() == i,
                forall|j: int| 0 <= j < i ==> glyphs@[j] == default_glyph('\0'),
            decreases size - i,
        {
            glyphs.push(Glyph::new('\0'));
            i = i + 1;
        }
        proof {
            assert(glyphs@ =~= Seq::new(size as nat, |i: int| default_glyph('\0')));
        }
        Buffer { cursor: 0, glyphs }
    }

    /// Moves the cursor by the signed offset `n`, wrapping modulo the
    /// capacity in both directions. Cell contents are untouched.
    pub fn seek_cursor(&mut self, n: i32)
        requires
            old(self).wf(),
        ensures
            final(self).wf(),
            final(self).glyphs == old(self).glyphs,
            final(self).cursor as int == cursor_after_seek(
                old(self).cursor as int,
                old(self).glyphs@.len() as int,
                n as int,
            ),
    {
        let cap: u64 = self.glyphs.len() as u64;
        let cur: u64 = self.cursor as u64;
        let ghost capi = cap as int;
        if n >= 0 {
            let d: u64 = (n as u64) % cap;
            let s: u64 = cur + d;
            let r: u64 = if s >= cap {
                s - cap
            } else {
                s
            };
            proof {
                lemma_fundamental_div_mod(n as int, capi);
                let q = n as int / capi;
                assert(n as int == capi * q + d as int);
                assert(cur as int + n as int == capi * q + s as int);
                if s < cap {
                    assert(cur as int + n as int == q * capi + r as int);
                    lemma_fundamental_div_mod_converse_mod(
                        cur as int + n as int,
                        capi,
                        q,
                        r as int,
                    );
                } else {
                    assert(cur as int + n as int == (q + 1) * capi + r as int) by {
                        assert((q + 1) * capi == q * capi + capi) by (nonlinear_arith);
                    }
                    lemma_fundamental_div_mod_converse_mod(
                        cur as int + n as int,
                        capi,
                        q + 1,
                        r as int,
                    );
                }
            }
            self.cursor = r as u32;
        } else {
            let p: u64 = (-(n as i64)) as u64;
            let d: u64 = p % cap;
            let r: u64 = if cur >= d {
                cur - d
            } else {
                cur + cap - d
            };
            proof {
                assert(p as int == -(n as int));
                lemma_fundamental_div_mod(p as int, capi);
                let q = p as int / capi;
                assert(p as int == capi * q + d as int);
                if cur >= d {
                    assert(cur as int + n as int == (-q) * capi + r as int) by {
                        assert((-q) * capi == -(q * capi)) by (nonlinear_arith);
                    }
                    lemma_fundamental_div_mod_converse_mod(
                        cur as int + n as int,
                        capi,
                        -q,
                        r as int,
                    );
                } else {
                    assert(cur as int + n as int == (-q - 1) * capi + r as int) by {
                        assert((-q - 1) * capi == -(q * capi) - capi) by (nonlinear_arith);
                    }
                    lemma_fundamental_div_mod_converse_mod(
                        cur as int + n as int,
                        capi,
                        -q - 1,
                        r as int,
                    );
                }
            }
            self.cursor = r as u32;
        }
    }

    /// Overwrites the cell under the cursor with `glyph`, then advances the
    /// cursor by one, wrapping at the end of the ring. Exactly one cell
    /// changes.
    pub fn push_glyph(&mut self, glyph: Glyph)
        requires
            old(self).wf(),
        ensures
            final(self).wf(),
            final(self).glyphs@ == old(self).glyphs@.update(old(self).cursor as int, glyph),
            final(self).cursor as int == cursor_after_seek(
                old(self).cursor as int,
                old(self).glyphs@.len() as int,
                1,
            ),
            (final(self).glyphs@, final(self).cursor as int) == push_seq(
                old(self).glyphs@,
                old(self).cursor as int,
                seq![glyph],
            ),
    {
        let idx = self.cursor as usize;
        self.glyphs[idx] = glyph;
        self.seek_cursor(1);
        proof {
            let cells = old(self).glyphs@;
            let c = old(self).cursor as int;
            let l = cells.len() as int;
            assert(seq![glyph].skip(1) =~= Seq::<Glyph>::empty());
            assert(seq![glyph][0] == glyph);
            assert(push_seq(cells, c, seq![glyph]) == push_seq(
                cells.update(c, glyph),
                cursor_after_seek(c, l, 1),
                seq![glyph].skip(1),
            ));
            assert(push_seq(cells.update(c, glyph), cursor_after_seek(c, l, 1), Seq::<
                Glyph,
            >::empty()) == (cells.update(c, glyph), cursor_after_seek(c, l, 1)));
        }
    }

    /// Pushes each character of `text` in order as a default-attributed
    /// glyph.
    pub fn push_text(&mut self, text: &str)
        requires
            old(self).wf(),
        ensures
            final(self).wf(),
            final(self).glyphs@.len() == old(self).glyphs@.len(),
            (final(self).glyphs@, final(self).cursor as int) == push_seq(
                old(self).glyphs@,
                old(self).cursor as int,
                text@.map_values(|c: char| default_glyph(c)),
            ),
    {
        let ghost gs = text@.map_values(|c: char| default_glyph(c));
        proof {
            assert(gs.skip(0) =~= gs);
        }
        let n = text.unicode_len();
        let mut i: usize = 0;
        while i < n
            invariant
                i <= n,
                n == text@.len(),
                gs == text@.map_values(|c: char| default_glyph(c)),
                old(self).wf(),
                self.wf(),
                self.glyphs@.len() == old(self).glyphs@.len(),
                push_seq(old(self).glyphs@, old(self).cursor as int, gs) == push_seq(
                    self.glyphs@,
                    self.cursor as int,
                    gs.skip(i as int),
                ),
            decreases n - i,
        {
            let ghost pre = *self;
            let c = text.get_char(i);
            self.push_glyph(Glyph::new(c));
            proof {
                let rest = gs.skip(i as int);
                let cells = pre.glyphs@;
                let cu = pre.cursor as int;
                let l = cells.len() as int;
                assert(rest[0] == gs[i as int]);
                assert(gs[i as int] == default_glyph(c));
                assert(rest.skip(1) =~= gs.skip(i as int + 1));
                assert(push_seq(cells, cu, rest) == push_seq(
                    cells.update(cu, rest[0]),
                    cursor_after_seek(cu, l, 1),
                    rest.skip(1),
                ));
            }
            i = i + 1;
        }
        proof {
            assert(gs.skip(n as int) =~= Seq::<Glyph>::empty());
        }
    }

    /// One past the last cell of the logical sequence: content runs from
    /// cell 0 through the cursor cell, then on through the stale leftover
    /// cells past the cursor up to the first terminator or the end of the
    /// ring.
    pub open spec fn logical_end(self) -> int {
        scan_stop(self.chars(), self.cursor as int + 1)
    }

    /// The characters of the logical sequence: the head segment (cells 0
    /// through the cursor) followed by the stale tail segment, which
    /// continues the current unterminated line across the ring boundary.
    pub open spec fn logical_chars(self) -> Seq<char> {
        self.chars().subrange(0, self.logical_end())
    }

    /// The glyphs of the logical sequence, oldest first.
    pub open spec fn logical_seq(self) -> Seq<Glyph> {
        self.glyphs@.subrange(0, self.logical_end())
    }

    /// How many trailing glyphs of the logical sequence fit in the viewport:
    /// counting backward from the cursor end, glyphs are kept while their
    /// effective row stays under `max_row`. A zero wrap width shows nothing.
    pub open spec fn tail_count(self, max_col: int, max_row: int) -> int {
        if max_col <= 0 {
            0
        } else {
            keep_count(self.logical_chars().reverse(), max_col, max_row)
        }
    }

    /// The ring index of the first visible glyph.
    pub open spec fn tail_start(self, max_col: int, max_row: int) -> int {
        self.logical_end() - self.tail_count(max_col, max_row)
    }

    /// The visible window: the trailing part of the logical sequence that
    /// fits in `max_row` wrapped lines of `max_col` columns, oldest first.
    pub open spec fn tail_spec(self, max_col: int, max_row: int) -> Seq<Glyph> {
        self.glyphs@.subrange(self.tail_start(max_col, max_row), self.logical_end())
    }

    /// Computes the visible window for a viewport of `max_col` columns by
    /// `max_row` rows: the most recent wrapped lines ending at the cursor,
    /// oldest first. Each returned pair carries the ring index of the glyph
    /// beside the glyph itself, so a caller can ask `is_at_cursor` of it.
    pub fn tail(&self, max_col: u32, max_row: u32) -> (r: Vec<(usize, Glyph)>)
        requires
            self.wf(),
        ensures
            r@.len() == self.tail_count(max_col as int, max_row as int),
            forall|j: int|
                0 <= j < r@.len() ==> (#[trigger] r@[j]).0 as int == self.tail_start(
                    max_col as int,
                    max_row as int,
                ) + j && r@[j].1 == self.glyphs@[r@[j].0 as int],
            r@.map_values(|p: (usize, Glyph)| p.1) == self.tail_spec(
                max_col as int,
                max_row as int,
            ),
    {
        let ghost mc = max_col as int;
        let ghost mr = max_row as int;
        proof {
            lemma_scan_stop(self.chars(), self.cursor as int + 1);
        }
        if max_col == 0 {
            let out: Vec<(usize, Glyph)> = Vec::new();
            proof {
                assert(self.tail_spec(mc, mr) =~= Seq::<Glyph>::empty());
                assert(out@.map_values(|p: (usize, Glyph)| p.1) =~= Seq::<Glyph>::empty());
            }
            return out;
        }
        let cap = self.glyphs.len();
        let mut stop: usize = self.cursor as usize + 1;
        while stop < cap && self.glyphs[stop].char != '\n' && self.glyphs[stop].char != '\0'
            invariant
                self.wf(),
                cap == self.glyphs@.len(),
                self.cursor as int + 1 <= stop <= cap,
                scan_stop(self.chars(), self.cursor as int + 1) == scan_stop(
                    self.chars(),
                    stop as int,
                ),
            decreases cap - stop,
        {
            proof {
                assert(self.chars()[stop as int] == self.glyphs@[stop as int].char);
            }
            stop = stop + 1;
        }
        proof {
            if stop < cap {
                assert(self.chars()[stop as int] == self.glyphs@[stop as int].char);
            }
            assert(self.logical_end() == stop as int);
        }
        let ghost rev = self.logical_chars().reverse();
        let mut start: usize = stop;
        let mut col: u64 = 0;
        let mut row: u64 = 0;
        while start > 0
            invariant_except_break
                self.wf(),
                mc == max_col as int,
                mr == max_row as int,
                1 <= mc <= u32::MAX,
                0 <= mr <= u32::MAX,
                stop as int == self.logical_end(),
                stop <= self.glyphs@.len(),
                rev == self.logical_chars().reverse(),
                rev.len() == stop,
                0 <= start <= stop,
                (col as int, row as int) == wrap_pos(rev, mc, stop - start),
                col < mc,
                row <= mr + 1,
                keep_count(rev, mc, mr) == keep_from(
                    rev,
                    mc,
                    mr,
                    stop - start,
                    col as int,
                    row as int,
                ),
            ensures
                0 <= start <= stop,
                keep_count(rev, mc, mr) == stop - start,
            decreases start,
        {
            let g = self.glyphs[start - 1];
            proof {
                assert(rev[stop - start] == self.logical_chars()[start - 1]);
                assert(self.logical_chars()[start - 1] == self.chars()[start - 1]);
                assert(self.chars()[start - 1] == self.glyphs@[start - 1].char);
            }
            let eff: u64 = if g.char == '\n' {
                row + 1
            } else {
                row
            };
            if eff >= max_row as u64 {
                break ;
            }
            proof {
                let j = stop - start;
                assert(wrap_pos(rev, mc, j + 1) == wrap_step(col as int, row as int, rev[j], mc));
                assert(keep_from(rev, mc, mr, j, col as int, row as int) == keep_from(
                    rev,
                    mc,
                    mr,
                    j + 1,
                    wrap_pos(rev, mc, j + 1).0,
                    wrap_pos(rev, mc, j + 1).1,
                ));
            }
            start = start - 1;
            if g.char == '\n' {
                row = row + 1;
                col = 0;
            } else {
                col = col + 1;
            }
            if col >= max_col as u64 {
                row = row + 1;
                col = 0;
            }
        }
        proof {
            assert(self.tail_count(mc, mr) == stop - start);
            assert(self.tail_start(mc, mr) == start as int);
        }
        let mut out: Vec<(usize, Glyph)> = Vec::new();
        let mut i: usize = start;
        while i < stop
            invariant
                self.wf(),
                start <= i <= stop,
                stop <= self.glyphs@.len(),
                out@.len() == i - start,
                forall|j: int|
                    0 <= j < out@.len() ==> (#[trigger] out@[j]).0 as int == start + j
                        && out@[j].1 == self.glyphs@[start + j],
            decreases stop - i,
        {
            let g = self.glyphs[i];
            out.push((i, g));
            i = i + 1;
        }
        proof {
            assert(out@.map_values(|p: (usize, Glyph)| p.1) =~= self.tail_spec(mc, mr));
        }
        out
    }

    /// Whether `index` addresses the cell the cursor stands on.
    pub open spec fn at_cursor(self, index: int) -> bool {
        index == self.cursor
    }

    /// True exactly when `index` addresses the cell the cursor stands on.
    /// The cursor cell is singled out by its position in the ring, never by
    /// the value it holds: a value-equal glyph elsewhere is not at the
    /// cursor.
    pub fn is_at_cursor(&self, index: usize) -> (r: bool)
        ensures
            r <==> self.at_cursor(index as int),
    {
        index == self.cursor as usize
    }
}

} // verus!
