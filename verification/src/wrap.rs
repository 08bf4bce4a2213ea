use vstd::prelude::*;
use crate::glyph::Glyph;

verus! {

/// Column/row bookkeeping for one glyph: a newline forces a wrap regardless
/// of the column budget, any other character advances the column, and a
/// column at or past the wrap width then forces a wrap as well.
pub open spec fn wrap_step(col: int, row: int, c: char, max_col: int) -> (int, int) {
    let adv = if c == '\n' {
        (0int, row + 1)
    } else {
        (col + 1, row)
    };
    if adv.0 >= max_col {
        (0int, adv.1 + 1)
    } else {
        adv
    }
}

/// The (column, row) pair assigned to position `i` of a character sequence
/// when it is wrapped at `max_col` columns: the state after folding
/// `wrap_step` over the first `i` characters.
pub open spec fn wrap_pos(chars: Seq<char>, max_col: int, i: int) -> (int, int)
    decreases i,
{
    if i <= 0 {
        (0int, 0int)
    } else {
        let prev = wrap_pos(chars, max_col, i - 1);
        wrap_step(prev.0, prev.1, chars[i - 1], max_col)
    }
}

/// The row a glyph is charged to when bounding a viewport: a newline is
/// attributed to the row it terminates, so it counts one row further.
pub open spec fn effective_row(chars: Seq<char>, max_col: int, i: int) -> int {
    wrap_pos(chars, max_col, i).1 + if chars[i] == '\n' {
        1int
    } else {
        0int
    }
}

/// The wrap position only reads the characters before `i`: two sequences
/// that agree on that prefix assign position `i` the same coordinates.
pub proof fn lemma_wrap_pos_prefix(s: Seq<char>, t: Seq<char>, max_col: int, i: int)
    requires
        0 <= i,
        forall|m: int| 0 <= m < i ==> s[m] == t[m],
    ensures
        wrap_pos(s, max_col, i) == wrap_pos(t, max_col, i),
    decreases i,
{
    if i > 0 {
        lemma_wrap_pos_prefix(s, t, max_col, i - 1);
    }
}

/// Both counters grow by at most a bounded amount per character: the column
/// by one, the row by two. This keeps the executable counters in range.
pub proof fn lemma_wrap_pos_bounds(chars: Seq<char>, max_col: int, i: int)
    requires
        0 <= i,
    ensures
        0 <= wrap_pos(chars, max_col, i).0 <= i,
        0 <= wrap_pos(chars, max_col, i).1 <= 2 * i,
    decreases i,
{
    if i > 0 {
        lemma_wrap_pos_bounds(chars, max_col, i - 1);
    }
}

/// Where truncation to `max_row` rows stops, scanning a (already reversed)
/// character sequence from position `i` with wrap state `(col, row)`: glyphs
/// are kept while their effective row stays under `max_row`, and the first
/// glyph at or past the budget ends the scan. Returns the position of that
/// first dropped glyph, or the length if all are kept.
pub open spec fn keep_from(
    chars: Seq<char>,
    max_col: int,
    max_row: int,
    i: int,
    col: int,
    row: int,
) -> int
    decreases chars.len() - i,
{
    if i < 0 || i >= chars.len() {
        i
    } else {
        let eff = if chars[i] == '\n' {
            row + 1
        } else {
            row
        };
        if eff >= max_row {
            i
        } else {
            let next = wrap_step(col, row, chars[i], max_col);
            keep_from(chars, max_col, max_row, i + 1, next.0, next.1)
        }
    }
}

/// How many leading glyphs of a reversed sequence fit in `max_row` rows.
pub open spec fn keep_count(chars: Seq<char>, max_col: int, max_row: int) -> int {
    keep_from(chars, max_col, max_row, 0, 0, 0)
}

/// The scan never moves backward and never runs past the sequence.
pub proof fn lemma_keep_from_bounds(
    chars: Seq<char>,
    max_col: int,
    max_row: int,
    i: int,
    col: int,
    row: int,
)
    requires
        0 <= i <= chars.len(),
    ensures
        i <= keep_from(chars, max_col, max_row, i, col, row) <= chars.len(),
    decreases chars.len() - i,
{
    if i < chars.len() {
        let next = wrap_step(col, row, chars[i], max_col);
        lemma_keep_from_bounds(chars, max_col, max_row, i + 1, next.0, next.1);
    }
}

/// Every glyph the scan keeps lies within the row budget: its effective row
/// under backward wrapping is below `max_row`.
pub proof fn lemma_keep_from_kept(chars: Seq<char>, max_col: int, max_row: int, i: int, j: int)
    requires
        0 <= i <= j,
        j < keep_from(
            chars,
            max_col,
            max_row,
            i,
            wrap_pos(chars, max_col, i).0,
            wrap_pos(chars, max_col, i).1,
        ),
    ensures
        j < chars.len(),
        effective_row(chars, max_col, j) < max_row,
    decreases j - i,
{
    let pos = wrap_pos(chars, max_col, i);
    lemma_keep_from_bounds(chars, max_col, max_row, i, pos.0, pos.1);
    if i < j {
        assert(wrap_pos(chars, max_col, i + 1) == wrap_step(pos.0, pos.1, chars[i], max_col));
        lemma_keep_from_kept(chars, max_col, max_row, i + 1, j);
    }
}

/// Assigns `(column, row)` coordinates to each glyph of a sequence in order,
/// wrapping at a fixed column width. Consumed once, front to back; the same
/// bookkeeping serves forward layout and, over a reversed sequence, the
/// backward row counting of the tail window.
pub struct LineIter {
    pub glyphs: Vec<Glyph>,
    pub pos: usize,
    pub col: u32,
    pub row: u32,
    pub max_col: u32,
}

impl LineIter {
    /// The characters of the sequence being wrapped.
    pub open spec fn chars(self) -> Seq<char> {
        self.glyphs@.map_values(|g: Glyph| g.char)
    }

    /// The iterator has emitted the first `pos` glyphs and its counters hold
    /// the wrap position of the next one.
    pub open spec fn wf(self) -> bool {
        &&& self.pos <= self.glyphs@.len()
        &&& 2 * self.glyphs@.len() + 2 <= u32::MAX
        &&& (self.col as int, self.row as int) == wrap_pos(
            self.chars(),
            self.max_col as int,
            self.pos as int,
        )
    }

    /// Starts a traversal of `glyphs` with wrap width `max_col`, at the
    /// origin. The length bound keeps the 32-bit counters from overflowing.
    pub fn new(glyphs: Vec<Glyph>, max_col: u32) -> (it: LineIter)
        requires
            2 * glyphs@.len() + 2 <= u32::MAX,
        ensures
            it.wf(),
            it.glyphs == glyphs,
            it.pos == 0,
            it.max_col == max_col,
    {
        LineIter { glyphs, pos: 0, col: 0, row: 0, max_col }
    }

    /// Emits the next glyph with the coordinates it occupies, then advances
    /// the counters by one `wrap_step`; `None` once the sequence is spent.
    pub fn next(&mut self) -> (r: Option<(u32, u32, Glyph)>)
        requires
            old(self).wf(),
        ensures
            final(self).wf(),
            final(self).glyphs == old(self).glyphs,
            final(self).max_col == old(self).max_col,
            old(self).pos < old(self).glyphs@.len() ==> {
                &&& final(self).pos == old(self).pos + 1
                &&& r == Some(
                    (old(self).col, old(self).row, old(self).glyphs@[old(self).pos as int]),
                )
            },
            old(self).pos >= old(self).glyphs@.len() ==> r is None && *final(self) == *old(
                self,
            ),
    {
        if self.pos >= self.glyphs.len() {
            return None;
        }
        let glyph = self.glyphs[self.pos];
        let res = (self.col, self.row, glyph);
        proof {
            lemma_wrap_pos_bounds(self.chars(), self.max_col as int, self.pos as int);
            assert(self.chars()[self.pos as int] == glyph.char);
        }
        if glyph.char == '\n' {
            self.row = self.row + 1;
            self.col = 0;
        } else {
            self.col = self.col + 1;
        }
        if self.col >= self.max_col {
            self.row = self.row + 1;
            self.col = 0;
        }
        self.pos = self.pos + 1;
        Some(res)
    }
}

} // verus!
