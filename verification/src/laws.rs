use vstd::prelude::*;
use vstd::arithmetic::div_mod::{
    lemma_add_mod_noop_right, lemma_mod_division_less_than_divisor, lemma_small_mod,
};
use crate::buffer::{cursor_after_seek, lemma_scan_stop, push_seq, Buffer};
use crate::glyph::{is_terminator, Glyph};
use crate::wrap::{effective_row, lemma_keep_from_bounds, lemma_keep_from_kept, wrap_pos};

verus! {

/// Pushing a sequence of glyphs keeps the capacity and drives the cursor
/// forward by the number of glyphs pushed, modulo the capacity.
proof fn lemma_push_seq_cursor(cells: Seq<Glyph>, cursor: int, gs: Seq<Glyph>)
    requires
        1 <= cells.len(),
        0 <= cursor < cells.len(),
    ensures
        push_seq(cells, cursor, gs).0.len() == cells.len(),
        push_seq(cells, cursor, gs).1 == (cursor + gs.len()) % cells.len() as int,
    decreases gs.len(),
{
    let l = cells.len() as int;
    if gs.len() == 0 {
        lemma_small_mod(cursor as nat, l as nat);
    } else {
        let c1 = cursor_after_seek(cursor, l, 1);
        lemma_mod_division_less_than_divisor(cursor + 1, l);
        lemma_push_seq_cursor(cells.update(cursor, gs[0]), c1, gs.skip(1));
        lemma_add_mod_noop_right(gs.len() - 1, cursor + 1, l);
    }
}

/// Wraparound law: starting from a fresh buffer, whose cursor is at the
/// start, after any sequence of pushes the cursor sits at the number of
/// pushes modulo the capacity.
pub proof fn lemma_cursor_wraparound(cells: Seq<Glyph>, gs: Seq<Glyph>)
    requires
        1 <= cells.len(),
    ensures
        push_seq(cells, 0, gs).0.len() == cells.len(),
        push_seq(cells, 0, gs).1 == gs.len() as int % cells.len() as int,
{
    lemma_push_seq_cursor(cells, 0, gs);
}

/// Seek round-trip law: seeking by any integer offset and then by its
/// negation restores the cursor.
pub proof fn lemma_seek_roundtrip(cursor: int, cap: int, n: int)
    requires
        1 <= cap,
        0 <= cursor < cap,
    ensures
        cursor_after_seek(cursor_after_seek(cursor, cap, n), cap, -n) == cursor,
{
    lemma_add_mod_noop_right(-n, cursor + n, cap);
    lemma_small_mod(cursor as nat, cap as nat);
}

/// Row-budget law: every glyph the tail window keeps lies within the
/// viewport. Counting backward from the cursor end, as the window algorithm
/// does, its effective row is below `max_row`.
pub proof fn lemma_tail_row_bound(b: Buffer, max_col: int, max_row: int, j: int)
    requires
        b.wf(),
        0 <= j < b.tail_count(max_col, max_row),
    ensures
        effective_row(b.logical_chars().reverse(), max_col, j) < max_row,
{
    let rev = b.logical_chars().reverse();
    assert(wrap_pos(rev, max_col, 0) == (0int, 0int));
    lemma_keep_from_kept(rev, max_col, max_row, 0, j);
}

/// Ordering law: the visible window is a contiguous suffix of the logical
/// sequence, so the double reversal preserves relative order: glyph `j` of
/// the window is glyph `tail_start + j` of the logical sequence.
pub proof fn lemma_tail_ordering(b: Buffer, max_col: int, max_row: int)
    requires
        b.wf(),
    ensures
        0 <= b.tail_count(max_col, max_row) <= b.logical_seq().len(),
        b.tail_spec(max_col, max_row).len() == b.tail_count(max_col, max_row),
        forall|j: int|
            0 <= j < b.tail_count(max_col, max_row) ==> b.tail_spec(max_col, max_row)[j]
                == b.logical_seq()[b.tail_start(max_col, max_row) + j],
{
    lemma_scan_stop(b.chars(), b.cursor as int + 1);
    if max_col >= 1 {
        lemma_keep_from_bounds(b.logical_chars().reverse(), max_col, max_row, 0, 0, 0);
    }
}

/// Newline-boundary law: the stale segment past the cursor stops at the
/// first terminator. Every stale cell the logical sequence includes holds
/// ordinary content, and the cell that stopped the segment, if it lies
/// inside the ring, holds a newline or the unwritten sentinel.
pub proof fn lemma_newline_boundary(b: Buffer)
    requires
        b.wf(),
    ensures
        b.cursor + 1 <= b.logical_end() <= b.glyphs@.len(),
        forall|m: int|
            b.cursor + 1 <= m < b.logical_end() ==> !is_terminator(
                #[trigger] b.glyphs@[m].char,
            ),
        b.logical_end() < b.glyphs@.len() ==> is_terminator(
            b.glyphs@[b.logical_end()].char,
        ),
{
    lemma_scan_stop(b.chars(), b.cursor as int + 1);
    assert forall|m: int|
        b.cursor + 1 <= m < b.logical_end() implies !is_terminator(
        #[trigger] b.glyphs@[m].char,
    ) by {
        assert(b.chars()[m] == b.glyphs@[m].char);
    }
    if b.logical_end() < b.glyphs@.len() {
        assert(b.chars()[b.logical_end()] == b.glyphs@[b.logical_end()].char);
    }
}

/// Cursor-identity law: exactly one ring index is at the cursor: the
/// cursor's own, which is always a valid index.
pub proof fn lemma_cursor_identity(b: Buffer)
    requires
        b.wf(),
    ensures
        0 <= b.cursor < b.glyphs@.len(),
        b.at_cursor(b.cursor as int),
        forall|i: int| b.at_cursor(i) ==> i == b.cursor as int,
{
}

} // verus!
