//! Inline rendering: where the drawn area sits in the terminal's main
//! buffer, and the cursor operations that reserve, grow and clear it.
use vstd::prelude::*;

verus! {

/// A cursor or screen operation of inline rendering.
#[derive(Debug, Clone, Copy, PartialEq, Eq, Structural)]
pub enum InlineOp {
    /// Move the cursor to `(column, row)`
    MoveTo(u16, u16),
    /// Move the cursor up by some rows
    MoveUp(u16),
    /// Print a newline (scrolls at the bottom of the screen)
    Newline,
    /// Clear the line under the cursor
    ClearLine,
}

/// Where the inline area is and how tall it is.
#[derive(Debug)]
pub struct InlineState {
    /// Row where the area starts
    pub origin_row: u16,
    /// Column where drawing starts
    pub origin_col: u16,
    /// Height of the area
    pub reserved_height: u16,
    /// Terminal size when the area was reserved
    pub terminal_size: (u16, u16),
    /// Whether the area has been reserved
    pub initialized: bool,
}

/// `n` newlines.
pub open spec fn newlines(n: int) -> Seq<InlineOp> {
    Seq::new(n as nat, |i: int| InlineOp::Newline)
}

/// For each row from `from` up to `to`, move to its start (below `origin`)
/// and clear it.
pub open spec fn clear_rows(origin: int, from: int, to: int) -> Seq<InlineOp>
    decreases to - from,
{
    if to <= from {
        Seq::empty()
    } else {
        clear_rows(origin, from, to - 1) + seq![InlineOp::MoveTo(0, (origin + to - 1) as u16), InlineOp::ClearLine]
    }
}

impl InlineState {
    /// An area not reserved yet, for an 80 by 24 terminal.
    pub fn new() -> (s: InlineState)
        ensures
            s.origin_row == 0,
            s.origin_col == 0,
            s.reserved_height == 0,
            s.terminal_size == (80u16, 24u16),
            !s.initialized,
    {
        InlineState { origin_row: 0, origin_col: 0, reserved_height: 0, terminal_size: (80, 24), initialized: false }
    }

    /// Starts reserving an area of `height` lines, at most the terminal's
    /// height: returns that height and the newlines that make room (the
    /// terminal scrolls when needed), followed by moving back up.  The
    /// caller then reads the cursor position and hands it to
    /// `settle_origin`.
    pub fn reserve_space(&mut self, terminal_size: (u16, u16), height: u16) -> (r: (u16, Vec<InlineOp>))
        ensures
            r.0 == (if height < terminal_size.1 { height } else { terminal_size.1 }),
            r.1@ == newlines(r.0 as int) + (if r.0 > 0 { seq![InlineOp::MoveUp(r.0)] } else { Seq::empty() }),
            final(self).terminal_size == terminal_size,
            final(self).origin_row == old(self).origin_row,
            final(self).origin_col == old(self).origin_col,
            final(self).reserved_height == old(self).reserved_height,
            final(self).initialized == old(self).initialized,
    {
        self.terminal_size = terminal_size;
        let (_, term_height) = terminal_size;
        let h = if height < term_height { height } else { term_height };
        let mut ops: Vec<InlineOp> = Vec::new();
        let mut i: u16 = 0;
        while i < h
            invariant
                i <= h,
                ops@ == newlines(i as int),
            decreases h - i,
        {
            ops.push(InlineOp::Newline);
            assert(ops@ =~= newlines(i + 1));
            i = i + 1;
        }
        if h > 0 {
            ops.push(InlineOp::MoveUp(h));
        }
        proof {
            let tail: Seq<InlineOp> = if h > 0 { seq![InlineOp::MoveUp(h)] } else { Seq::empty() };
            assert(ops@ =~= newlines(h as int) + tail);
        }
        (h, ops)
    }

    /// Finishes reserving: the cursor position read after making room is
    /// the area's origin; the area is `height` lines tall.  Returns the
    /// operations that clear it and put the cursor back at the origin.
    pub fn settle_origin(&mut self, cursor: (u16, u16), height: u16) -> (ops: Vec<InlineOp>)
        requires
            cursor.1 + height <= u16::MAX + 1,
        ensures
            final(self).origin_col == cursor.0,
            final(self).origin_row == cursor.1,
            final(self).reserved_height == height,
            final(self).initialized,
            final(self).terminal_size == old(self).terminal_size,
            ops@ == clear_rows(cursor.1 as int, 0, height as int) + seq![InlineOp::MoveTo(cursor.0, cursor.1)],
    {
        let (col, row) = cursor;
        self.origin_row = row;
        self.origin_col = col;
        self.reserved_height = height;
        self.initialized = true;
        self.clear_area(height)
    }

    /// Clears the first `height` lines of the area and puts the cursor
    /// back at the origin.
    pub fn clear_area(&self, height: u16) -> (ops: Vec<InlineOp>)
        requires
            self.origin_row + height <= u16::MAX + 1,
        ensures
            ops@ == clear_rows(self.origin_row as int, 0, height as int) + seq![
                InlineOp::MoveTo(self.origin_col, self.origin_row),
            ],
    {
        let mut ops = self.clear_rows_from(0, height);
        ops.push(InlineOp::MoveTo(self.origin_col, self.origin_row));
        ops
    }

    fn clear_rows_from(&self, from: u16, to: u16) -> (ops: Vec<InlineOp>)
        requires
            from <= to,
            self.origin_row + to <= u16::MAX + 1,
        ensures
            ops@ == clear_rows(self.origin_row as int, from as int, to as int),
    {
        let mut ops: Vec<InlineOp> = Vec::new();
        let mut row: u16 = from;
        assert(clear_rows(self.origin_row as int, from as int, from as int) =~= Seq::<InlineOp>::empty());
        while row < to
            invariant
                from <= row <= to,
                self.origin_row + to <= u16::MAX + 1,
                ops@ == clear_rows(self.origin_row as int, from as int, row as int),
            decreases to - row,
        {
            ops.push(InlineOp::MoveTo(0, self.origin_row + row));
            ops.push(InlineOp::ClearLine);
            assert(ops@ =~= clear_rows(self.origin_row as int, from as int, row + 1));
            row = row + 1;
        }
        ops
    }

    /// Grows the area to `new_height` lines when that is taller: prints
    /// the extra newlines below it, moves the origin up by as many rows as
    /// the bottom now passes the terminal's height (not above row 0), and
    /// clears the new lines.  A shorter or equal height changes nothing.
    pub fn expand_space(&mut self, new_height: u16) -> (ops: Vec<InlineOp>)
        requires
            old(self).origin_row + new_height <= u16::MAX,
        ensures
            new_height <= old(self).reserved_height ==> ops@.len() == 0 && final(self).origin_row
                == old(self).origin_row && final(self).reserved_height == old(self).reserved_height,
            new_height > old(self).reserved_height ==> {
                let bottom = old(self).origin_row + new_height;
                let term = old(self).terminal_size.1;
                let origin = if bottom > term {
                    if old(self).origin_row >= bottom - term { old(self).origin_row - (bottom - term) } else { 0 }
                } else {
                    old(self).origin_row as int
                };
                &&& final(self).origin_row == origin
                &&& final(self).reserved_height == new_height
                &&& ops@ == seq![InlineOp::MoveTo(0, (old(self).origin_row + old(self).reserved_height) as u16)]
                    + newlines(new_height - old(self).reserved_height)
                    + clear_rows(origin, old(self).reserved_height as int, new_height as int)
            },
            final(self).origin_col == old(self).origin_col,
            final(self).terminal_size == old(self).terminal_size,
            final(self).initialized == old(self).initialized,
    {
        if new_height <= self.reserved_height {
            return Vec::new();
        }
        let additional = new_height - self.reserved_height;
        let old_height = self.reserved_height;
        let mut ops: Vec<InlineOp> = Vec::new();
        ops.push(InlineOp::MoveTo(0, self.origin_row + self.reserved_height));
        let mut i: u16 = 0;
        while i < additional
            invariant
                i <= additional,
                ops@ == seq![InlineOp::MoveTo(0, (self.origin_row + old_height) as u16)] + newlines(i as int),
            decreases additional - i,
        {
            ops.push(InlineOp::Newline);
            assert(ops@ =~= seq![InlineOp::MoveTo(0, (self.origin_row + old_height) as u16)] + newlines(i + 1));
            i = i + 1;
        }
        let (_, term_height) = self.terminal_size;
        let bottom_row = self.origin_row + new_height;
        if bottom_row > term_height {
            let scroll_amount = bottom_row - term_height;
            self.origin_row = self.origin_row.saturating_sub(scroll_amount);
        }
        self.reserved_height = new_height;
        let mut cleared = self.clear_rows_from(old_height, new_height);
        ops.append(&mut cleared);
        ops
    }

    /// Moves the cursor to the area's origin.
    pub fn move_to_origin(&self) -> (ops: Vec<InlineOp>)
        ensures
            ops@ == seq![InlineOp::MoveTo(self.origin_col, self.origin_row)],
    {
        let mut ops: Vec<InlineOp> = Vec::new();
        ops.push(InlineOp::MoveTo(self.origin_col, self.origin_row));
        ops
    }

    /// Moves the cursor below the area and starts a fresh line, so the
    /// shell prompt comes after the output.
    pub fn move_to_end(&self) -> (ops: Vec<InlineOp>)
        requires
            self.origin_row + self.reserved_height <= u16::MAX,
        ensures
            ops@ == seq![InlineOp::MoveTo(0, (self.origin_row + self.reserved_height) as u16), InlineOp::Newline],
    {
        let mut ops: Vec<InlineOp> = Vec::new();
        ops.push(InlineOp::MoveTo(0, self.origin_row + self.reserved_height));
        ops.push(InlineOp::Newline);
        ops
    }

    /// The row within the area of a terminal row, or `None` outside it.
    pub fn translate_row(&self, terminal_row: u16) -> (r: Option<u16>)
        requires
            terminal_row >= self.origin_row ==> self.origin_row + self.reserved_height <= u16::MAX,
        ensures
            r == translated_row(self.origin_row, self.reserved_height, terminal_row),
    {
        if terminal_row >= self.origin_row && terminal_row < self.origin_row + self.reserved_height {
            Some(terminal_row - self.origin_row)
        } else {
            None
        }
    }
}

impl Default for InlineState {
    fn default() -> (s: Self)
        ensures
            s.origin_row == 0,
            s.origin_col == 0,
            s.reserved_height == 0,
            s.terminal_size == (80u16, 24u16),
            !s.initialized,
    {
        Self::new()
    }
}

/// The row within an area at `origin`, `height` lines tall, of a terminal
/// row, or `None` outside the area.
pub open spec fn translated_row(origin: u16, height: u16, row: u16) -> Option<u16> {
    if origin <= row < origin + height {
        Some((row - origin) as u16)
    } else {
        None
    }
}

/// Translating rows undoes the offset from the origin: the `k`-th line of
/// the area translates to `k`, and rows above or below the area translate
/// to nothing.
pub proof fn lemma_translate_row_inverts_origin(origin: u16, height: u16, k: u16, row: u16)
    requires
        origin + height <= u16::MAX,
    ensures
        k < height ==> translated_row(origin, height, (origin + k) as u16) == Some(k),
        (row < origin || row >= origin + height) ==> translated_row(origin, height, row) is None,
{
}

} // verus!
