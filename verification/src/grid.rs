//! The character grid: a fixed-size mirror of the visible screen, a cursor,
//! and the write / newline / scroll / clear operations on them.
//!
//! The mathematical model of a grid is a [`ScreenState`]: a sequence of
//! `(character, attribute)` pairs in row-major order, a cursor (the linear
//! index of the next write), and the fixed geometry. Every operation's
//! contract is stated as a pure transition on that model.

use vstd::prelude::*;
use vstd::pervasive::VecAdditionalExecFns;
use crate::color::{default_color, spec_default_color, ColorCode};
use crate::sink::HardwareSink;

verus! {

/// Rows of the default screen configuration.
pub const ROWS: usize = 25;

/// Columns of the default screen configuration.
pub const COLS: usize = 80;

/// The byte that forces a line break instead of being stored.
pub const NEWLINE: u8 = 10;

/// The character byte held by a blank (unwritten) cell.
pub const BLANK: u8 = 32;

/// One cell of the grid: a character byte and its packed color attribute.
/// Its view is the pair `(character, attribute byte)`.
#[derive(Clone, Copy, PartialEq, Eq, Structural, Debug)]
pub struct VgaCell {
    pub character: u8,
    pub color: ColorCode,
}

impl View for VgaCell {
    type V = (u8, u8);

    open spec fn view(&self) -> (u8, u8) {
        (self.character, self.color@)
    }
}

/// The view of a blank cell: a space character with the default attribute.
pub open spec fn blank_cell() -> (u8, u8) {
    (BLANK, spec_default_color())
}

/// The mathematical model of a screen: cell views in row-major order, the
/// cursor, and the geometry.
#[verifier::ext_equal]
pub struct ScreenState {
    pub cells: Seq<(u8, u8)>,
    pub cursor: int,
    pub rows: int,
    pub cols: int,
}

impl ScreenState {
    /// Total number of cells of the visible grid.
    pub open spec fn capacity(self) -> int {
        self.rows * self.cols
    }

    /// Geometry is sensible, the cell sequence has exactly one entry per
    /// visible cell, and the cursor stays within capacity. The doubled
    /// capacity must fit a `usize` so the two-bytes-per-cell hardware image
    /// can be addressed.
    pub open spec fn wf(self) -> bool {
        &&& 1 <= self.rows
        &&& 1 <= self.cols
        &&& self.rows * self.cols * 2 <= usize::MAX
        &&& self.cells.len() == self.capacity()
        &&& 0 <= self.cursor <= self.capacity()
    }

    /// The line the cursor stands on.
    pub open spec fn line(self) -> int {
        self.cursor / self.cols
    }

    /// The cell at a row and a column.
    pub open spec fn cell_rc(self, r: int, c: int) -> (u8, u8) {
        self.cells[r * self.cols + c]
    }

    /// An all-blank screen with the cursor at the origin.
    pub open spec fn blank(rows: int, cols: int) -> ScreenState {
        ScreenState {
            cells: Seq::new((rows * cols) as nat, |i: int| blank_cell()),
            cursor: 0,
            rows,
            cols,
        }
    }

    /// The screen after one scroll: every row moved up by one, the last row
    /// blank, the cursor at the first column of the last row.
    pub open spec fn scrolled(self) -> ScreenState {
        ScreenState {
            cells: Seq::new(
                self.cells.len(),
                |i: int|
                    if i < (self.rows - 1) * self.cols {
                        self.cells[i + self.cols]
                    } else {
                        blank_cell()
                    },
            ),
            cursor: (self.rows - 1) * self.cols,
            ..self
        }
    }

    /// The screen after writing one byte with the given attribute.
    ///
    /// A newline moves the cursor to the first column of the next line, and
    /// scrolls when the cursor's line is already the last one (or past it).
    /// Any other byte is stored at the cursor, which advances by one; if the
    /// grid is completely full, the grid scrolls first, so a write can never
    /// address beyond capacity.
    pub open spec fn after_byte(self, byte: u8, color: u8) -> ScreenState {
        if byte == NEWLINE {
            if self.line() + 1 >= self.rows {
                self.scrolled()
            } else {
                ScreenState { cursor: (self.line() + 1) * self.cols, ..self }
            }
        } else {
            let base = if self.cursor == self.capacity() {
                self.scrolled()
            } else {
                self
            };
            ScreenState {
                cells: base.cells.update(base.cursor, (byte, color)),
                cursor: base.cursor + 1,
                ..base
            }
        }
    }

    /// The screen after writing a byte sequence, left to right, each byte
    /// observing the cursor state left by the previous one.
    pub open spec fn after_bytes(self, s: Seq<u8>, color: u8) -> ScreenState
        decreases s.len(),
    {
        if s.len() == 0 {
            self
        } else {
            self.after_byte(s[0], color).after_bytes(s.drop_first(), color)
        }
    }

    /// The screen after a clear: all cells blank, cursor at the origin.
    pub open spec fn cleared(self) -> ScreenState {
        ScreenState::blank(self.rows, self.cols)
    }

    /// The hardware image of the screen: two bytes per cell in row-major
    /// order, the character first, then the attribute.
    pub open spec fn hardware_image(self) -> Seq<u8> {
        Seq::new(
            (2 * self.cells.len()) as nat,
            |i: int| if i % 2 == 0 { self.cells[i / 2].0 } else { self.cells[i / 2].1 },
        )
    }
}

/// The in-memory mirror of the screen. Its view is a [`ScreenState`].
pub struct VgaBuffer {
    buffer: Vec<VgaCell>,
    position: usize,
    rows: usize,
    cols: usize,
}

impl View for VgaBuffer {
    type V = ScreenState;

    closed spec fn view(&self) -> ScreenState {
        ScreenState {
            cells: self.buffer@.map_values(|c: VgaCell| c@),
            cursor: self.position as int,
            rows: self.rows as int,
            cols: self.cols as int,
        }
    }
}

impl VgaBuffer {
    /// A blank grid of the given geometry with the cursor at the origin.
    pub fn new(rows: usize, cols: usize) -> (r: VgaBuffer)
        requires
            1 <= rows,
            1 <= cols,
            rows * cols * 2 <= usize::MAX,
        ensures
            r@ == ScreenState::blank(rows as int, cols as int),
            r@.wf(),
    {
        let n = rows * cols;
        let blank = VgaCell { character: BLANK, color: default_color() };
        let buffer = vec![blank; n];
        let r = VgaBuffer { buffer, position: 0, rows, cols };
        proof {
            assert(r@.cells =~= ScreenState::blank(rows as int, cols as int).cells);
            assert(r@ =~= ScreenState::blank(rows as int, cols as int));
        }
        r
    }

    /// Number of rows of this grid.
    pub fn rows(&self) -> (r: usize)
        ensures
            r as int == self@.rows,
    {
        self.rows
    }

    /// Number of columns of this grid.
    pub fn cols(&self) -> (r: usize)
        ensures
            r as int == self@.cols,
    {
        self.cols
    }

    /// The linear index of the next write.
    pub fn position(&self) -> (r: usize)
        ensures
            r as int == self@.cursor,
    {
        self.position
    }

    /// The cell at a linear index.
    pub fn cell_at(&self, i: usize) -> (c: VgaCell)
        requires
            i < self@.cells.len(),
        ensures
            c@ == self@.cells[i as int],
    {
        self.buffer[i]
    }

    /// Shift every row up by one, blank the last row, and put the cursor at
    /// the first column of the last row.
    #[verifier::loop_isolation(false)]
    fn scroll(&mut self)
        requires
            old(self)@.wf(),
        ensures
            final(self)@ == old(self)@.scrolled(),
            final(self)@.wf(),
    {
        proof {
            lemma_scrolled_wf(old(self)@);
        }
        let w = self.cols;
        let n = self.buffer.len();
        assert(n == self@.capacity());
        assert(n - w == (self@.rows - 1) * self@.cols) by (nonlinear_arith)
            requires
                n == self@.rows * self@.cols && w == self@.cols,
        ;
        let mut i = w;
        while i < n
            invariant
                w <= i <= n,
                self.buffer@.len() == old(self).buffer@.len(),
                self.position == old(self).position,
                self.rows == old(self).rows,
                self.cols == old(self).cols,
                forall|k: int| 0 <= k < i - w ==> self.buffer@[k] == old(self).buffer@[k + w],
                forall|k: int| i - w <= k < n ==> self.buffer@[k] == old(self).buffer@[k],
            decreases n - i,
        {
            let c = self.buffer[i];
            self.buffer.set(i - w, c);
            i = i + 1;
        }
        let blank = VgaCell { character: BLANK, color: default_color() };
        let mut j = n - w;
        while j < n
            invariant
                n - w <= j <= n,
                self.buffer@.len() == old(self).buffer@.len(),
                self.position == old(self).position,
                self.rows == old(self).rows,
                self.cols == old(self).cols,
                forall|k: int| 0 <= k < n - w ==> self.buffer@[k] == old(self).buffer@[k + w],
                forall|k: int| n - w <= k < j ==> self.buffer@[k]@ == blank_cell(),
            decreases n - j,
        {
            self.buffer.set(j, blank);
            j = j + 1;
        }
        self.position = n - w;
        proof {
            assert(self@.cells =~= old(self)@.scrolled().cells);
            assert(self@ =~= old(self)@.scrolled());
        }
    }

    /// Write one byte with the given attribute, as [`ScreenState::after_byte`]
    /// describes: a newline breaks the line (scrolling from the last line),
    /// any other byte is stored at the cursor, scrolling first if the grid is
    /// completely full.
    pub fn write_byte(&mut self, byte: u8, color: ColorCode)
        requires
            old(self)@.wf(),
        ensures
            final(self)@ == old(self)@.after_byte(byte, color@),
            final(self)@.wf(),
            final(self)@.rows == old(self)@.rows,
            final(self)@.cols == old(self)@.cols,
    {
        proof {
            lemma_line_bounds(old(self)@);
        }
        if byte == NEWLINE {
            let current_line = self.position / self.cols;
            if current_line + 1 >= self.rows {
                self.scroll();
            } else {
                assert((current_line + 1) * self@.cols <= (self@.rows - 1) * self@.cols
                    <= self@.rows * self@.cols) by (nonlinear_arith)
                    requires
                        current_line + 1 <= self@.rows - 1 && 1 <= self@.cols && 1 <= self@.rows,
                ;
                self.position = (current_line + 1) * self.cols;
                proof {
                    assert(self@ =~= old(self)@.after_byte(byte, color@));
                }
            }
        } else {
            if self.position == self.buffer.len() {
                self.scroll();
                proof {
                    lemma_scrolled_wf(old(self)@);
                }
            }
            let ghost base = self@;
            assert(self.position < self.buffer.len());
            let cell = VgaCell { character: byte, color };
            self.buffer.set(self.position, cell);
            self.position = self.position + 1;
            proof {
                assert(self@.cells =~= base.cells.update(base.cursor, (byte, color@)));
                assert(self@ =~= old(self)@.after_byte(byte, color@));
            }
        }
    }
}

impl VgaBuffer {
    /// Whether the grid meets its internal invariant. Values built by
    /// [`VgaBuffer::new`] always do; this check lets unverified front ends
    /// guard their calls at run time.
    pub fn is_well_formed(&self) -> (b: bool)
        ensures
            b == self@.wf(),
    {
        if self.rows < 1 || self.cols < 1 {
            return false;
        }
        let cap = match self.rows.checked_mul(self.cols) {
            Some(c) => c,
            None => {
                return false;
            },
        };
        match cap.checked_mul(2) {
            Some(_) => self.buffer.len() == cap && self.position <= cap,
            None => false,
        }
    }

    /// Copy the grid's full contents into the hardware destination: two bytes
    /// per cell in row-major order, the character first, then the attribute.
    #[verifier::loop_isolation(false)]
    pub fn flush(&self, sink: &mut HardwareSink)
        requires
            self@.wf(),
            old(sink)@.len() == self@.hardware_image().len(),
        ensures
            final(sink)@ == self@.hardware_image(),
    {
        let n = self.buffer.len();
        let mut i: usize = 0;
        while i < n
            invariant
                i <= n,
                sink@.len() == old(sink)@.len(),
                forall|k: int| 0 <= k < 2 * i ==> sink@[k] == self@.hardware_image()[k],
            decreases n - i,
        {
            let cell = self.buffer[i];
            sink.set_byte(2 * i, cell.character);
            sink.set_byte(2 * i + 1, cell.color.raw());
            i = i + 1;
        }
        proof {
            assert(sink@ =~= self@.hardware_image());
        }
    }

    /// Set the cursor back to the origin. Used only by clear.
    fn reset_position(&mut self)
        ensures
            final(self)@ == (ScreenState { cursor: 0, ..old(self)@ }),
    {
        self.position = 0;
        proof {
            assert(self@ =~= (ScreenState { cursor: 0, ..old(self)@ }));
        }
    }

    /// Blank every cell, reset the cursor, and flush the result to the
    /// hardware destination in the same call.
    #[verifier::loop_isolation(false)]
    fn clear(&mut self, sink: &mut HardwareSink)
        requires
            old(self)@.wf(),
            old(sink)@.len() == old(self)@.hardware_image().len(),
        ensures
            final(self)@ == old(self)@.cleared(),
            final(self)@.wf(),
            final(sink)@ == old(self)@.cleared().hardware_image(),
    {
        let n = self.buffer.len();
        let blank = VgaCell { character: BLANK, color: default_color() };
        let mut i: usize = 0;
        while i < n
            invariant
                i <= n,
                self.buffer@.len() == old(self).buffer@.len(),
                self.position == old(self).position,
                self.rows == old(self).rows,
                self.cols == old(self).cols,
                forall|k: int| 0 <= k < i ==> self.buffer@[k]@ == blank_cell(),
            decreases n - i,
        {
            self.buffer.set(i, blank);
            i = i + 1;
        }
        self.reset_position();
        proof {
            assert(self@.cells =~= old(self)@.cleared().cells);
            assert(self@ =~= old(self)@.cleared());
        }
        self.flush(sink);
    }

    /// Write a byte sequence left to right with the given attribute, each
    /// byte observing the cursor state left by the previous ones.
    #[verifier::loop_isolation(false)]
    pub fn write_str(&mut self, s: &[u8], color: ColorCode)
        requires
            old(self)@.wf(),
        ensures
            final(self)@ == old(self)@.after_bytes(s@, color@),
            final(self)@.wf(),
            final(self)@.rows == old(self)@.rows,
            final(self)@.cols == old(self)@.cols,
    {
        let n = s.len();
        let mut i: usize = 0;
        proof {
            assert(s@.take(0) =~= Seq::<u8>::empty());
        }
        while i < n
            invariant
                i <= n,
                self@.wf(),
                self@.rows == old(self)@.rows,
                self@.cols == old(self)@.cols,
                self@ == old(self)@.after_bytes(s@.take(i as int), color@),
            decreases n - i,
        {
            self.write_byte(s[i], color);
            i = i + 1;
            proof {
                lemma_after_bytes_snoc(old(self)@, s@.take(i - 1), s@[i - 1], color@);
                assert(s@.take(i - 1).push(s@[i - 1]) =~= s@.take(i as int));
            }
        }
        proof {
            assert(s@.take(n as int) =~= s@);
        }
    }
}

/// Blank the whole screen, reset the cursor to the origin, and copy the
/// result to the hardware destination, all under one call.
pub fn clear(screen: &mut VgaBuffer, sink: &mut HardwareSink)
    requires
        old(screen)@.wf(),
        old(sink)@.len() == old(screen)@.hardware_image().len(),
    ensures
        final(screen)@ == old(screen)@.cleared(),
        final(screen)@.wf(),
        final(sink)@ == old(screen)@.cleared().hardware_image(),
{
    screen.clear(sink);
}

/// Writing a sequence and then one more byte is writing the extended
/// sequence.
pub proof fn lemma_after_bytes_snoc(s: ScreenState, bytes: Seq<u8>, byte: u8, color: u8)
    ensures
        s.after_bytes(bytes.push(byte), color) == s.after_bytes(bytes, color).after_byte(
            byte,
            color,
        ),
    decreases bytes.len(),
{
    if bytes.len() == 0 {
        assert(bytes.push(byte).drop_first() =~= Seq::<u8>::empty());
        assert(s.after_bytes(bytes, color) == s);
        assert(s.after_bytes(bytes.push(byte), color) == s.after_byte(byte, color).after_bytes(
            Seq::<u8>::empty(),
            color,
        ));
    } else {
        assert(bytes.push(byte).drop_first() =~= bytes.drop_first().push(byte));
        lemma_after_bytes_snoc(s.after_byte(bytes[0], color), bytes.drop_first(), byte, color);
    }
}

/// Writing a newline-free byte sequence shorter than one row's width, with
/// room for it before the end of the grid, moves the cursor forward by
/// exactly the sequence's length and stores exactly those characters, in
/// order, at the cells starting at the old cursor, each with the attribute
/// passed in; every other cell keeps its contents.
pub proof fn lemma_plain_run(s: ScreenState, bytes: Seq<u8>, color: u8)
    requires
        s.wf(),
        forall|j: int| 0 <= j < bytes.len() ==> bytes[j] != NEWLINE,
        bytes.len() < s.cols,
        s.cursor + bytes.len() <= s.capacity(),
    ensures
        s.after_bytes(bytes, color).rows == s.rows,
        s.after_bytes(bytes, color).cols == s.cols,
        s.after_bytes(bytes, color).cells.len() == s.cells.len(),
        s.after_bytes(bytes, color).cursor == s.cursor + bytes.len(),
        forall|j: int|
            0 <= j < bytes.len() ==> s.after_bytes(bytes, color).cells[s.cursor + j] == (
            bytes[j],
            color,
            ),
        forall|i: int|
            0 <= i < s.cells.len() && !(s.cursor <= i < s.cursor + bytes.len())
                ==> s.after_bytes(bytes, color).cells[i] == s.cells[i],
    decreases bytes.len(),
{
    if bytes.len() > 0 {
        let t = s.after_byte(bytes[0], color);
        assert(t.cells == s.cells.update(s.cursor, (bytes[0], color)));
        lemma_after_byte_wf(s, bytes[0], color);
        lemma_plain_run(t, bytes.drop_first(), color);
        let u = s.after_bytes(bytes, color);
        assert(u == t.after_bytes(bytes.drop_first(), color));
        assert(u.cells[s.cursor] == t.cells[s.cursor]);
        assert forall|j: int| 0 <= j < bytes.len() implies u.cells[s.cursor + j] == (
            bytes[j],
            color,
        ) by {
            if j > 0 {
                assert(u.cells[t.cursor + (j - 1)] == (bytes.drop_first()[j - 1], color));
            }
        }
        assert forall|i: int|
            0 <= i < s.cells.len() && !(s.cursor <= i < s.cursor + bytes.len()) implies u.cells[i]
            == s.cells[i] by {
            assert(t.after_bytes(bytes.drop_first(), color).cells[i] == t.cells[i]);
        }
    }
}

/// Writing a newline while the cursor's line is below the last line moves
/// the cursor to the first column of the next line and changes no cell.
pub proof fn lemma_newline_without_scroll(s: ScreenState, color: u8)
    requires
        s.wf(),
        s.line() < s.rows - 1,
    ensures
        s.after_byte(NEWLINE, color).rows == s.rows,
        s.after_byte(NEWLINE, color).cols == s.cols,
        s.after_byte(NEWLINE, color).cells == s.cells,
        s.after_byte(NEWLINE, color).cursor == (s.line() + 1) * s.cols,
        s.after_byte(NEWLINE, color).line() == s.line() + 1,
        s.after_byte(NEWLINE, color).cursor % s.cols == 0,
{
    let q = s.line() + 1;
    vstd::arithmetic::div_mod::lemma_div_multiples_vanish(q, s.cols);
    vstd::arithmetic::div_mod::lemma_mod_multiples_basic(q, s.cols);
    assert(s.cols * q == q * s.cols) by (nonlinear_arith);
}

/// Writing a newline while the cursor's line satisfies the scroll trigger
/// discards the first row, shifts every later row up by one, blanks the last
/// row, and puts the cursor at the first column of the last row.
pub proof fn lemma_newline_with_scroll(s: ScreenState, color: u8)
    requires
        s.wf(),
        s.line() + 1 >= s.rows,
    ensures
        s.after_byte(NEWLINE, color).rows == s.rows,
        s.after_byte(NEWLINE, color).cols == s.cols,
        s.after_byte(NEWLINE, color).cells.len() == s.cells.len(),
        s.after_byte(NEWLINE, color).cursor == (s.rows - 1) * s.cols,
        s.after_byte(NEWLINE, color).line() == s.rows - 1,
        s.after_byte(NEWLINE, color).cursor % s.cols == 0,
        forall|r: int, c: int|
            0 <= r < s.rows - 1 && 0 <= c < s.cols ==> #[trigger] s.after_byte(
                NEWLINE,
                color,
            ).cell_rc(r, c) == s.cell_rc(r + 1, c),
        forall|c: int|
            0 <= c < s.cols ==> #[trigger] s.after_byte(NEWLINE, color).cell_rc(s.rows - 1, c)
                == blank_cell(),
{
    let t = s.after_byte(NEWLINE, color);
    assert(t == s.scrolled());
    let q = s.rows - 1;
    vstd::arithmetic::div_mod::lemma_div_multiples_vanish(q, s.cols);
    vstd::arithmetic::div_mod::lemma_mod_multiples_basic(q, s.cols);
    assert(s.cols * q == q * s.cols) by (nonlinear_arith);
    assert forall|r: int, c: int| 0 <= r < s.rows - 1 && 0 <= c < s.cols implies #[trigger] t.cell_rc(
        r,
        c,
    ) == s.cell_rc(r + 1, c) by {
        assert(0 <= r * s.cols + c < (s.rows - 1) * s.cols) by (nonlinear_arith)
            requires
                0 <= r && r <= s.rows - 2 && 0 <= c && c < s.cols,
        ;
        assert((s.rows - 1) * s.cols < s.rows * s.cols) by (nonlinear_arith)
            requires
                1 <= s.rows && 1 <= s.cols,
        ;
        assert(s.scrolled().cells[r * s.cols + c] == s.cells[r * s.cols + c + s.cols]);
        assert(r * s.cols + c + s.cols == (r + 1) * s.cols + c) by (nonlinear_arith);
    }
    assert forall|c: int| 0 <= c < s.cols implies #[trigger] t.cell_rc(s.rows - 1, c)
        == blank_cell() by {
        assert(0 <= (s.rows - 1) * s.cols + c < s.rows * s.cols) by (nonlinear_arith)
            requires
                0 <= c && c < s.cols && 1 <= s.rows,
        ;
        assert(s.scrolled().cells[(s.rows - 1) * s.cols + c] == blank_cell());
    }
}

/// Immediately after a clear, every cell of the grid is a space character
/// with the default attribute, and the cursor stands at the origin.
pub proof fn lemma_clear_blanks(s: ScreenState)
    requires
        s.wf(),
    ensures
        s.cleared().wf(),
        s.cleared().cursor == 0,
        s.cleared().cells.len() == s.capacity(),
        forall|i: int| 0 <= i < s.cleared().cells.len() ==> s.cleared().cells[i] == blank_cell(),
{
}

/// Clearing twice in a row yields the same final state as clearing once.
pub proof fn lemma_clear_idempotent(s: ScreenState)
    requires
        s.wf(),
    ensures
        s.cleared().cleared() == s.cleared(),
{
    assert(s.cleared().cleared() =~= s.cleared());
}

/// The cursor's line is between 0 and `rows`, and it is `rows` only when the
/// grid is completely full.
pub proof fn lemma_line_bounds(s: ScreenState)
    requires
        s.wf(),
    ensures
        0 <= s.line() <= s.rows,
        s.line() == s.rows ==> s.cursor == s.capacity(),
        s.cols * s.line() <= s.cursor,
{
    vstd::arithmetic::div_mod::lemma_remainder(s.cursor, s.cols);
    assert(0 <= s.cursor - s.line() * s.cols < s.cols);
    assert(s.line() >= 0) by (nonlinear_arith)
        requires
            s.line() * s.cols > s.cursor - s.cols && s.cursor >= 0 && s.cols >= 1,
    ;
    assert(s.line() <= s.rows) by (nonlinear_arith)
        requires
            s.line() * s.cols <= s.cursor && s.cursor <= s.rows * s.cols && s.cols >= 1,
    ;
    if s.line() == s.rows {
        assert(s.rows * s.cols <= s.cursor) by (nonlinear_arith)
            requires
                s.line() * s.cols <= s.cursor && s.line() == s.rows,
        ;
    }
    assert(s.cols * s.line() == s.line() * s.cols) by (nonlinear_arith);
}

/// Scrolling preserves well-formedness.
pub proof fn lemma_scrolled_wf(s: ScreenState)
    requires
        s.wf(),
    ensures
        s.scrolled().wf(),
        s.scrolled().cursor < s.capacity(),
{
    assert(0 <= (s.rows - 1) * s.cols < s.rows * s.cols) by (nonlinear_arith)
        requires
            1 <= s.rows && 1 <= s.cols,
    ;
}

/// Writing any byte preserves well-formedness.
pub proof fn lemma_after_byte_wf(s: ScreenState, byte: u8, color: u8)
    requires
        s.wf(),
    ensures
        s.after_byte(byte, color).wf(),
        s.after_byte(byte, color).rows == s.rows,
        s.after_byte(byte, color).cols == s.cols,
{
    lemma_line_bounds(s);
    lemma_scrolled_wf(s);
    if byte == NEWLINE && s.line() + 1 < s.rows {
        assert(0 <= (s.line() + 1) * s.cols <= s.rows * s.cols) by (nonlinear_arith)
            requires
                0 <= s.line() + 1 <= s.rows && 1 <= s.cols,
        ;
    }
}

} // verus!
