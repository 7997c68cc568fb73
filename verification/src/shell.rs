//! The framebuffer shell: a one-line editor over a grid of character
//! cells. Each key yields the drawing operations that show its effect.
use vstd::prelude::*;

verus! {

pub const SHELL_FG: u32 = 0xFFFFFF;

pub const SHELL_BG: u32 = 0x000080;

pub const SHELL_CHAR_W: usize = 8;

pub const SHELL_CHAR_H: usize = 16;

pub const SHELL_PAD_X: usize = 8;

pub const SHELL_PAD_Y: usize = 8;

/// Capacity of the line buffer (one byte is kept free).
pub const LINE_MAX: usize = 256;

/// Length of the prompt.
pub const PROMPT_LEN: usize = 8;

/// The prompt "avaria> ".
pub open spec fn prompt() -> Seq<u8> {
    seq![0x61u8, 0x76, 0x61, 0x72, 0x69, 0x61, 0x3E, 0x20]
}

/// The cursor glyph.
pub const CURSOR: u8 = 0x5F;

pub const SPACE: u8 = 0x20;

pub const NEWLINE: u8 = 0x0A;

pub const BACKSPACE: u8 = 0x08;

/// A drawing operation on the character grid.
#[derive(Clone, Copy, PartialEq, Eq, Structural, Debug)]
pub enum ShellOp {
    /// Draw character `ch` in cell (`col`, `row`).
    Draw { col: usize, row: usize, ch: u32 },
    /// Clear the screen to the background colour.
    Clear,
}

/// The operations that draw `text` from column `col0` of row `row`.
pub open spec fn draw_text(text: Seq<u8>, col0: nat, row: nat) -> Seq<ShellOp> {
    Seq::new(
        text.len(),
        |i: int| ShellOp::Draw { col: (col0 + i) as usize, row: row as usize, ch: text[i] as u32 },
    )
}

/// The operations that draw the prompt on `row`.
pub open spec fn prompt_ops(row: nat) -> Seq<ShellOp> {
    draw_text(prompt(), 0, row)
}

fn push_text(ops: &mut Vec<ShellOp>, text: &[u8], col0: usize, row: usize)
    requires
        col0 + text@.len() <= usize::MAX,
    ensures
        final(ops)@ == old(ops)@ + draw_text(text@, col0 as nat, row as nat),
{
    let mut i: usize = 0;
    while i < text.len()
        invariant
            i <= text@.len(),
            col0 + text@.len() <= usize::MAX,
            ops@ == old(ops)@ + draw_text(text@.subrange(0, i as int), col0 as nat, row as nat),
        decreases text@.len() - i,
    {
        ops.push(ShellOp::Draw { col: col0 + i, row, ch: text[i] as u32 });
        i += 1;
        assert(ops@ =~= old(ops)@ + draw_text(text@.subrange(0, i as int), col0 as nat, row as nat));
    }
    assert(text@.subrange(0, text@.len() as int) =~= text@);
}

/// The operations that draw the prompt on `row`.
pub fn shell_draw_prompt(row: usize) -> (r: Vec<ShellOp>)
    ensures
        r@ == prompt_ops(row as nat),
{
    let p: [u8; 8] = [0x61, 0x76, 0x61, 0x72, 0x69, 0x61, 0x3E, 0x20];
    assert(p@ =~= prompt());
    let mut ops: Vec<ShellOp> = Vec::new();
    push_text(&mut ops, &p, 0, row);
    assert(ops@ =~= prompt_ops(row as nat));
    ops
}

/// The pixel position of the top-left corner of cell (`col`, `row`).
pub fn cell_origin(col: usize, row: usize) -> (r: (usize, usize))
    requires
        SHELL_PAD_X + col * SHELL_CHAR_W <= usize::MAX,
        SHELL_PAD_Y + row * SHELL_CHAR_H <= usize::MAX,
    ensures
        r.0 == SHELL_PAD_X + col * SHELL_CHAR_W,
        r.1 == SHELL_PAD_Y + row * SHELL_CHAR_H,
{
    (SHELL_PAD_X + col * SHELL_CHAR_W, SHELL_PAD_Y + row * SHELL_CHAR_H)
}

/// The editor state: the line typed so far, the grid size, and the
/// cursor cell.
pub struct ShellView {
    pub line: Seq<u8>,
    pub cols: nat,
    pub rows: nat,
    pub row: nat,
    pub col: nat,
}

/// The row after `row` on a grid of `rows` rows, and whether the screen is
/// cleared to get there (it wraps to the top).
pub open spec fn next_row(row: nat, rows: nat) -> (nat, bool) {
    if row + 1 >= rows {
        (0, true)
    } else {
        (row + 1, false)
    }
}

/// The operations for a wrap: a clear when `clear` holds.
pub open spec fn clear_if(clear: bool) -> Seq<ShellOp> {
    if clear {
        seq![ShellOp::Clear]
    } else {
        seq![]
    }
}

/// The cursor drawn (`ch`) at the cursor cell of `s`.
pub open spec fn at_cursor(s: ShellView, ch: u8) -> ShellOp {
    ShellOp::Draw { col: s.col as usize, row: s.row as usize, ch: ch as u32 }
}

/// The state and operations after Enter: the cursor is erased, the line
/// (if any) is echoed as "> line" on the next row, and a fresh prompt
/// starts on the row after that; moving past the last row clears the
/// screen and goes back to the top.
pub open spec fn enter_outcome(s: ShellView) -> (ShellView, Seq<ShellOp>) {
    let (r1, c1) = next_row(s.row, s.rows);
    let (r2, ops2) = if s.line.len() > 0 {
        let (r, c) = next_row(r1, s.rows);
        (r, draw_text(seq![0x3Eu8, 0x20], 0, r1) + draw_text(s.line, 2, r1) + clear_if(c))
    } else {
        (r1, seq![])
    };
    let s2 = ShellView { line: seq![], row: r2, col: PROMPT_LEN as nat, ..s };
    (s2, seq![at_cursor(s, SPACE)] + clear_if(c1) + ops2 + prompt_ops(r2) + seq![at_cursor(s2, CURSOR)])
}

/// The state and operations after Backspace: the last character goes and
/// the cursor moves back, if the line has any.
pub open spec fn backspace_outcome(s: ShellView) -> (ShellView, Seq<ShellOp>) {
    if s.line.len() > 0 {
        let s2 = ShellView { line: s.line.drop_last(), col: (s.col - 1) as nat, ..s };
        (s2, seq![at_cursor(s, SPACE), at_cursor(s2, CURSOR)])
    } else {
        (s, seq![])
    }
}

/// The state and operations after typing `ch`: it is appended and drawn
/// while the line and the row have room, else ignored.
pub open spec fn char_outcome(s: ShellView, ch: u8) -> (ShellView, Seq<ShellOp>) {
    if s.line.len() < LINE_MAX - 1 && s.col < s.cols - 1 {
        let s2 = ShellView { line: s.line.push(ch), col: s.col + 1, ..s };
        (s2, seq![at_cursor(s, ch), at_cursor(s2, CURSOR)])
    } else {
        (s, seq![])
    }
}

/// The state and operations after key `ch` in state `s`.
pub open spec fn key_outcome(s: ShellView, ch: u8) -> (ShellView, Seq<ShellOp>) {
    if ch == NEWLINE {
        enter_outcome(s)
    } else if ch == BACKSPACE {
        backspace_outcome(s)
    } else {
        char_outcome(s, ch)
    }
}

pub struct Shell {
    line: Vec<u8>,
    line_len: usize,
    cols: usize,
    rows: usize,
    cur_row: usize,
    cur_col: usize,
}

impl View for Shell {
    type V = ShellView;

    closed spec fn view(&self) -> ShellView {
        ShellView {
            line: self.line@.subrange(0, self.line_len as int),
            cols: self.cols as nat,
            rows: self.rows as nat,
            row: self.cur_row as nat,
            col: self.cur_col as nat,
        }
    }
}

impl Shell {
    pub closed spec fn wf(&self) -> bool {
        &&& self.line@.len() == LINE_MAX
        &&& self.line_len < LINE_MAX
        &&& self.cur_col == PROMPT_LEN + self.line_len
        &&& self.cur_row < self.rows || self.cur_row == 0
        &&& self.rows <= usize::MAX / 16
        &&& self.cols <= usize::MAX / 8
    }

    /// A shell on a framebuffer of `width` x `height` pixels: as many
    /// cells as fit inside the padding, the cursor after the prompt on the
    /// top row.
    pub fn new(width: usize, height: usize) -> (r: Self)
        requires
            width >= 2 * SHELL_PAD_X,
            height >= 2 * SHELL_PAD_Y,
        ensures
            r.wf(),
            r@ == (ShellView {
                line: seq![],
                cols: ((width - 2 * SHELL_PAD_X) / (SHELL_CHAR_W as int)) as nat,
                rows: ((height - 2 * SHELL_PAD_Y) / (SHELL_CHAR_H as int)) as nat,
                row: 0,
                col: PROMPT_LEN as nat,
            }),
    {
        let mut line: Vec<u8> = Vec::new();
        let mut i: usize = 0;
        while i < LINE_MAX
            invariant
                i <= LINE_MAX,
                line@.len() == i,
            decreases LINE_MAX - i,
        {
            line.push(0);
            i += 1;
        }
        let cols = (width - SHELL_PAD_X * 2) / SHELL_CHAR_W;
        let rows = (height - SHELL_PAD_Y * 2) / SHELL_CHAR_H;
        let r = Shell { line, line_len: 0, cols, rows, cur_row: 0, cur_col: PROMPT_LEN };
        assert(r@.line =~= Seq::<u8>::empty());
        r
    }

    /// Columns of the grid.
    pub fn cols(&self) -> (r: usize)
        ensures
            r == self@.cols,
    {
        self.cols
    }

    /// Length of the line typed so far.
    pub fn line_len(&self) -> (r: usize)
        requires
            self.wf(),
        ensures
            r == self@.line.len(),
    {
        self.line_len
    }

    /// What the shell draws when it starts: a clear screen, the prompt,
    /// and the cursor after it.
    pub fn start(&self) -> (r: Vec<ShellOp>)
        requires
            self.wf(),
        ensures
            r@ == seq![ShellOp::Clear] + prompt_ops(self@.row) + seq![at_cursor(self@, CURSOR)],
    {
        let mut ops: Vec<ShellOp> = Vec::new();
        ops.push(ShellOp::Clear);
        let p = shell_draw_prompt(self.cur_row);
        let ghost before = ops@;
        let mut i: usize = 0;
        while i < p.len()
            invariant
                i <= p@.len(),
                ops@ == before + p@.subrange(0, i as int),
            decreases p@.len() - i,
        {
            ops.push(p[i]);
            i += 1;
            assert(ops@ =~= before + p@.subrange(0, i as int));
        }
        assert(p@.subrange(0, p@.len() as int) =~= p@);
        ops.push(ShellOp::Draw { col: self.cur_col, row: self.cur_row, ch: CURSOR as u32 });
        ops
    }

    fn advance_row(&mut self, ops: &mut Vec<ShellOp>)
        requires
            old(self).wf(),
        ensures
            final(self).wf(),
            final(self)@ == (ShellView { row: next_row(old(self)@.row, old(self)@.rows).0, ..old(self)@ }),
            final(ops)@ == old(ops)@ + clear_if(next_row(old(self)@.row, old(self)@.rows).1),
    {
        self.cur_row = self.cur_row + 1;
        if self.cur_row >= self.rows {
            self.cur_row = 0;
            ops.push(ShellOp::Clear);
        } else {
            assert(ops@ =~= old(ops)@ + clear_if(false));
        }
    }

    fn push_all(ops: &mut Vec<ShellOp>, more: &Vec<ShellOp>)
        ensures
            final(ops)@ == old(ops)@ + more@,
    {
        let mut i: usize = 0;
        while i < more.len()
            invariant
                i <= more@.len(),
                ops@ == old(ops)@ + more@.subrange(0, i as int),
            decreases more@.len() - i,
        {
            ops.push(more[i]);
            i += 1;
            assert(ops@ =~= old(ops)@ + more@.subrange(0, i as int));
        }
        assert(more@.subrange(0, more@.len() as int) =~= more@);
    }

    fn echo_line(&self, row: usize) -> (r: Vec<ShellOp>)
        requires
            self.wf(),
        ensures
            r@ == draw_text(seq![0x3Eu8, 0x20], 0, row as nat) + draw_text(self@.line, 2, row as nat),
    {
        let mut ops: Vec<ShellOp> = Vec::new();
        push_text(&mut ops, &[0x3Eu8, 0x20], 0, row);
        let n = self.line_len;
        let mut i: usize = 0;
        let ghost mid = ops@;
        while i < n
            invariant
                i <= n,
                n == self.line_len,
                n < LINE_MAX,
                self.line@.len() == LINE_MAX,
                ops@ == mid + draw_text(self.line@.subrange(0, i as int), 2, row as nat),
            decreases n - i,
        {
            ops.push(ShellOp::Draw { col: 2 + i, row, ch: self.line[i] as u32 });
            i += 1;
            assert(ops@ =~= mid + draw_text(self.line@.subrange(0, i as int), 2, row as nat));
        }
        assert(self.line@.subrange(0, n as int) =~= self@.line);
        ops
    }

    fn on_enter(&mut self) -> (r: Vec<ShellOp>)
        requires
            old(self).wf(),
        ensures
            final(self).wf(),
            (final(self)@, r@) == enter_outcome(old(self)@),
    {
        let ghost s = self@;
        let mut ops: Vec<ShellOp> = Vec::new();
        ops.push(ShellOp::Draw { col: self.cur_col, row: self.cur_row, ch: SPACE as u32 });
        self.advance_row(&mut ops);
        let ghost after_first = ops@;
        if self.line_len > 0 {
            let r1 = self.cur_row;
            let echo = self.echo_line(r1);
            Self::push_all(&mut ops, &echo);
            self.advance_row(&mut ops);
        }
        let ghost ops2 = ops@.subrange(after_first.len() as int, ops@.len() as int);
        assert(ops@ =~= after_first + ops2);
        self.line_len = 0;
        self.cur_col = PROMPT_LEN;
        let p = shell_draw_prompt(self.cur_row);
        Self::push_all(&mut ops, &p);
        ops.push(ShellOp::Draw { col: self.cur_col, row: self.cur_row, ch: CURSOR as u32 });
        assert(self@.line =~= Seq::<u8>::empty());
        proof {
            let (s2, o2) = enter_outcome(s);
            assert(self@ == s2);
            assert(ops@ =~= o2);
        }
        ops
    }

    /// Handles key `ch` and returns what to draw (see `key_outcome`).
    pub fn handle_key(&mut self, ch: u8) -> (r: Vec<ShellOp>)
        requires
            old(self).wf(),
            ch == NEWLINE || ch == BACKSPACE || old(self)@.line.len() >= LINE_MAX - 1
                || old(self)@.cols >= 1,
        ensures
            final(self).wf(),
            (final(self)@, r@) == key_outcome(old(self)@, ch),
    {
        if ch == NEWLINE {
            return self.on_enter();
        }
        let mut ops: Vec<ShellOp> = Vec::new();
        let ghost s = self@;
        if ch == BACKSPACE {
            if self.line_len > 0 {
                ops.push(ShellOp::Draw { col: self.cur_col, row: self.cur_row, ch: SPACE as u32 });
                self.line_len = self.line_len - 1;
                self.cur_col = self.cur_col - 1;
                ops.push(ShellOp::Draw { col: self.cur_col, row: self.cur_row, ch: CURSOR as u32 });
                assert(self@.line =~= s.line.drop_last());
            }
            ops
        } else {
            if self.line_len < LINE_MAX - 1 && self.cur_col < self.cols - 1 {
                ops.push(ShellOp::Draw { col: self.cur_col, row: self.cur_row, ch: ch as u32 });
                let n = self.line_len;
                self.line.set(n, ch);
                self.line_len = n + 1;
                self.cur_col = self.cur_col + 1;
                ops.push(ShellOp::Draw { col: self.cur_col, row: self.cur_row, ch: CURSOR as u32 });
                assert(self@.line =~= s.line.push(ch));
            }
            ops
        }
    }
}

/// Backspace right after a character that was taken restores the line and
/// the cursor.
pub proof fn lemma_type_then_erase(s: ShellView, ch: u8)
    requires
        ch != NEWLINE,
        ch != BACKSPACE,
        s.line.len() < LINE_MAX - 1,
        s.col + 1 < s.cols,
    ensures
        key_outcome(key_outcome(s, ch).0, BACKSPACE).0 == s,
{
    let s2 = key_outcome(s, ch).0;
    assert(s2.line.drop_last() =~= s.line);
}

/// Backspace on an empty line changes nothing and draws nothing.
pub proof fn lemma_erase_empty(s: ShellView)
    requires
        s.line.len() == 0,
    ensures
        key_outcome(s, BACKSPACE) == (s, Seq::<ShellOp>::empty()),
{
    assert(seq![] =~= Seq::<ShellOp>::empty());
}

} // verus!
