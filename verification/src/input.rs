//! The multi-line input editor: lines of text and a cursor given by a row
//! and a byte offset into that row.

use vstd::prelude::*;
use crate::text::{
    byte_len, char_len_utf8, char_width, chars_of, fit_chars, is_boundary, join, lemma_fit_chars,
    lemma_utf8_len_take_mono, lemma_utf8_len_take_succ, slice_sub, string_of, push_all,
    utf8_len, fit_prefix_len, utf8_len_of,
};

verus! {

/// An editor state as plain values: the lines, the row, and the byte column.
#[verifier::ext_equal]
pub struct BufferView {
    pub lines: Seq<Seq<char>>,
    pub row: int,
    pub col: int,
}

/// The row under the cursor.
pub open spec fn cur(v: BufferView) -> Seq<char> {
    v.lines[v.row]
}

/// The cursor's position in its row, counted in characters.
pub open spec fn cur_k(v: BufferView) -> int {
    fit_chars(cur(v), v.col) as int
}

/// At least one line, the row in range, the column within the row's bytes.
pub open spec fn buf_wf(v: BufferView) -> bool {
    &&& v.lines.len() >= 1
    &&& 0 <= v.row < v.lines.len()
    &&& 0 <= v.col <= utf8_len(cur(v))
}

/// The column lies between two characters of its row.
pub open spec fn on_boundary(v: BufferView) -> bool {
    buf_wf(v) && is_boundary(cur(v), v.col)
}

/// The buffer's text: its lines joined with newlines.
pub open spec fn buf_text(v: BufferView) -> Seq<char> {
    join(v.lines, seq!['\n'])
}

/// All lines are empty.
pub open spec fn buf_empty(v: BufferView) -> bool {
    forall|i: int| 0 <= i < v.lines.len() ==> #[trigger] v.lines[i].len() == 0
}

/// A single empty line with the cursor at its start.
pub open spec fn empty_buf() -> BufferView {
    BufferView { lines: seq![seq![]], row: 0, col: 0 }
}

pub open spec fn ins_char(v: BufferView, c: char) -> BufferView {
    let k = cur_k(v);
    BufferView {
        lines: v.lines.update(v.row, cur(v).take(k) + seq![c] + cur(v).skip(k)),
        row: v.row,
        col: v.col + char_width(c),
    }
}

pub open spec fn ins_newline(v: BufferView) -> BufferView {
    let k = cur_k(v);
    BufferView {
        lines: v.lines.take(v.row) + seq![cur(v).take(k), cur(v).skip(k)] + v.lines.skip(v.row + 1),
        row: v.row + 1,
        col: 0,
    }
}

pub open spec fn backspace_of(v: BufferView) -> BufferView {
    let k = cur_k(v);
    if v.col > 0 {
        BufferView {
            lines: v.lines.update(v.row, cur(v).take(k - 1) + cur(v).skip(k)),
            row: v.row,
            col: utf8_len(cur(v).take(k - 1)) as int,
        }
    } else if v.row > 0 {
        BufferView {
            lines: v.lines.take(v.row - 1) + seq![v.lines[v.row - 1] + cur(v)] + v.lines.skip(v.row + 1),
            row: v.row - 1,
            col: utf8_len(v.lines[v.row - 1]) as int,
        }
    } else {
        v
    }
}

pub open spec fn delete_of(v: BufferView) -> BufferView {
    let k = cur_k(v);
    if v.col < utf8_len(cur(v)) {
        BufferView {
            lines: v.lines.update(v.row, cur(v).take(k) + cur(v).skip(k + 1)),
            row: v.row,
            col: v.col,
        }
    } else if v.row + 1 < v.lines.len() {
        BufferView {
            lines: v.lines.take(v.row) + seq![cur(v) + v.lines[v.row + 1]] + v.lines.skip(v.row + 2),
            row: v.row,
            col: v.col,
        }
    } else {
        v
    }
}

pub open spec fn left_of(v: BufferView) -> BufferView {
    if v.col > 0 {
        BufferView { col: utf8_len(cur(v).take(cur_k(v) - 1)) as int, ..v }
    } else if v.row > 0 {
        BufferView { row: v.row - 1, col: utf8_len(v.lines[v.row - 1]) as int, ..v }
    } else {
        v
    }
}

pub open spec fn right_of(v: BufferView) -> BufferView {
    if v.col < utf8_len(cur(v)) {
        BufferView { col: utf8_len(cur(v).take(cur_k(v) + 1)) as int, ..v }
    } else if v.row + 1 < v.lines.len() {
        BufferView { row: v.row + 1, col: 0, ..v }
    } else {
        v
    }
}

/// The last column of row `l` at or before byte `col` that lies between two
/// characters.
pub open spec fn clamp_col(l: Seq<char>, col: int) -> int {
    utf8_len(l.take(fit_chars(l, col) as int)) as int
}

/// One row up, the column moved back to a character boundary of that row.
pub open spec fn up_of(v: BufferView) -> BufferView {
    if v.row > 0 {
        BufferView { row: v.row - 1, col: clamp_col(v.lines[v.row - 1], v.col), ..v }
    } else {
        v
    }
}

/// One row down, the column moved back to a character boundary of that row.
pub open spec fn down_of(v: BufferView) -> BufferView {
    if v.row + 1 < v.lines.len() {
        BufferView { row: v.row + 1, col: clamp_col(v.lines[v.row + 1], v.col), ..v }
    } else {
        v
    }
}

/// On a boundary, the column is the byte length of the first `cur_k` characters.
pub proof fn lemma_boundary_k(s: Seq<char>, b: int)
    requires
        is_boundary(s, b),
    ensures
        0 <= fit_chars(s, b) <= s.len(),
        utf8_len(s.take(fit_chars(s, b) as int)) == b,
{
    let k = choose|k: int| 0 <= k <= s.len() && utf8_len(s.take(k)) == b;
    if k < s.len() {
        lemma_utf8_len_take_mono(s, k, k + 1);
    }
    lemma_fit_chars(s, b, k);
}

/// `take(k)` is a boundary.
pub proof fn lemma_take_is_boundary(s: Seq<char>, k: int)
    requires
        0 <= k <= s.len(),
    ensures
        is_boundary(s, utf8_len(s.take(k)) as int),
        fit_chars(s, utf8_len(s.take(k)) as int) == k,
{
    if k < s.len() {
        lemma_utf8_len_take_mono(s, k, k + 1);
    }
    lemma_fit_chars(s, utf8_len(s.take(k)) as int, k);
}

/// A multi-line text buffer with row/column cursor tracking.
#[derive(Debug, Clone)]
pub struct InputBuffer {
    pub lines: Vec<String>,
    pub row: usize,
    /// Byte index into `lines[row]`.
    pub col: usize,
}

impl InputBuffer {
    pub open spec fn view_buf(&self) -> BufferView {
        BufferView {
            lines: self.lines@.map_values(|s: String| s@),
            row: self.row as int,
            col: self.col as int,
        }
    }

    /// One empty line, cursor at its start.
    pub fn new() -> (r: Self)
        ensures
            r.view_buf() == empty_buf(),
    {
        let mut lines: Vec<String> = Vec::new();
        lines.push(String::new());
        let r = InputBuffer { lines, row: 0, col: 0 };
        assert(r.view_buf().lines =~= seq![Seq::<char>::empty()]);
        r
    }

    /// Whether every line is empty.
    pub fn is_empty(&self) -> (b: bool)
        ensures
            b == buf_empty(self.view_buf()),
    {
        for i in 0..self.lines.len()
            invariant
                forall|j: int| 0 <= j < i ==> #[trigger] self.view_buf().lines[j].len() == 0,
        {
            if byte_len(self.lines[i].as_str()) != 0 {
                assert(self.view_buf().lines[i as int] == self.lines@[i as int]@);
                return false;
            }
            assert(self.view_buf().lines[i as int] == self.lines@[i as int]@);
        }
        true
    }

    /// The text: lines joined with newlines.
    pub fn text(&self) -> (r: String)
        ensures
            r@ == buf_text(self.view_buf()),
    {
        let mut parts: Vec<Vec<char>> = Vec::new();
        let ghost lv = self.view_buf().lines;
        for i in 0..self.lines.len()
            invariant
                lv == self.view_buf().lines,
                crate::text::views(parts@) == lv.take(i as int),
        {
            let ghost before = crate::text::views(parts@);
            parts.push(chars_of(self.lines[i].as_str()));
            assert(crate::text::views(parts@) =~= before.push(lv[i as int]));
            assert(lv.take(i + 1) =~= lv.take(i as int).push(lv[i as int]));
        }
        assert(lv.take(self.lines@.len() as int) =~= lv);
        let nl: [char; 1] = ['\n'];
        assert(nl@ =~= seq!['\n']);
        string_of(crate::text::join_chars(&parts, nl.as_slice()).as_slice())
    }

    /// Back to one empty line.
    pub fn clear(&mut self)
        ensures
            final(self).view_buf() == empty_buf(),
    {
        *self = InputBuffer::new();
    }

    /// Whether the cursor lies between two characters of its row.
    pub fn cursor_on_boundary(&self) -> (b: bool)
        requires
            buf_wf(self.view_buf()),
        ensures
            b == on_boundary(self.view_buf()),
    {
        let line = chars_of(self.lines[self.row].as_str());
        assert(line@ == cur(self.view_buf()));
        let k = fit_prefix_len(line.as_slice(), self.col);
        let n = crate::text::utf8_len_of(slice_sub(line.as_slice(), 0, k).as_slice());
        proof {
            assert(line@.subrange(0, k as int) =~= line@.take(k as int));
            if is_boundary(line@, self.col as int) {
                lemma_boundary_k(line@, self.col as int);
            }
            if n == self.col {
                assert(utf8_len(line@.take(k as int)) == self.col);
            }
        }
        n == self.col
    }
}


impl InputBuffer {
    /// The row under the cursor, as characters, with the cursor's character index.
    fn cursor_line(&self) -> (r: (Vec<char>, usize))
        requires
            on_boundary(self.view_buf()),
        ensures
            r.0@ == cur(self.view_buf()),
            r.1 == cur_k(self.view_buf()),
            r.1 <= r.0@.len(),
            utf8_len(r.0@.take(r.1 as int)) == self.col,
    {
        let line = chars_of(self.lines[self.row].as_str());
        let k = fit_prefix_len(line.as_slice(), self.col);
        proof {
            lemma_boundary_k(line@, self.col as int);
        }
        (line, k)
    }

    /// Inserts `c` at the cursor and moves past it.
    pub fn insert_char(&mut self, c: char)
        requires
            on_boundary(old(self).view_buf()),
        ensures
            final(self).view_buf() == ins_char(old(self).view_buf(), c),
            on_boundary(final(self).view_buf()),
    {
        let ghost v = self.view_buf();
        let (line, k) = self.cursor_line();
        let mut nl: Vec<char> = slice_sub(line.as_slice(), 0, k);
        nl.push(c);
        let tail = slice_sub(line.as_slice(), k, line.len());
        push_all(&mut nl, tail.as_slice());
        let ghost nv = line@.take(k as int) + seq![c] + line@.skip(k as int);
        assert(nl@ =~= nv);
        let new_line = string_of(nl.as_slice());
        let total = byte_len(new_line.as_str());
        let w = char_len_utf8(c);
        proof {
            assert(nv.take(k + 1) =~= line@.take(k as int).push(c));
            assert(nv.take(k + 1).drop_last() =~= line@.take(k as int));
            lemma_utf8_len_take_mono(nv, k + 1, nv.len() as int);
            assert(nv.take(nv.len() as int) =~= nv);
            lemma_take_is_boundary(nv, k + 1);
        }
        self.lines[self.row] = new_line;
        self.col = self.col + w;
        assert(self.view_buf().lines =~= v.lines.update(v.row, nv));
    }

    /// Splits the row at the cursor; the cursor moves to the start of the new row.
    pub fn insert_newline(&mut self)
        requires
            on_boundary(old(self).view_buf()),
        ensures
            final(self).view_buf() == ins_newline(old(self).view_buf()),
            on_boundary(final(self).view_buf()),
    {
        let ghost v = self.view_buf();
        let (line, k) = self.cursor_line();
        let head = string_of(slice_sub(line.as_slice(), 0, k).as_slice());
        let rest = string_of(slice_sub(line.as_slice(), k, line.len()).as_slice());
        assert(self.row < self.lines.len());
        self.lines[self.row] = head;
        self.lines.insert(self.row + 1, rest);
        self.row = self.row + 1;
        self.col = 0;
        assert(self.view_buf().lines =~= v.lines.take(v.row) + seq![
            line@.take(k as int),
            line@.skip(k as int),
        ] + v.lines.skip(v.row + 1));
        proof {
            lemma_take_is_boundary(line@.skip(k as int), 0);
            assert(line@.skip(k as int).take(0) =~= Seq::<char>::empty());
        }
    }
}


impl InputBuffer {
    /// Removes the character before the cursor, or joins the row to the previous one.
    pub fn backspace(&mut self)
        requires
            on_boundary(old(self).view_buf()),
        ensures
            final(self).view_buf() == backspace_of(old(self).view_buf()),
            on_boundary(final(self).view_buf()),
    {
        let ghost v = self.view_buf();
        if self.col > 0 {
            let (line, k) = self.cursor_line();
            assert(k > 0) by {
                if k == 0 {
                    assert(line@.take(0) =~= Seq::<char>::empty());
                }
            }
            let w = char_len_utf8(line[k - 1]);
            let mut nl: Vec<char> = slice_sub(line.as_slice(), 0, k - 1);
            let tail = slice_sub(line.as_slice(), k, line.len());
            push_all(&mut nl, tail.as_slice());
            let ghost nv = line@.take(k - 1) + line@.skip(k as int);
            assert(nl@ =~= nv);
            proof {
                lemma_utf8_len_take_succ(line@, k - 1);
                assert(nv.take(k - 1) =~= line@.take(k - 1));
                lemma_take_is_boundary(nv, k - 1);
            }
            self.lines[self.row] = string_of(nl.as_slice());
            self.col = self.col - w;
            assert(self.view_buf().lines =~= v.lines.update(v.row, nv));
        } else if self.row > 0 {
            let current = self.lines.remove(self.row);
            self.row = self.row - 1;
            let prev = chars_of(self.lines[self.row].as_str());
            let mut merged = prev.clone();
            push_all(&mut merged, chars_of(current.as_str()).as_slice());
            let new_col = byte_len(self.lines[self.row].as_str());
            let ghost mv = prev@ + current@;
            assert(merged@ =~= mv);
            proof {
                assert(mv.take(prev@.len() as int) =~= prev@);
                lemma_take_is_boundary(mv, prev@.len() as int);
            }
            self.lines[self.row] = string_of(merged.as_slice());
            self.col = new_col;
            assert(self.view_buf().lines =~= v.lines.take(v.row - 1) + seq![v.lines[v.row - 1] + cur(v)]
                + v.lines.skip(v.row + 1));
        }
    }

    /// Removes the character at the cursor, or joins the next row onto this one.
    pub fn delete_forward(&mut self)
        requires
            on_boundary(old(self).view_buf()),
        ensures
            final(self).view_buf() == delete_of(old(self).view_buf()),
            on_boundary(final(self).view_buf()),
    {
        let ghost v = self.view_buf();
        let line_len = byte_len(self.lines[self.row].as_str());
        if self.col < line_len {
            let (line, k) = self.cursor_line();
            assert(k < line@.len()) by {
                if k == line@.len() {
                    assert(line@.take(k as int) =~= line@);
                }
            }
            let mut nl: Vec<char> = slice_sub(line.as_slice(), 0, k);
            let tail = slice_sub(line.as_slice(), k + 1, line.len());
            push_all(&mut nl, tail.as_slice());
            let ghost nv = line@.take(k as int) + line@.skip(k + 1);
            assert(nl@ =~= nv);
            proof {
                assert(nv.take(k as int) =~= line@.take(k as int));
                lemma_take_is_boundary(nv, k as int);
            }
            self.lines[self.row] = string_of(nl.as_slice());
            assert(self.view_buf().lines =~= v.lines.update(v.row, nv));
        } else if self.row < self.lines.len() - 1 {
            let next = self.lines.remove(self.row + 1);
            let mut merged = chars_of(self.lines[self.row].as_str());
            let ghost cv = merged@;
            push_all(&mut merged, chars_of(next.as_str()).as_slice());
            let ghost mv = cv + next@;
            assert(merged@ =~= mv);
            proof {
                assert(cv.take(cv.len() as int) =~= cv);
                lemma_boundary_k(cv, self.col as int);
                lemma_fit_chars(cv, self.col as int, cv.len() as int);
                assert(mv.take(cv.len() as int) =~= cv);
                lemma_take_is_boundary(mv, cv.len() as int);
            }
            self.lines[self.row] = string_of(merged.as_slice());
            assert(self.view_buf().lines =~= v.lines.take(v.row) + seq![cur(v) + v.lines[v.row + 1]]
                + v.lines.skip(v.row + 2));
        }
    }

    /// Moves one character left, or to the end of the previous row.
    pub fn move_left(&mut self)
        requires
            on_boundary(old(self).view_buf()),
        ensures
            final(self).view_buf() == left_of(old(self).view_buf()),
            on_boundary(final(self).view_buf()),
    {
        let ghost v = self.view_buf();
        if self.col > 0 {
            let (line, k) = self.cursor_line();
            assert(k > 0) by {
                if k == 0 {
                    assert(line@.take(0) =~= Seq::<char>::empty());
                }
            }
            let w = char_len_utf8(line[k - 1]);
            proof {
                lemma_utf8_len_take_succ(line@, k - 1);
                lemma_take_is_boundary(line@, k - 1);
            }
            self.col = self.col - w;
        } else if self.row > 0 {
            self.row = self.row - 1;
            self.col = byte_len(self.lines[self.row].as_str());
            proof {
                let l = self.lines@[self.row as int]@;
                assert(l.take(l.len() as int) =~= l);
                lemma_take_is_boundary(l, l.len() as int);
            }
        }
        assert(self.view_buf().lines =~= v.lines);
    }

    /// Moves one character right, or to the start of the next row.
    pub fn move_right(&mut self)
        requires
            on_boundary(old(self).view_buf()),
        ensures
            final(self).view_buf() == right_of(old(self).view_buf()),
            on_boundary(final(self).view_buf()),
    {
        let ghost v = self.view_buf();
        let line_len = byte_len(self.lines[self.row].as_str());
        if self.col < line_len {
            let (line, k) = self.cursor_line();
            assert(k < line@.len()) by {
                if k == line@.len() {
                    assert(line@.take(k as int) =~= line@);
                }
            }
            let w = char_len_utf8(line[k]);
            proof {
                lemma_utf8_len_take_succ(line@, k as int);
                lemma_utf8_len_take_mono(line@, k + 1, line@.len() as int);
                assert(line@.take(line@.len() as int) =~= line@);
                lemma_take_is_boundary(line@, k + 1);
            }
            self.col = self.col + w;
        } else if self.row < self.lines.len() - 1 {
            self.row = self.row + 1;
            self.col = 0;
            proof {
                let l = self.lines@[self.row as int]@;
                assert(l.take(0) =~= Seq::<char>::empty());
                lemma_take_is_boundary(l, 0);
            }
        }
        assert(self.view_buf().lines =~= v.lines);
    }

    /// The last character boundary of row `row` at or before byte `col`.
    fn boundary_at_or_below(&self, row: usize, col: usize) -> (r: usize)
        requires
            row < self.lines@.len(),
        ensures
            r == clamp_col(self.view_buf().lines[row as int], col as int),
            r <= col,
            is_boundary(self.view_buf().lines[row as int], r as int),
            r <= utf8_len(self.view_buf().lines[row as int]),
    {
        let cs = chars_of(self.lines[row].as_str());
        assert(cs@ == self.view_buf().lines[row as int]);
        let k = fit_prefix_len(cs.as_slice(), col);
        let head = slice_sub(cs.as_slice(), 0, k);
        assert(head@ =~= cs@.take(k as int));
        proof {
            lemma_take_is_boundary(cs@, k as int);
            lemma_utf8_len_take_mono(cs@, k as int, cs@.len() as int);
            assert(cs@.take(cs@.len() as int) =~= cs@);
        }
        utf8_len_of(head.as_slice())
    }

    /// Moves to the previous row, at the nearest character boundary at or
    /// before the column.
    pub fn move_up(&mut self)
        requires
            buf_wf(old(self).view_buf()),
        ensures
            final(self).view_buf() == up_of(old(self).view_buf()),
            buf_wf(final(self).view_buf()),
            old(self).row > 0 ==> on_boundary(final(self).view_buf()),
            on_boundary(old(self).view_buf()) ==> on_boundary(final(self).view_buf()),
    {
        let ghost v = self.view_buf();
        if self.row > 0 {
            let c = self.boundary_at_or_below(self.row - 1, self.col);
            self.row = self.row - 1;
            self.col = c;
        }
        assert(self.view_buf().lines =~= v.lines);
    }

    /// Moves to the next row, at the nearest character boundary at or before
    /// the column.
    pub fn move_down(&mut self)
        requires
            buf_wf(old(self).view_buf()),
        ensures
            final(self).view_buf() == down_of(old(self).view_buf()),
            buf_wf(final(self).view_buf()),
            old(self).row + 1 < old(self).lines@.len() ==> on_boundary(final(self).view_buf()),
            on_boundary(old(self).view_buf()) ==> on_boundary(final(self).view_buf()),
    {
        let ghost v = self.view_buf();
        if self.row < self.lines.len() - 1 {
            let c = self.boundary_at_or_below(self.row + 1, self.col);
            self.row = self.row + 1;
            self.col = c;
        }
        assert(self.view_buf().lines =~= v.lines);
    }

    /// Moves to the start of the row.
    pub fn move_home(&mut self)
        requires
            buf_wf(old(self).view_buf()),
        ensures
            final(self).view_buf() == (BufferView { col: 0, ..old(self).view_buf() }),
            on_boundary(final(self).view_buf()),
    {
        self.col = 0;
        proof {
            let l = cur(self.view_buf());
            assert(l.take(0) =~= Seq::<char>::empty());
            lemma_take_is_boundary(l, 0);
        }
    }

    /// Moves to the end of the row.
    pub fn move_end(&mut self)
        requires
            buf_wf(old(self).view_buf()),
        ensures
            final(self).view_buf() == (BufferView {
                col: utf8_len(cur(old(self).view_buf())) as int,
                ..old(self).view_buf()
            }),
            on_boundary(final(self).view_buf()),
    {
        self.col = byte_len(self.lines[self.row].as_str());
        proof {
            let l = cur(self.view_buf());
            assert(l.take(l.len() as int) =~= l);
            lemma_take_is_boundary(l, l.len() as int);
        }
    }

    /// The number of rows.
    pub fn line_count(&self) -> (n: usize)
        ensures
            n == self.view_buf().lines.len(),
    {
        self.lines.len()
    }
}


// ── Laws ─────────────────────────────────────────────────────────────────────

/// Joining two non-empty runs of parts puts one separator between them.
pub proof fn lemma_join_concat(x: Seq<Seq<char>>, y: Seq<Seq<char>>, sep: Seq<char>)
    requires
        x.len() > 0,
        y.len() > 0,
    ensures
        join(x + y, sep) == join(x, sep) + sep + join(y, sep),
    decreases y.len(),
{
    if y.len() == 1 {
        assert((x + y).drop_last() =~= x);
        assert((x + y).last() == y[0]);
    } else {
        lemma_join_concat(x, y.drop_last(), sep);
        assert((x + y).drop_last() =~= x + y.drop_last());
        assert((x + y).last() == y.last());
    }
}

/// The text before row `r`, with the newline that ends it.
pub open spec fn text_before(ls: Seq<Seq<char>>, r: int) -> Seq<char> {
    if r > 0 {
        join(ls.take(r), seq!['\n']) + seq!['\n']
    } else {
        seq![]
    }
}

/// The text after row `r`, with the newline that starts it.
pub open spec fn text_after(ls: Seq<Seq<char>>, r: int) -> Seq<char> {
    if r + 1 < ls.len() {
        seq!['\n'] + join(ls.skip(r + 1), seq!['\n'])
    } else {
        seq![]
    }
}

/// The text is the rows before, row `r`, and the rows after.
pub proof fn lemma_join_at(ls: Seq<Seq<char>>, r: int)
    requires
        0 <= r < ls.len(),
    ensures
        join(ls, seq!['\n']) == text_before(ls, r) + ls[r] + text_after(ls, r),
{
    let sep = seq!['\n'];
    let mid = seq![ls[r]];
    let left = ls.take(r);
    let right = ls.skip(r + 1);
    assert(join(mid, sep) == ls[r]);
    if r > 0 {
        lemma_join_concat(left, mid, sep);
    }
    if r + 1 < ls.len() {
        if r > 0 {
            lemma_join_concat(left + mid, right, sep);
            assert(left + mid + right =~= ls);
            assert(join(left + mid, sep) == join(left, sep) + sep + ls[r]);
        } else {
            lemma_join_concat(mid, right, sep);
            assert(mid + right =~= ls);
        }
    } else {
        if r > 0 {
            assert(left + mid =~= ls);
        } else {
            assert(mid =~= ls);
        }
    }
}

/// Where the cursor stands in the buffer's text, counted in characters.
pub open spec fn text_pos(v: BufferView) -> int {
    text_before(v.lines, v.row).len() + cur_k(v)
}

/// Typing a character puts it into the text at the cursor.
pub proof fn law_insert_char_text(v: BufferView, c: char)
    requires
        on_boundary(v),
    ensures
        buf_text(ins_char(v, c)) == buf_text(v).take(text_pos(v)) + seq![c] + buf_text(v).skip(
            text_pos(v),
        ),
        text_pos(ins_char(v, c)) == text_pos(v) + 1,
{
    let w = ins_char(v, c);
    let k = cur_k(v);
    lemma_boundary_k(cur(v), v.col);
    lemma_join_at(v.lines, v.row);
    lemma_join_at(w.lines, w.row);
    assert(w.lines.take(v.row) =~= v.lines.take(v.row));
    assert(w.lines.skip(v.row + 1) =~= v.lines.skip(v.row + 1));
    let pre = text_before(v.lines, v.row);
    let post = text_after(v.lines, v.row);
    let l = cur(v);
    assert((pre + l + post).take(pre.len() + k) =~= pre + l.take(k));
    assert((pre + l + post).skip(pre.len() + k) =~= l.skip(k) + post);
    assert(pre + (l.take(k) + seq![c] + l.skip(k)) + post =~= pre + l.take(k) + seq![c] + (l.skip(k)
        + post));
    let nl = l.take(k) + seq![c] + l.skip(k);
    assert(nl.take(k + 1) =~= l.take(k).push(c));
    assert(nl.take(k + 1).drop_last() =~= l.take(k));
    lemma_take_is_boundary(nl, k + 1);
}

/// Breaking a line puts a newline into the text at the cursor.
pub proof fn law_insert_newline_text(v: BufferView)
    requires
        on_boundary(v),
    ensures
        buf_text(ins_newline(v)) == buf_text(v).take(text_pos(v)) + seq!['\n'] + buf_text(v).skip(
            text_pos(v),
        ),
        text_pos(ins_newline(v)) == text_pos(v) + 1,
{
    let w = ins_newline(v);
    let k = cur_k(v);
    let sep = seq!['\n'];
    lemma_boundary_k(cur(v), v.col);
    lemma_join_at(v.lines, v.row);
    let l = cur(v);
    let a = l.take(k);
    let b = l.skip(k);
    let left = v.lines.take(v.row);
    let right = v.lines.skip(v.row + 1);
    let pre = text_before(v.lines, v.row);
    let post = text_after(v.lines, v.row);
    assert(w.lines =~= left + seq![a, b] + right);
    lemma_join_at(w.lines, v.row);
    assert(w.lines.take(v.row) =~= left);
    assert(w.lines.skip(v.row + 1) =~= seq![b] + right);
    if right.len() > 0 {
        lemma_join_concat(seq![b], right, sep);
    }
    assert(text_after(w.lines, v.row) =~= sep + b + post);
    assert((pre + l + post).take(pre.len() + k) =~= pre + a);
    assert((pre + l + post).skip(pre.len() + k) =~= b + post);
    assert(pre + a + (sep + b + post) =~= pre + a + sep + (b + post));
    // the cursor sits at the start of the new row
    lemma_join_at(w.lines, w.row);
    assert(w.lines.take(w.row) =~= left + seq![a]);
    if v.row > 0 {
        lemma_join_concat(left, seq![a], sep);
    }
    assert(b.take(0) =~= Seq::<char>::empty());
    lemma_take_is_boundary(b, 0);
}

/// Backspace right after typing a character gives back the buffer as it was.
pub proof fn law_backspace_undoes_insert(v: BufferView, c: char)
    requires
        on_boundary(v),
    ensures
        backspace_of(ins_char(v, c)) == v,
{
    let w = ins_char(v, c);
    let k = cur_k(v);
    let l = cur(v);
    lemma_boundary_k(l, v.col);
    let nl = l.take(k) + seq![c] + l.skip(k);
    assert(nl.take(k + 1) =~= l.take(k).push(c));
    assert(nl.take(k + 1).drop_last() =~= l.take(k));
    lemma_take_is_boundary(nl, k + 1);
    assert(cur(w) == nl);
    assert(cur_k(w) == k + 1);
    assert(nl.take(k) =~= l.take(k));
    assert(nl.take(k) + nl.skip(k + 1) =~= l);
    assert(w.lines.update(v.row, l) =~= v.lines);
}

/// Moving left and then right comes back to the same place.
pub proof fn law_right_undoes_left(v: BufferView)
    requires
        on_boundary(v),
        v.col > 0 || v.row > 0,
    ensures
        right_of(left_of(v)) == v,
{
    let l = cur(v);
    lemma_boundary_k(l, v.col);
    let k = cur_k(v);
    if v.col > 0 {
        assert(k > 0) by {
            if k == 0 {
                assert(l.take(0) =~= Seq::<char>::empty());
            }
        }
        lemma_take_is_boundary(l, k - 1);
        lemma_utf8_len_take_succ(l, k - 1);
        lemma_utf8_len_take_mono(l, k, l.len() as int);
        assert(l.take(l.len() as int) =~= l);
    } else {
        let p = v.lines[v.row - 1];
        assert(l.take(0) =~= Seq::<char>::empty());
    }
}

proof fn lemma_join_newlines(ps: Seq<Seq<char>>)
    requires
        ps.len() >= 1,
        forall|i: int, k: int| 0 <= i < ps.len() && 0 <= k < ps[i].len() ==> ps[i][k] != '\n',
    ensures
        (forall|i: int| 0 <= i < ps.len() ==> #[trigger] ps[i].len() == 0) <==> (forall|k: int|
            0 <= k < join(ps, seq!['\n']).len() ==> #[trigger] join(ps, seq!['\n'])[k] == '\n'),
    decreases ps.len(),
{
    let j = join(ps, seq!['\n']);
    if ps.len() == 1 {
        assert(j == ps[0]);
        if ps[0].len() > 0 {
            assert(j[0] != '\n');
        }
    } else {
        let d = ps.drop_last();
        let l = ps.last();
        assert forall|i: int, k: int| 0 <= i < d.len() && 0 <= k < d[i].len() implies d[i][k] != '\n' by {
            assert(d[i] == ps[i]);
        }
        lemma_join_newlines(d);
        let jd = join(d, seq!['\n']);
        assert(j == jd + seq!['\n'] + l);
        if forall|i: int| 0 <= i < ps.len() ==> #[trigger] ps[i].len() == 0 {
            assert forall|i: int| 0 <= i < d.len() implies #[trigger] d[i].len() == 0 by {
                assert(d[i] == ps[i]);
            }
            assert(l.len() == 0);
            assert forall|k: int| 0 <= k < j.len() implies #[trigger] j[k] == '\n' by {
                if k < jd.len() {
                    assert(j[k] == jd[k]);
                }
            }
        }
        if forall|k: int| 0 <= k < j.len() ==> #[trigger] j[k] == '\n' {
            assert forall|k: int| 0 <= k < jd.len() implies #[trigger] jd[k] == '\n' by {
                assert(j[k] == jd[k]);
            }
            if l.len() > 0 {
                assert(j[jd.len() as int + 1] == l[0]);
                assert(l[0] != '\n');
            }
            assert forall|i: int| 0 <= i < ps.len() implies #[trigger] ps[i].len() == 0 by {
                if i < d.len() {
                    assert(d[i] == ps[i]);
                }
            }
        }
    }
}

/// When no row holds a newline, the buffer is empty exactly when its text
/// holds nothing but newlines.
pub proof fn law_empty_iff_only_newlines(v: BufferView)
    requires
        v.lines.len() >= 1,
        forall|i: int, k: int| 0 <= i < v.lines.len() && 0 <= k < v.lines[i].len() ==> v.lines[i][k] != '\n',
    ensures
        buf_empty(v) <==> (forall|k: int| 0 <= k < buf_text(v).len() ==> #[trigger] buf_text(v)[k] == '\n'),
{
    lemma_join_newlines(v.lines);
    let t = join(v.lines, seq!['\n']);
    assert(buf_text(v) == t);
    if buf_empty(v) {
        assert(forall|i: int| 0 <= i < v.lines.len() ==> #[trigger] v.lines[i].len() == 0);
        assert(forall|k: int| 0 <= k < t.len() ==> #[trigger] t[k] == '\n');
    }
    if forall|k: int| 0 <= k < t.len() ==> #[trigger] t[k] == '\n' {
        assert(forall|i: int| 0 <= i < v.lines.len() ==> #[trigger] v.lines[i].len() == 0);
        assert forall|i: int| 0 <= i < v.lines.len() implies #[trigger] v.lines[i].len() == 0 by {}
    }
}

/// Moving left and then deleting forward is backspace.
pub proof fn law_delete_after_left(v: BufferView)
    requires
        on_boundary(v),
        v.col > 0 || v.row > 0,
    ensures
        delete_of(left_of(v)) == backspace_of(v),
{
    let l = cur(v);
    lemma_boundary_k(l, v.col);
    let k = cur_k(v);
    if v.col > 0 {
        assert(k > 0) by {
            if k == 0 {
                assert(l.take(0) =~= Seq::<char>::empty());
            }
        }
        lemma_take_is_boundary(l, k - 1);
        lemma_utf8_len_take_mono(l, k - 1, k);
        lemma_utf8_len_take_mono(l, k, l.len() as int);
        assert(l.take(l.len() as int) =~= l);
    }
}

/// Moving right and then left comes back to the same place.
pub proof fn law_left_undoes_right(v: BufferView)
    requires
        on_boundary(v),
        v.col < utf8_len(cur(v)) || v.row + 1 < v.lines.len(),
    ensures
        left_of(right_of(v)) == v,
{
    let l = cur(v);
    lemma_boundary_k(l, v.col);
    let k = cur_k(v);
    if v.col < utf8_len(l) {
        assert(k < l.len()) by {
            if k == l.len() {
                assert(l.take(k) =~= l);
            }
        }
        lemma_take_is_boundary(l, k + 1);
        lemma_utf8_len_take_mono(l, k, k + 1);
    }
}

/// A fresh buffer is empty and its text is empty.
pub proof fn law_new_is_empty()
    ensures
        buf_empty(empty_buf()),
        buf_text(empty_buf()) == Seq::<char>::empty(),
        on_boundary(empty_buf()),
{
    let e = empty_buf();
    assert(cur(e).take(0) =~= Seq::<char>::empty());
}

} // verus!
