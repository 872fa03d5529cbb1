use vstd::prelude::*;

verus! {

/// A position in a module's source text: 1-indexed line and column.
#[derive(Debug, Clone, Copy, PartialEq, Eq, Structural)]
pub struct Span {
    pub line_num: usize,
    pub col_num: usize,
}

impl View for Span {
    type V = (int, int);

    open spec fn view(&self) -> (int, int) {
        (self.line_num as int, self.col_num as int)
    }
}

/// Columns that a tab advances the position by.
pub const TAB_WIDTH: usize = 4;

/// The position after the character `c` was read at position `p`.
pub open spec fn pos_after(p: (int, int), c: char) -> (int, int) {
    if c == '\n' {
        (p.0 + 1, 1)
    } else if c == '\t' {
        (p.0, p.1 + TAB_WIDTH)
    } else {
        (p.0, p.1 + 1)
    }
}

/// The position of the character at index `i` of `src`.
pub open spec fn pos_at(src: Seq<char>, i: int) -> (int, int)
    decreases i,
{
    if i <= 0 {
        (1, 1)
    } else {
        pos_after(pos_at(src, i - 1), src[i - 1])
    }
}

/// `a` comes no later than `b`: by line, then by column.
pub open spec fn pos_le(a: (int, int), b: (int, int)) -> bool {
    a.0 < b.0 || (a.0 == b.0 && a.1 <= b.1)
}

/// Positions only move forward, and stay within what `i` characters can reach.
pub proof fn lemma_pos_at_bounds(src: Seq<char>, i: int)
    requires
        0 <= i,
    ensures
        1 <= pos_at(src, i).0 <= 1 + i,
        1 <= pos_at(src, i).1 <= 1 + TAB_WIDTH * i,
    decreases i,
{
    if i > 0 {
        lemma_pos_at_bounds(src, i - 1);
    }
}

/// Reading more characters never moves the position backwards.
pub proof fn lemma_pos_at_monotone(src: Seq<char>, i: int, j: int)
    requires
        0 <= i <= j,
    ensures
        pos_le(pos_at(src, i), pos_at(src, j)),
    decreases j - i,
{
    if i < j {
        lemma_pos_at_monotone(src, i, j - 1);
        lemma_pos_at_bounds(src, j - 1);
    }
}

impl Span {
    /// The position of the first character of a module.
    pub fn new() -> (r: Span)
        ensures
            r@ == (1int, 1int),
    {
        Span { line_num: 1, col_num: 1 }
    }

    pub fn new_with(line_num: usize, col_num: usize) -> (r: Span)
        ensures
            r.line_num == line_num,
            r.col_num == col_num,
    {
        Span { line_num, col_num }
    }

    /// Moves to the first column.
    pub fn reset_col_num(&mut self)
        ensures
            final(self).line_num == old(self).line_num,
            final(self).col_num == 1,
    {
        self.col_num = 1;
    }

    pub fn incre_line_num(&mut self)
        requires
            old(self).line_num < usize::MAX,
        ensures
            final(self).line_num == old(self).line_num + 1,
            final(self).col_num == old(self).col_num,
    {
        self.line_num = self.line_num + 1;
    }

    pub fn incre_col_num(&mut self)
        requires
            old(self).col_num < usize::MAX,
        ensures
            final(self).line_num == old(self).line_num,
            final(self).col_num == old(self).col_num + 1,
    {
        self.col_num = self.col_num + 1;
    }

    pub fn incre_col_num_by(&mut self, offset: usize)
        requires
            old(self).col_num + offset <= usize::MAX,
        ensures
            final(self).line_num == old(self).line_num,
            final(self).col_num == old(self).col_num + offset,
    {
        self.col_num = self.col_num + offset;
    }

    pub fn incre_line_num_by(&mut self, offset: usize)
        requires
            old(self).line_num + offset <= usize::MAX,
        ensures
            final(self).line_num == old(self).line_num + offset,
            final(self).col_num == old(self).col_num,
    {
        self.line_num = self.line_num + offset;
    }

    pub fn decre_line_num(&mut self)
        requires
            old(self).line_num > 0,
        ensures
            final(self).line_num == old(self).line_num - 1,
            final(self).col_num == old(self).col_num,
    {
        self.line_num = self.line_num - 1;
    }

    pub fn decre_col_num(&mut self)
        requires
            old(self).col_num > 0,
        ensures
            final(self).line_num == old(self).line_num,
            final(self).col_num == old(self).col_num - 1,
    {
        self.col_num = self.col_num - 1;
    }

    /// Advances past the character `chr`: a newline starts the next line, a tab
    /// moves by `TAB_WIDTH` columns, anything else by one.
    pub fn incre_from_char(&mut self, chr: char)
        requires
            chr == '\n' ==> old(self).line_num < usize::MAX,
            chr == '\t' ==> old(self).col_num + TAB_WIDTH <= usize::MAX,
            chr != '\n' && chr != '\t' ==> old(self).col_num < usize::MAX,
        ensures
            final(self)@ == pos_after(old(self)@, chr),
    {
        if chr == '\n' {
            self.incre_line_num();
            self.reset_col_num();
        } else if chr == '\t' {
            self.incre_col_num_by(TAB_WIDTH);
        } else {
            self.incre_col_num();
        }
    }
}

} // verus!
