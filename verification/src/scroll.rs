//! How far a scrolled paragraph is moved down.

use vstd::prelude::*;

verus! {

/// The scroll position of a paragraph: how many lines are hidden above the view.
#[derive(Debug, PartialEq, Eq, Clone, Default)]
pub struct ParagraphState {
    pub offset_top: u16,
}

/// `offset` moved down by `amount` lines, stopping at the largest offset.
pub open spec fn moved_down(offset: u16, amount: u16) -> u16 {
    if offset + amount > u16::MAX {
        u16::MAX
    } else {
        (offset + amount) as u16
    }
}

/// `offset` moved up by `amount` lines, stopping at the top.
pub open spec fn moved_up(offset: u16, amount: u16) -> u16 {
    if offset < amount {
        0
    } else {
        (offset - amount) as u16
    }
}

impl ParagraphState {
    /// The paragraph scrolled to the top.
    pub fn new() -> (r: ParagraphState)
        ensures
            r.offset_top == 0,
    {
        ParagraphState { offset_top: 0 }
    }

    /// One line down.
    pub fn down(&mut self)
        ensures
            final(self).offset_top == moved_down(old(self).offset_top, 1),
    {
        self.offset_top = self.offset_top.saturating_add(1);
    }

    /// `amount` lines down, one at a time.
    pub fn down_by(&mut self, amount: u16)
        ensures
            final(self).offset_top == moved_down(old(self).offset_top, amount),
    {
        let mut i: u16 = 0;
        while i < amount
            invariant
                i <= amount,
                self.offset_top == moved_down(old(self).offset_top, i),
            decreases amount - i,
        {
            self.down();
            i = i + 1;
        }
    }

    /// `amount` lines up, one at a time.
    pub fn up_by(&mut self, amount: u16)
        ensures
            final(self).offset_top == moved_up(old(self).offset_top, amount),
    {
        let mut i: u16 = 0;
        while i < amount
            invariant
                i <= amount,
                self.offset_top == moved_up(old(self).offset_top, i),
            decreases amount - i,
        {
            self.up();
            i = i + 1;
        }
    }

    /// One line up, unless at the top.
    pub fn up(&mut self)
        ensures
            final(self).offset_top == moved_up(old(self).offset_top, 1),
    {
        if self.offset_top == 0 {
            return;
        }
        self.offset_top = self.offset_top - 1;
    }

    /// Kept on a text of `len` lines: an offset past the last line is brought back to it.
    pub fn clamp_to(&mut self, len: u16)
        requires
            len > 0,
        ensures
            final(self).offset_top == (if old(self).offset_top < len - 1 {
                old(self).offset_top as int
            } else {
                len - 1
            }),
    {
        if self.offset_top >= len - 1 {
            self.offset_top = len - 1;
        }
    }

    /// Back to the top.
    pub fn reset(&mut self)
        ensures
            final(self).offset_top == 0,
    {
        self.offset_top = 0;
    }
}

/// Scrolling up undoes scrolling down by the same amount, unless the bottom stopped it.
pub proof fn lemma_up_undoes_down(offset: u16, amount: u16)
    requires
        offset + amount <= u16::MAX,
    ensures
        moved_up(moved_down(offset, amount), amount) == offset,
{
}

/// Scrolling down by `a` then by `b` is scrolling down by `a + b`.
pub proof fn lemma_down_adds(offset: u16, a: u16, b: u16)
    requires
        a + b <= u16::MAX,
    ensures
        moved_down(moved_down(offset, a), b) == moved_down(offset, (a + b) as u16),
{
}

/// Scrolling up never passes the top, and scrolling down never passes the bottom.
pub proof fn lemma_scroll_bounded(offset: u16, amount: u16)
    ensures
        moved_up(offset, amount) <= offset,
        moved_down(offset, amount) >= offset,
{
}

} // verus!
