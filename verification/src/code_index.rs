//! The cursor that the interpreter keeps over a list of compiled steps.
use vstd::prelude::*;

verus! {

/// Position in a list of compiled steps, with a flag that asks the next
/// advance to stay on the current step once.
#[derive(PartialEq, Eq, Clone, Copy)]
pub struct CodeIndex {
    pub(crate) current: usize,
    pub(crate) retry: bool,
}

impl CodeIndex {
    /// The position the cursor stands on.
    pub closed spec fn pos(self) -> nat {
        self.current as nat
    }

    /// Whether the next advance stays on the current position.
    pub closed spec fn retrying(self) -> bool {
        self.retry
    }

    /// The cursor with the given position and flag.
    pub closed spec fn at(pos: nat, retry: bool) -> Self
        recommends pos <= usize::MAX,
    {
        CodeIndex { current: pos as usize, retry }
    }

    /// What one call of `next` makes of the cursor.
    pub open spec fn spec_next(self) -> Self {
        if self.retrying() {
            Self::at(self.pos(), false)
        } else {
            Self::at(self.pos() + 1, false)
        }
    }

    /// Every position a `usize` can hold is a cursor, and the cursor is
    /// determined by its position and flag.
    pub proof fn lemma_at(pos: nat, retry: bool)
        requires pos <= usize::MAX,
        ensures
            Self::at(pos, retry).pos() == pos,
            Self::at(pos, retry).retrying() == retry,
    {
    }

    /// Two cursors with the same position and flag are equal.
    pub proof fn lemma_ext(a: Self, b: Self)
        requires a.pos() == b.pos(), a.retrying() == b.retrying(),
        ensures a == b,
    {
    }

    /// A cursor at the first step, not retrying.
    pub fn new() -> (r: Self)
        ensures r.pos() == 0, !r.retrying(),
    {
        Self { current: 0, retry: false }
    }

    /// Puts the cursor back on the first step and clears the retry flag.
    pub fn reset(&mut self)
        ensures final(self).pos() == 0, !final(self).retrying(),
    {
        self.current = 0;
        self.retry = false;
    }

    /// Advances to the next step, unless the retry flag is set: then it
    /// clears the flag and stays. Returns the new position.
    pub fn next(&mut self) -> (r: usize)
        requires old(self).retrying() || old(self).pos() < usize::MAX,
        ensures
            !final(self).retrying(),
            old(self).retrying() ==> final(self).pos() == old(self).pos(),
            !old(self).retrying() ==> final(self).pos() == old(self).pos() + 1,
            *final(self) == old(self).spec_next(),
            r == final(self).pos(),
    {
        if self.retry {
            self.retry = false;
        } else {
            self.current += 1;
        }
        self.current
    }

    /// The current position.
    pub fn current(&self) -> (r: usize)
        ensures r == self.pos(),
    {
        self.current
    }

    /// Asks the next advance to stay on the current step.
    pub fn set_retry(&mut self)
        ensures
            final(self).retrying(),
            final(self).pos() == old(self).pos(),
            *final(self) == CodeIndex::at(old(self).pos(), true),
    {
        self.retry = true;
    }

    /// Clears the retry flag.
    pub fn reset_retry(&mut self)
        ensures !final(self).retrying(), final(self).pos() == old(self).pos(),
    {
        self.retry = false;
    }

    /// Moves the position by a signed amount.
    pub fn move_iamount(&mut self, amount: isize)
        requires
            amount > isize::MIN,
            0 <= old(self).pos() + amount <= usize::MAX,
        ensures
            final(self).pos() == old(self).pos() + amount,
            final(self).retrying() == old(self).retrying(),
    {
        if amount < 0 {
            self.current -= (-amount) as usize;
        } else {
            self.current += amount as usize;
        }
    }

    /// Moves the position forward (`dir`) or back by `amount`.
    pub fn move_amount(&mut self, dir: bool, amount: usize)
        requires
            dir ==> old(self).pos() + amount <= usize::MAX,
            !dir ==> amount <= old(self).pos(),
        ensures
            dir ==> final(self).pos() == old(self).pos() + amount,
            !dir ==> final(self).pos() == old(self).pos() - amount,
            final(self).retrying() == old(self).retrying(),
    {
        if dir {
            self.current += amount;
        } else {
            self.current -= amount;
        }
    }

    /// Moves the position forward by `amount`.
    pub fn skip(&mut self, amount: usize)
        requires old(self).pos() + amount <= usize::MAX,
        ensures
            final(self).pos() == old(self).pos() + amount,
            final(self).retrying() == old(self).retrying(),
    {
        self.current += amount;
    }

    /// Moves the position past every list of steps.
    pub fn goto_end(&mut self)
        ensures
            final(self).pos() == usize::MAX,
            final(self).retrying() == old(self).retrying(),
    {
        self.current = usize::MAX;
    }
}

/// A retry request holds the cursor in place for exactly one advance: the
/// advance after it moves on again.
pub proof fn law_retry_holds_once(c: CodeIndex)
    requires c.pos() + 1 <= usize::MAX,
    ensures
        CodeIndex::at(c.pos(), true).spec_next().pos() == c.pos(),
        CodeIndex::at(c.pos(), true).spec_next().spec_next().pos() == c.pos() + 1,
{
    CodeIndex::lemma_at(c.pos(), true);
    CodeIndex::lemma_at(c.pos(), false);
    CodeIndex::lemma_at(c.pos() + 1, false);
}

} // verus!
