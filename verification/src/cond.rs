//! The conditional stack: one frame for each open `#if`, `#ifdef` or
//! `#ifndef`, and whether lines are emitted at the moment.

use vstd::prelude::*;
use crate::error::Error;

verus! {

/// One open conditional.
#[derive(Debug, Clone, Copy, PartialEq, Eq)]
pub struct CondFrame {
    /// Whether lines were emitted just outside this conditional.
    pub parent_active: bool,
    /// What this conditional's own test gave; an `#else` turns it round.
    pub active: bool,
    /// Whether this conditional has had its `#else`.
    pub else_seen: bool,
}

/// Whether lines are emitted inside the innermost of `frames`: always
/// outside every conditional, and inside one where both its surroundings
/// and its own condition allow it.
pub open spec fn emitting(frames: Seq<CondFrame>) -> bool {
    frames.len() == 0 || (frames.last().parent_active && frames.last().active)
}

/// Whether each frame remembers rightly if lines were emitted around it.
pub open spec fn well_nested(frames: Seq<CondFrame>) -> bool {
    forall|i: int|
        0 <= i < frames.len() ==> (#[trigger] frames[i]).parent_active == emitting(frames.take(i))
}

/// `frames` after a conditional with the condition `condition` was opened.
pub open spec fn opened(frames: Seq<CondFrame>, condition: bool) -> Seq<CondFrame> {
    frames.push(CondFrame { parent_active: emitting(frames), active: condition, else_seen: false })
}

/// `frames` after an `#else`: the first one of a conditional turns its
/// condition round, any further one changes nothing.
pub open spec fn flipped(frames: Seq<CondFrame>) -> Seq<CondFrame>
    recommends
        frames.len() > 0,
{
    let top = frames.last();
    if top.else_seen {
        frames
    } else {
        frames.drop_last().push(
            CondFrame { parent_active: top.parent_active, active: !top.active, else_seen: true },
        )
    }
}

/// The open conditionals of one file, outermost first. A stack that was
/// made by [`CondStack::new`] is well nested, and stays so.
#[derive(Debug)]
pub struct CondStack {
    frames: Vec<CondFrame>,
}

impl View for CondStack {
    type V = Seq<CondFrame>;

    closed spec fn view(&self) -> Seq<CondFrame> {
        self.frames@
    }
}

impl CondStack {
    /// A stack with no conditional open.
    pub fn new() -> (stack: CondStack)
        ensures
            stack@ == Seq::<CondFrame>::empty(),
            well_nested(stack@),
    {
        CondStack { frames: Vec::new() }
    }

    /// How many conditionals are open.
    pub fn depth(&self) -> (n: usize)
        ensures
            n == self@.len(),
    {
        self.frames.len()
    }

    /// Whether lines are emitted at the moment.
    pub fn is_emitting(&self) -> (r: bool)
        ensures
            r == emitting(self@),
    {
        let n = self.frames.len();
        n == 0 || (self.frames[n - 1].parent_active && self.frames[n - 1].active)
    }

    /// Opens a conditional whose own test gave `condition`. Inside it lines
    /// are emitted if they were emitted before and `condition` holds.
    pub fn open(&mut self, condition: bool)
        ensures
            final(self)@ == opened(old(self)@, condition),
            emitting(final(self)@) == (emitting(old(self)@) && condition),
            well_nested(old(self)@) ==> well_nested(final(self)@),
    {
        proof {
            if well_nested(self@) {
                lemma_open_nests(self@, condition);
            }
        }
        let parent_active = self.is_emitting();
        self.frames.push(CondFrame { parent_active, active: condition, else_seen: false });
    }

    /// Handles an `#else`: the first one of the innermost conditional turns
    /// its condition round, a further one is ignored. Outside every
    /// conditional it is an error, and nothing changes.
    pub fn flip(&mut self) -> (result: Result<(), Error>)
        ensures
            old(self)@.len() == 0 ==> result == Err::<(), Error>(Error::ElseWithoutIf)
                && final(self)@ == old(self)@,
            old(self)@.len() > 0 ==> result is Ok && final(self)@ == flipped(old(self)@),
            well_nested(old(self)@) ==> well_nested(final(self)@),
    {
        let n = self.frames.len();
        if n == 0 {
            return Err(Error::ElseWithoutIf);
        }
        proof {
            if well_nested(self@) {
                lemma_flip_nests(self@);
            }
        }
        let top = self.frames[n - 1];
        if !top.else_seen {
            self.frames.pop();
            self.frames.push(
                CondFrame { parent_active: top.parent_active, active: !top.active, else_seen: true },
            );
        }
        Ok(())
    }

    /// Handles an `#endif`: closes the innermost conditional, after which
    /// lines are emitted as they were before it was opened. Outside every
    /// conditional it is an error, and nothing changes.
    pub fn close(&mut self) -> (result: Result<(), Error>)
        ensures
            old(self)@.len() == 0 ==> result == Err::<(), Error>(Error::EndifWithoutIf)
                && final(self)@ == old(self)@,
            old(self)@.len() > 0 ==> result is Ok && final(self)@ == old(self)@.drop_last(),
            well_nested(old(self)@) ==> well_nested(final(self)@),
            well_nested(old(self)@) && old(self)@.len() > 0 ==> emitting(final(self)@)
                == old(self)@.last().parent_active,
    {
        if self.frames.len() == 0 {
            return Err(Error::EndifWithoutIf);
        }
        proof {
            if well_nested(self@) {
                lemma_close_restores(self@);
            }
        }
        self.frames.pop();
        Ok(())
    }
}

/// Opening a conditional makes lines emitted exactly if they were before and
/// its condition holds, and keeps the stack well nested.
pub proof fn lemma_open_nests(frames: Seq<CondFrame>, condition: bool)
    requires
        well_nested(frames),
    ensures
        well_nested(opened(frames, condition)),
        emitting(opened(frames, condition)) == (emitting(frames) && condition),
{
    let after = opened(frames, condition);
    assert forall|i: int| 0 <= i < after.len() implies (#[trigger] after[i]).parent_active
        == emitting(after.take(i)) by {
        if i < frames.len() {
            assert(after.take(i) == frames.take(i));
        } else {
            assert(after.take(i) == frames);
        }
    }
}

/// An `#else` keeps the stack well nested. The first one of a conditional
/// makes lines emitted exactly if they were around the conditional and its
/// condition did not hold; a further one changes nothing.
pub proof fn lemma_flip_nests(frames: Seq<CondFrame>)
    requires
        well_nested(frames),
        frames.len() > 0,
    ensures
        well_nested(flipped(frames)),
        flipped(frames).len() == frames.len(),
        !frames.last().else_seen ==> emitting(flipped(frames)) == (frames.last().parent_active
            && !frames.last().active),
        frames.last().else_seen ==> flipped(frames) == frames,
        flipped(flipped(frames)) == flipped(frames),
{
    let after = flipped(frames);
    assert forall|i: int| 0 <= i < after.len() implies (#[trigger] after[i]).parent_active
        == emitting(after.take(i)) by {
        assert(after.take(i) == frames.take(i));
        assert(after[i].parent_active == frames[i].parent_active);
    }
}

/// When a conditional is closed, lines are emitted again exactly if they were
/// when it was opened, and the stack stays well nested.
pub proof fn lemma_close_restores(frames: Seq<CondFrame>)
    requires
        well_nested(frames),
        frames.len() > 0,
    ensures
        emitting(frames.drop_last()) == frames.last().parent_active,
        well_nested(frames.drop_last()),
{
    let rest = frames.drop_last();
    assert(rest == frames.take(frames.len() - 1));
    assert forall|i: int| 0 <= i < rest.len() implies (#[trigger] rest[i]).parent_active
        == emitting(rest.take(i)) by {
        assert(rest.take(i) == frames.take(i));
    }
}

} // verus!
