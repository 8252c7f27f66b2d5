//! Which parameters an editor is dragging, so that the host hears of each
//! drag beginning once and ending once.

use vstd::prelude::*;

verus! {

/// Whether each parameter, by number, is being dragged.
pub struct GestureTracker {
    pub active: Vec<bool>,
}

impl GestureTracker {
    /// No parameter dragged, for `count` parameters.
    pub fn new(count: usize) -> (r: Self)
        ensures
            r.active@ == Seq::new(count as nat, |i: int| false),
    {
        let mut active: Vec<bool> = Vec::new();
        let mut i: usize = 0;
        while i < count
            invariant
                i <= count,
                active@ == Seq::new(i as nat, |k: int| false),
            decreases count - i,
        {
            active.push(false);
            i = i + 1;
            assert(active@ =~= Seq::new(i as nat, |k: int| false));
        }
        GestureTracker { active }
    }

    /// A parameter is set by a drag: it is marked dragged, and the answer
    /// says whether its drag begins now.
    pub fn on_set(&mut self, index: usize) -> (begins: bool)
        requires
            index < old(self).active@.len(),
        ensures
            begins == !old(self).active@[index as int],
            final(self).active@ == old(self).active@.update(index as int, true),
    {
        let begins = !self.active[index];
        self.active.set(index, true);
        begins
    }

    /// A parameter is let go: it is no longer dragged, and the answer says
    /// whether a drag of it ends now.
    pub fn on_release(&mut self, index: usize) -> (ends: bool)
        requires
            index < old(self).active@.len(),
        ensures
            ends == old(self).active@[index as int],
            final(self).active@ == old(self).active@.update(index as int, false),
    {
        let ends = self.active[index];
        self.active.set(index, false);
        ends
    }

    /// A switch is flipped: a drag of it begins (unless one is under way)
    /// and ends at once.
    pub fn on_toggle(&mut self, index: usize) -> (begins: bool)
        requires
            index < old(self).active@.len(),
        ensures
            begins == !old(self).active@[index as int],
            final(self).active@ == old(self).active@.update(index as int, false),
    {
        let begins = self.on_set(index);
        let ends = self.on_release(index);
        assert(ends);
        assert(self.active@ =~= old(self).active@.update(index as int, false));
        begins
    }
}

/// A drag of a parameter that is not being dragged begins with its first
/// set; later sets find it dragged and begin nothing; its release finds it
/// dragged, ends it, and leaves the tracker as it was before the drag.
pub proof fn law_drag_announced_once(active: Seq<bool>, index: int)
    requires
        0 <= index < active.len(),
        !active[index],
    ensures
        active.update(index, true)[index],
        active.update(index, true).update(index, true) == active.update(index, true),
        active.update(index, true).update(index, false) == active,
{
    assert(active.update(index, true).update(index, false) =~= active);
    assert(active.update(index, true).update(index, true) =~= active.update(index, true));
}

} // verus!
