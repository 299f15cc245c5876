//! The panes of a window, one of which has the focus.
use vstd::prelude::*;

verus! {

/// Identifies a pane.
#[derive(Debug, Clone, Copy, PartialEq, Eq, Structural)]
pub struct Pane {
    pub id: usize,
}

/// The panes of a window, each with its tabs.
pub struct TerminalPaneGrid<M> {
    pub panes: Vec<(Pane, M)>,
    pub panes_created: usize,
    /// The pane that has the focus. It may have been closed since.
    pub focus: Pane,
}

impl<M> TerminalPaneGrid<M> {
    /// No pane occurs twice.
    pub open spec fn wf(self) -> bool {
        forall|i: int, j: int|
            0 <= i < j < self.panes@.len() ==> (#[trigger] self.panes@[i]).0 != (
            #[trigger] self.panes@[j]).0
    }

    /// A window with a single pane, which has the focus.
    pub fn new(model: M) -> (r: Self)
        ensures
            r.wf(),
            r.panes@ == seq![(Pane { id: 0 }, model)],
            r.panes_created == 1,
            r.focus == (Pane { id: 0 }),
    {
        let pane = Pane { id: 0 };
        let mut panes: Vec<(Pane, M)> = Vec::new();
        panes.push((pane, model));
        TerminalPaneGrid { panes, panes_created: 1, focus: pane }
    }

    /// The place of the pane that has the focus.
    fn position(&self) -> (r: Option<usize>)
        ensures
            r matches Some(i) ==> i < self.panes@.len() && self.panes@[i as int].0 == self.focus,
            r is None ==> forall|i: int|
                0 <= i < self.panes@.len() ==> (#[trigger] self.panes@[i]).0 != self.focus,
    {
        let mut i: usize = 0;
        while i < self.panes.len()
            invariant
                i <= self.panes.len(),
                forall|k: int| 0 <= k < i ==> (#[trigger] self.panes@[k]).0 != self.focus,
            decreases self.panes.len() - i,
        {
            if self.panes[i].0 == self.focus {
                return Some(i);
            }
            i = i + 1;
        }
        None
    }

    /// The tabs of the pane that has the focus, unless it was closed.
    pub fn active(&self) -> (r: Option<&M>)
        requires
            self.wf(),
        ensures
            forall|i: int|
                0 <= i < self.panes@.len() && (#[trigger] self.panes@[i]).0 == self.focus ==> r
                    == Some(&self.panes@[i].1),
            (forall|i: int|
                0 <= i < self.panes@.len() ==> (#[trigger] self.panes@[i]).0 != self.focus) ==> r
                is None,
    {
        match self.position() {
            Some(i) => Some(&self.panes[i].1),
            None => None,
        }
    }

    /// The tabs of the pane that has the focus, unless it was closed.
    pub fn active_mut(&mut self) -> (r: Option<&mut M>)
        requires
            old(self).wf(),
        ensures
            final(self).focus == old(self).focus,
            final(self).panes_created == old(self).panes_created,
            r matches Some(model) ==> exists|i: int|
                0 <= i < old(self).panes@.len() && (#[trigger] old(self).panes@[i]).0 == old(self).focus && *model == old(self).panes@[i].1 && final(self).panes@ == old(
                    self,
                ).panes@.update(i, (old(self).panes@[i].0, *final(model))),
            r is None ==> *final(self) == *old(self) && forall|i: int|
                0 <= i < old(self).panes@.len() ==> (#[trigger] old(self).panes@[i]).0 != old(self).focus,
    {
        match self.position() {
            Some(i) => Some(&mut self.panes[i].1),
            None => None,
        }
    }

    /// Gives a pane the focus. Every terminal has to be told afterwards, see
    /// [`Self::update_terminal_focus`].
    pub fn set_focus(&mut self, pane: Pane)
        ensures
            final(self).panes == old(self).panes,
            final(self).panes_created == old(self).panes_created,
            final(self).focus == pane,
    {
        self.focus = pane;
    }

    pub fn focused(&self) -> (r: Pane)
        ensures
            r == self.focus,
    {
        self.focus
    }

    /// Whether the terminal shown in each of the panes has the focus.
    pub fn update_terminal_focus(&self) -> (r: Vec<bool>)
        ensures
            r@ == Seq::new(self.panes@.len(), |i: int| self.panes@[i].0 == self.focus),
    {
        let mut focused: Vec<bool> = Vec::new();
        let mut i: usize = 0;
        while i < self.panes.len()
            invariant
                i <= self.panes.len(),
                focused@ == Seq::new(i as nat, |k: int| self.panes@[k].0 == self.focus),
            decreases self.panes.len() - i,
        {
            focused.push(self.panes[i].0 == self.focus);
            i = i + 1;
        }
        focused
    }

    /// The same while the window itself has no focus: no terminal has it.
    pub fn unfocus_all_terminals(&self) -> (r: Vec<bool>)
        ensures
            r@ == Seq::new(self.panes@.len(), |i: int| false),
    {
        let mut focused: Vec<bool> = Vec::new();
        let mut i: usize = 0;
        while i < self.panes.len()
            invariant
                i <= self.panes.len(),
                focused@ == Seq::new(i as nat, |k: int| false),
            decreases self.panes.len() - i,
        {
            focused.push(false);
            i = i + 1;
        }
        focused
    }
}

/// At most one terminal has the focus.
pub proof fn law_one_terminal_has_the_focus<M>(grid: TerminalPaneGrid<M>, i: int, j: int)
    requires
        grid.wf(),
        0 <= i < grid.panes@.len(),
        0 <= j < grid.panes@.len(),
        grid.panes@[i].0 == grid.focus,
        grid.panes@[j].0 == grid.focus,
    ensures
        i == j,
{
    if i < j {
        assert(grid.panes@[i].0 != grid.panes@[j].0);
    } else if j < i {
        assert(grid.panes@[j].0 != grid.panes@[i].0);
    }
}

} // verus!
