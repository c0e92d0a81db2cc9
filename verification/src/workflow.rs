//! Guarding unsaved changes: an action that would discard the open project
//! (a new project, opening another, quitting) waits for the user's answer
//! while there are unsaved changes, and may wait for a save to finish.

use vstd::prelude::*;

verus! {

/// The action waiting for an answer, and the action waiting for a save.
pub struct UnsavedGuard<A> {
    pub pending: Option<A>,
    pub after_save: Option<A>,
}

impl<A> UnsavedGuard<A> {
    pub fn new() -> (guard: Self)
        ensures
            guard.pending is None,
            guard.after_save is None,
    {
        UnsavedGuard { pending: None, after_save: None }
    }

    /// Whether the user is being asked about unsaved changes.
    pub fn is_asking(&self) -> (asking: bool)
        ensures
            asking == self.pending is Some,
    {
        self.pending.is_some()
    }

    /// Requests `action`: with unsaved changes it waits for an answer;
    /// otherwise it is handed back to be performed now.
    pub fn request(&mut self, action: A, dirty: bool) -> (now: Option<A>)
        ensures
            dirty ==> now is None && final(self).pending == Some(action) && final(self).after_save
                == old(self).after_save,
            !dirty ==> now == Some(action) && *final(self) == *old(self),
    {
        if dirty {
            self.pending = Some(action);
            None
        } else {
            Some(action)
        }
    }

    /// The user chose to save first; `save_started` tells whether a save
    /// began. The waiting action then waits for the save, or, when no save
    /// began, keeps waiting for an answer.
    pub fn save_chosen(&mut self, save_started: bool)
        ensures
            save_started ==> final(self).pending is None && final(self).after_save
                == old(self).pending,
            !save_started ==> *final(self) == *old(self),
    {
        let action = self.pending.take();
        if save_started {
            self.after_save = action;
        } else {
            self.pending = action;
        }
    }

    /// The user chose to discard the changes: the waiting action, if any, is
    /// handed back to be performed.
    pub fn discard_chosen(&mut self) -> (now: Option<A>)
        ensures
            now == old(self).pending,
            final(self).pending is None,
            final(self).after_save == old(self).after_save,
    {
        self.pending.take()
    }

    /// The user cancelled: nothing waits for an answer any more.
    pub fn cancel_chosen(&mut self)
        ensures
            final(self).pending is None,
            final(self).after_save == old(self).after_save,
    {
        self.pending = None;
    }

    /// A save finished: after a successful one the action waiting for it is
    /// handed back to be performed; after a failed one it is dropped.
    pub fn save_finished(&mut self, succeeded: bool) -> (now: Option<A>)
        ensures
            succeeded ==> now == old(self).after_save,
            !succeeded ==> now is None,
            final(self).after_save is None,
            final(self).pending == old(self).pending,
    {
        let action = self.after_save.take();
        if succeeded {
            action
        } else {
            None
        }
    }

    /// Closing the window with unsaved work: quitting (`exit`) waits for an
    /// answer, unless another action already waits.
    pub fn close_requested(&mut self, exit: A)
        ensures
            old(self).pending is None && old(self).after_save is None ==> final(self).pending
                == Some(exit) && final(self).after_save is None,
            !(old(self).pending is None && old(self).after_save is None) ==> *final(self) == *old(
                self,
            ),
    {
        if self.pending.is_none() && self.after_save.is_none() {
            self.pending = Some(exit);
        }
    }
}

/// The state after `g`: states are counted modulo 2^64.
pub open spec fn next_generation(g: u64) -> u64 {
    if g == u64::MAX { 0 } else { (g + 1) as u64 }
}

/// Whether the open project has changes that are not saved, and a count of
/// the states it has been in, so that a save that finishes late can tell
/// whether the project changed while it was being written.
#[derive(Debug, Clone, Copy, PartialEq, Eq, Structural)]
pub struct ChangeTracker {
    pub dirty: bool,
    pub generation: u64,
}

/// The tracker after an edit.
pub open spec fn after_edit(t: ChangeTracker) -> ChangeTracker {
    ChangeTracker { dirty: true, generation: next_generation(t.generation) }
}

/// The tracker after a successful save of the state numbered `saved`.
pub open spec fn after_save(t: ChangeTracker, saved: u64) -> ChangeTracker {
    ChangeTracker { dirty: t.dirty && saved != t.generation, ..t }
}

/// The tracker after `edits` edits in a row.
pub open spec fn after_edits(t: ChangeTracker, edits: nat) -> ChangeTracker
    decreases edits,
{
    if edits == 0 {
        t
    } else {
        after_edit(after_edits(t, (edits - 1) as nat))
    }
}

impl ChangeTracker {
    /// A tracker for a project just opened, with nothing to save.
    pub fn new() -> (tracker: Self)
        ensures
            tracker == (ChangeTracker { dirty: false, generation: 0 }),
    {
        ChangeTracker { dirty: false, generation: 0 }
    }

    /// The project was edited: it has unsaved changes and is in a new state.
    pub fn edited(&mut self)
        ensures
            *final(self) == after_edit(*old(self)),
    {
        self.dirty = true;
        self.generation = self.generation.wrapping_add(1);
    }

    /// Another project took the place of the open one (a new project, an
    /// opened file, or recovered work, which counts as unsaved).
    pub fn replaced(&mut self, unsaved: bool)
        ensures
            *final(self) == (ChangeTracker { dirty: unsaved, generation: next_generation(old(self).generation) }),
    {
        self.dirty = unsaved;
        self.generation = self.generation.wrapping_add(1);
    }

    /// The unsaved changes were given up.
    pub fn discarded(&mut self)
        ensures
            *final(self) == (ChangeTracker { dirty: false, ..*old(self) }),
    {
        self.dirty = false;
    }

    /// A save of the state numbered `saved` succeeded: the project is saved
    /// unless it changed while the save ran.
    pub fn saved(&mut self, saved: u64)
        ensures
            *final(self) == after_save(*old(self), saved),
    {
        if saved == self.generation {
            self.dirty = false;
        }
    }

    /// Whether a recovery copy is due: there are unsaved changes, no copy is
    /// being written, and `interval_ms` have passed since the last one.
    pub fn autosave_due(&self, autosaving: bool, elapsed_ms: u128, interval_ms: u128) -> (due: bool)
        ensures
            due == (self.dirty && !autosaving && elapsed_ms >= interval_ms),
    {
        self.dirty && !autosaving && elapsed_ms >= interval_ms
    }
}

/// After `edits` edits the state number has moved on by `edits` (modulo
/// 2^64) and, after at least one, there are unsaved changes.
proof fn lemma_after_edits(t: ChangeTracker, edits: nat)
    ensures
        after_edits(t, edits).generation == (t.generation + edits) % 0x1_0000_0000_0000_0000int,
        edits > 0 ==> after_edits(t, edits).dirty,
    decreases edits,
{
    if edits > 0 {
        lemma_after_edits(t, (edits - 1) as nat);
    } else {
        assert((t.generation as int) % 0x1_0000_0000_0000_0000int == t.generation as int);
    }
}

/// A save of the current state leaves nothing unsaved, while a save that
/// started before one to 2^64 - 1 later edits leaves them unsaved.
pub proof fn lemma_only_the_saved_state_is_clean(t: ChangeTracker, edits: nat)
    requires
        edits < 0x1_0000_0000_0000_0000int,
    ensures
        !after_save(t, t.generation).dirty,
        edits > 0 ==> after_save(after_edits(t, edits), t.generation).dirty,
{
    lemma_after_edits(t, edits);
    if edits > 0 {
        let g: int = t.generation as int;
        assert((g + edits) % 0x1_0000_0000_0000_0000int != g) by (nonlinear_arith)
            requires
                0 <= g < 0x1_0000_0000_0000_0000int,
                0 < edits < 0x1_0000_0000_0000_0000int,
        ;
    }
}

} // verus!
