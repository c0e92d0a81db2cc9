//! Bounded undo/redo history of project snapshots.
//!
//! Media PCM lives outside the project, so a snapshot is small.

use crate::project::{project_equal, Project, ProjectModel};
use vstd::prelude::*;
use vstd::string::*;

verus! {

/// A labelled snapshot, as (label, project).
pub type Snapshot = (Seq<char>, ProjectModel);

pub struct HistoryModel {
    pub undo: Seq<Snapshot>,
    pub redo: Seq<Snapshot>,
    pub transaction: Option<Snapshot>,
    pub limit: nat,
}

struct Entry {
    label: String,
    project: Project,
}

impl Entry {
    spec fn model(&self) -> Snapshot {
        (self.label@, self.project@)
    }
}

spec fn entry_models(entries: Seq<Entry>) -> Seq<Snapshot> {
    entries.map_values(|e: Entry| e.model())
}

/// A bounded stack of undo snapshots, a redo stack and at most one open
/// transaction.
pub struct History {
    undo: Vec<Entry>,
    redo: Vec<Entry>,
    transaction: Option<Entry>,
    limit: usize,
}

pub open spec fn fresh_history(limit: usize) -> HistoryModel {
    HistoryModel {
        undo: Seq::empty(),
        redo: Seq::empty(),
        transaction: None,
        limit: if limit < 1 { 1 } else { limit as nat },
    }
}

/// Opening a transaction records `project` as the state to return to,
/// unless a transaction is already open.
pub open spec fn history_begin(h: HistoryModel, label: Seq<char>, project: ProjectModel) -> HistoryModel {
    if h.transaction is None {
        HistoryModel { transaction: Some((label, project)), ..h }
    } else {
        h
    }
}

/// Closing the transaction: when the project differs from the recorded
/// state, the recorded state becomes the newest undo step (the oldest is
/// dropped beyond the limit) and the redo stack is cleared.
pub open spec fn history_commit(h: HistoryModel, project: ProjectModel) -> (HistoryModel, bool) {
    match h.transaction {
        None => (h, false),
        Some(entry) => if project_equal(entry.1, project) {
            (HistoryModel { transaction: None, ..h }, false)
        } else {
            let pushed = h.undo.push(entry);
            let undo = if pushed.len() > h.limit { pushed.drop_first() } else { pushed };
            (HistoryModel { undo, redo: Seq::empty(), transaction: None, limit: h.limit }, true)
        },
    }
}

/// Records `before` as the state to return to from `after`, in one step.
pub open spec fn history_checkpoint(
    h: HistoryModel,
    label: Seq<char>,
    before: ProjectModel,
    after: ProjectModel,
) -> (HistoryModel, bool) {
    history_commit(HistoryModel { transaction: Some((label, before)), ..h }, after)
}

/// Undoing: the newest undo snapshot becomes the project and the current
/// project goes onto the redo stack under the same label.
pub open spec fn history_undo(h: HistoryModel, project: ProjectModel) -> (HistoryModel, ProjectModel, Option<Seq<char>>) {
    if h.undo.len() == 0 {
        (HistoryModel { transaction: None, ..h }, project, None)
    } else {
        let entry = h.undo.last();
        (
            HistoryModel {
                undo: h.undo.drop_last(),
                redo: h.redo.push((entry.0, project)),
                transaction: None,
                limit: h.limit,
            },
            entry.1,
            Some(entry.0),
        )
    }
}

/// Redoing: the mirror image of undoing.
pub open spec fn history_redo(h: HistoryModel, project: ProjectModel) -> (HistoryModel, ProjectModel, Option<Seq<char>>) {
    if h.redo.len() == 0 {
        (HistoryModel { transaction: None, ..h }, project, None)
    } else {
        let entry = h.redo.last();
        (
            HistoryModel {
                undo: h.undo.push((entry.0, project)),
                redo: h.redo.drop_last(),
                transaction: None,
                limit: h.limit,
            },
            entry.1,
            Some(entry.0),
        )
    }
}

/// How an edit made with a continuous control (a slider, a drag) is
/// recorded: a drag that starts opens a transaction on the state before it,
/// a drag that stops closes it, and a change made outside any drag or
/// transaction becomes one undo step.
pub open spec fn history_continuous(
    h: HistoryModel,
    label: Seq<char>,
    before: ProjectModel,
    after: ProjectModel,
    changed: bool,
    drag_started: bool,
    drag_stopped: bool,
) -> HistoryModel {
    let opened = if drag_started { history_begin(h, label, before) } else { h };
    if drag_stopped {
        history_commit(opened, after).0
    } else if changed && !drag_started && opened.transaction is None {
        history_checkpoint(opened, label, before, after).0
    } else {
        opened
    }
}

impl View for History {
    type V = HistoryModel;

    closed spec fn view(&self) -> HistoryModel {
        HistoryModel {
            undo: entry_models(self.undo@),
            redo: entry_models(self.redo@),
            transaction: match self.transaction {
                Some(e) => Some(e.model()),
                None => None,
            },
            limit: self.limit as nat,
        }
    }
}

impl History {
    #[verifier::type_invariant]
    closed spec fn bounded(self) -> bool {
        1 <= self.limit && self.undo.len() + self.redo.len() <= self.limit
    }

    /// A history keeping at most `limit` undo steps (at least one).
    pub fn new(limit: usize) -> (history: History)
        ensures
            history@ == fresh_history(limit),
            within_limit(history@),
    {
        let history = History {
            undo: Vec::new(),
            redo: Vec::new(),
            transaction: None,
            limit: if limit < 1 {
                1
            } else {
                limit
            },
        };
        proof {
            assert(entry_models(history.undo@) =~= Seq::<Snapshot>::empty());
            assert(entry_models(history.redo@) =~= Seq::<Snapshot>::empty());
        }
        history
    }

    /// Opens a transaction recording `project`, unless one is open.
    pub fn begin(&mut self, label: &str, project: &Project)
        ensures
            final(self)@ == history_begin(old(self)@, label@, project@),
            within_limit(final(self)@),
    {
        proof {
            use_type_invariant(&*self);
            lemma_operations_stay_within_limit(self@, label@, project@, project@);
        }
        if self.transaction.is_none() {
            self.transaction = Some(Entry { label: String::from_str(label), project: project.snapshot() });
        }
    }

    /// Closes the open transaction; returns whether an undo step was added.
    pub fn commit(&mut self, project: &Project) -> (added: bool)
        ensures
            (final(self)@, added) == history_commit(old(self)@, project@),
            within_limit(final(self)@),
    {
        proof {
            use_type_invariant(&*self);
            lemma_operations_stay_within_limit(self@, Seq::empty(), project@, project@);
        }
        let ghost h = self@;
        let mut open: Option<Entry> = None;
        std::mem::swap(&mut open, &mut self.transaction);
        let entry = match open {
            Some(entry) => entry,
            None => return false,
        };
        if entry.project.same_as(project) {
            return false;
        }
        let ghost e = entry.model();
        let mut redo: Vec<Entry> = Vec::new();
        std::mem::swap(&mut redo, &mut self.redo);
        let mut undo: Vec<Entry> = Vec::new();
        std::mem::swap(&mut undo, &mut self.undo);
        undo.push(entry);
        let ghost pushed = h.undo.push(e);
        proof {
            assert(entry_models(undo@) =~= pushed);
        }
        if undo.len() > self.limit {
            let _oldest = undo.remove(0);
            proof {
                assert(entry_models(undo@) =~= pushed.drop_first());
            }
        }
        self.undo = undo;
        proof {
            assert(entry_models(self.redo@) =~= Seq::<Snapshot>::empty());
        }
        true
    }

    /// Records an edit made with a continuous control: see
    /// [`history_continuous`].
    pub fn record_continuous(
        &mut self,
        label: &str,
        before: Project,
        after: &Project,
        changed: bool,
        drag_started: bool,
        drag_stopped: bool,
    )
        ensures
            final(self)@ == history_continuous(
                old(self)@,
                label@,
                before@,
                after@,
                changed,
                drag_started,
                drag_stopped,
            ),
            within_limit(final(self)@),
    {
        proof {
            use_type_invariant(&*self);
        }
        if drag_started {
            self.begin(label, &before);
        }
        if drag_stopped {
            self.commit(after);
        } else if changed && !drag_started && !self.in_transaction() {
            self.checkpoint(label, before, after);
        }
    }

    /// Closes the open transaction without recording anything.
    pub fn cancel(&mut self)
        ensures
            final(self)@ == (HistoryModel { transaction: None, ..old(self)@ }),
            within_limit(final(self)@),
    {
        proof {
            use_type_invariant(&*self);
        }
        self.transaction = None;
    }

    /// Records `before` as the way back from `after`; returns whether an
    /// undo step was added (that is, whether the two differ).
    pub fn checkpoint(&mut self, label: &str, before: Project, after: &Project) -> (added: bool)
        ensures
            (final(self)@, added) == history_checkpoint(old(self)@, label@, before@, after@),
            within_limit(final(self)@),
    {
        proof {
            use_type_invariant(&*self);
            lemma_operations_stay_within_limit(self@, label@, before@, after@);
        }
        self.transaction = Some(Entry { label: String::from_str(label), project: before });
        self.commit(after)
    }

    /// Returns the project to its state before the newest undo step, and
    /// hands back that step's label.
    pub fn undo(&mut self, project: &mut Project) -> (label: Option<String>)
        ensures
            ({
                let (h, p, l) = history_undo(old(self)@, old(project)@);
                &&& final(self)@ == h
                &&& final(project)@ == p
                &&& match label {
                    Some(text) => l == Some(text@),
                    None => l is None,
                }
            }),
            within_limit(final(self)@),
    {
        proof {
            use_type_invariant(&*self);
            lemma_operations_stay_within_limit(self@, Seq::empty(), project@, project@);
        }
        let ghost h = self@;
        self.transaction = None;
        let mut undo: Vec<Entry> = Vec::new();
        std::mem::swap(&mut undo, &mut self.undo);
        let mut entry = match undo.pop() {
            Some(entry) => entry,
            None => {
                self.undo = undo;
                return None;
            },
        };
        proof {
            assert(entry_models(undo@) =~= h.undo.drop_last());
        }
        self.undo = undo;
        let label = entry.label.clone();
        std::mem::swap(project, &mut entry.project);
        let ghost moved = entry.model();
        let mut redo: Vec<Entry> = Vec::new();
        std::mem::swap(&mut redo, &mut self.redo);
        redo.push(entry);
        proof {
            assert(entry_models(redo@) =~= h.redo.push(moved));
        }
        self.redo = redo;
        Some(label)
    }

    /// Re-applies the newest undone step, and hands back its label.
    pub fn redo(&mut self, project: &mut Project) -> (label: Option<String>)
        ensures
            ({
                let (h, p, l) = history_redo(old(self)@, old(project)@);
                &&& final(self)@ == h
                &&& final(project)@ == p
                &&& match label {
                    Some(text) => l == Some(text@),
                    None => l is None,
                }
            }),
            within_limit(final(self)@),
    {
        proof {
            use_type_invariant(&*self);
            lemma_operations_stay_within_limit(self@, Seq::empty(), project@, project@);
        }
        let ghost h = self@;
        self.transaction = None;
        let mut redo: Vec<Entry> = Vec::new();
        std::mem::swap(&mut redo, &mut self.redo);
        let mut entry = match redo.pop() {
            Some(entry) => entry,
            None => {
                self.redo = redo;
                return None;
            },
        };
        proof {
            assert(entry_models(redo@) =~= h.redo.drop_last());
        }
        self.redo = redo;
        let label = entry.label.clone();
        std::mem::swap(project, &mut entry.project);
        let ghost moved = entry.model();
        let mut undo: Vec<Entry> = Vec::new();
        std::mem::swap(&mut undo, &mut self.undo);
        undo.push(entry);
        proof {
            assert(entry_models(undo@) =~= h.undo.push(moved));
        }
        self.undo = undo;
        Some(label)
    }

    pub fn can_undo(&self) -> (can: bool)
        ensures
            can == (self@.undo.len() > 0),
            within_limit(self@),
    {
        proof {
            use_type_invariant(self);
        }
        self.undo.len() > 0
    }

    pub fn can_redo(&self) -> (can: bool)
        ensures
            can == (self@.redo.len() > 0),
            within_limit(self@),
    {
        proof {
            use_type_invariant(self);
        }
        self.redo.len() > 0
    }

    pub fn in_transaction(&self) -> (open: bool)
        ensures
            open == (self@.transaction is Some),
            within_limit(self@),
    {
        proof {
            use_type_invariant(self);
        }
        self.transaction.is_some()
    }

    /// Forgets every step and any open transaction.
    pub fn clear(&mut self)
        ensures
            final(self)@ == fresh_history(old(self)@.limit as usize),
            within_limit(final(self)@),
    {
        proof {
            use_type_invariant(&*self);
        }
        self.undo = Vec::new();
        self.redo = Vec::new();
        self.transaction = None;
        proof {
            assert(entry_models(self.undo@) =~= Seq::<Snapshot>::empty());
            assert(entry_models(self.redo@) =~= Seq::<Snapshot>::empty());
        }
    }
}

/// The undo and redo stacks together hold at most the limit.
pub open spec fn within_limit(h: HistoryModel) -> bool {
    1 <= h.limit && h.undo.len() + h.redo.len() <= h.limit
}

/// Every operation keeps the stacks within the limit.
pub proof fn lemma_operations_stay_within_limit(
    h: HistoryModel,
    label: Seq<char>,
    before: ProjectModel,
    after: ProjectModel,
)
    requires
        within_limit(h),
    ensures
        within_limit(history_begin(h, label, before)),
        within_limit(history_commit(h, after).0),
        within_limit(history_checkpoint(h, label, before, after).0),
        within_limit(history_undo(h, after).0),
        within_limit(history_redo(h, after).0),
{
}

/// Undoing and then redoing gives back the project and the history (with no
/// transaction open), and both report the same label.
pub proof fn lemma_undo_then_redo(h: HistoryModel, project: ProjectModel)
    requires
        h.undo.len() > 0,
    ensures
        ({
            let (h1, p1, l1) = history_undo(h, project);
            let (h2, p2, l2) = history_redo(h1, p1);
            &&& h2 == HistoryModel { transaction: None, ..h }
            &&& p2 == project
            &&& l2 == l1
        }),
{
    let (h1, p1, l1) = history_undo(h, project);
    assert(h1.redo.drop_last() =~= h.redo);
    assert(h1.undo.push((h.undo.last().0, p1)) =~= h.undo);
}

/// Redoing and then undoing gives back the project and the history.
pub proof fn lemma_redo_then_undo(h: HistoryModel, project: ProjectModel)
    requires
        h.redo.len() > 0,
    ensures
        ({
            let (h1, p1, l1) = history_redo(h, project);
            let (h2, p2, l2) = history_undo(h1, p1);
            &&& h2 == HistoryModel { transaction: None, ..h }
            &&& p2 == project
            &&& l2 == l1
        }),
{
    let (h1, p1, l1) = history_redo(h, project);
    assert(h1.undo.drop_last() =~= h.undo);
    assert(h1.redo.push((h.redo.last().0, p1)) =~= h.redo);
}

/// A checkpoint of a real change adds a step, discards the redo stack, and
/// undoing it right away restores the state before the change under its label.
pub proof fn lemma_checkpoint_then_undo(
    h: HistoryModel,
    label: Seq<char>,
    before: ProjectModel,
    after: ProjectModel,
)
    requires
        1 <= h.limit,
        !project_equal(before, after),
    ensures
        ({
            let (h1, added) = history_checkpoint(h, label, before, after);
            let (h2, p2, l2) = history_undo(h1, after);
            &&& added
            &&& h1.redo.len() == 0
            &&& h1.undo.len() > 0
            &&& p2 == before
            &&& l2 == Some(label)
        }),
{
    let pushed = h.undo.push((label, before));
    if pushed.len() > h.limit {
        assert(pushed.drop_first().last() == pushed.last());
    }
}

/// A checkpoint or commit whose project compares equal to the recorded one
/// records nothing and keeps the redo stack.
pub proof fn lemma_unchanged_records_nothing(
    h: HistoryModel,
    label: Seq<char>,
    before: ProjectModel,
    after: ProjectModel,
)
    requires
        project_equal(before, after),
    ensures
        history_checkpoint(h, label, before, after) == (HistoryModel { transaction: None, ..h }, false),
        h.transaction matches Some(entry) && entry.1 == before ==> history_commit(h, after) == (
            HistoryModel { transaction: None, ..h },
            false,
        ),
{
}

/// The labels that `times` undos in a row hand back, starting from `h`
/// with `project`.
pub open spec fn undo_labels(h: HistoryModel, project: ProjectModel, times: nat) -> Seq<Option<Seq<char>>>
    decreases times,
{
    if times == 0 {
        Seq::empty()
    } else {
        let (h1, p1, label) = history_undo(h, project);
        seq![label] + undo_labels(h1, p1, (times - 1) as nat)
    }
}

/// Undos in a row succeed exactly as many times as there are undo steps, and
/// a history within its limit holds at most `limit` of them: after any
/// sequence of operations, no more than `limit` undos in a row succeed.
pub proof fn lemma_undo_runs_out(h: HistoryModel, project: ProjectModel, times: nat)
    requires
        within_limit(h),
    ensures
        h.undo.len() <= h.limit,
        undo_labels(h, project, times).len() == times,
        forall|i: int| 0 <= i < times ==> (#[trigger] undo_labels(h, project, times)[i] is Some) == (i
            < h.undo.len()),
    decreases times,
{
    if times > 0 {
        let (h1, p1, label) = history_undo(h, project);
        lemma_operations_stay_within_limit(h, Seq::empty(), project, project);
        lemma_undo_runs_out(h1, p1, (times - 1) as nat);
        let rest = undo_labels(h1, p1, (times - 1) as nat);
        assert forall|i: int| 0 <= i < times implies (#[trigger] undo_labels(h, project, times)[i] is Some)
            == (i < h.undo.len()) by {
            if i > 0 {
                assert(undo_labels(h, project, times)[i] == rest[i - 1]);
            }
        }
    }
}

impl Default for History {
    /// A history of up to 100 undo steps.
    fn default() -> (history: Self)
        ensures
            history@ == fresh_history(100),
            within_limit(history@),
    {
        History::new(100)
    }
}

} // verus!
