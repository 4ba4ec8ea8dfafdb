//! Undo and redo for page edits, by snapshots of the whole file.
//!
//! [`PageEditHistory`] decides; it touches no file. Each operation starts with
//! one method and goes on with [`PageEditHistory::advance`]: the caller performs
//! the [`Action`] it was handed and hands back how that went, until the action
//! is one that ends the operation.
use vstd::prelude::*;

use crate::text::{chars_of, decimal, format_u64, push_text, string_of};

verus! {

/// An operation of the history.
#[derive(Clone, Copy, Debug, PartialEq, Eq, Structural)]
pub enum Operation {
    Checkpoint,
    Undo,
    Redo,
}

/// What the operation in progress waits for.
#[derive(Clone, Copy, Debug, PartialEq, Eq, Structural)]
pub enum Pending {
    /// No operation is in progress.
    Nothing,
    /// The snapshot directory is being made. `snapshot` was taken off a stack,
    /// except by a checkpoint.
    Directory { operation: Operation, snapshot: u64 },
    /// The document is being copied to the new snapshot `fresh`.
    Copy { operation: Operation, snapshot: u64, fresh: u64 },
    /// `snapshot` is being copied to a file beside the document.
    Stage { operation: Operation, snapshot: u64 },
    /// The file beside the document is being renamed to the document.
    Install { operation: Operation, snapshot: u64 },
}

/// What the caller has to do next.
#[derive(Debug)]
pub enum Action {
    /// Make the snapshot directory.
    CreateDirectory,
    /// Copy the document to the snapshot.
    CopyDocument { snapshot: u64 },
    /// Copy the snapshot to a file beside the document.
    Stage { operation: Operation, snapshot: u64 },
    /// Rename the file beside the document to the document.
    Install { operation: Operation },
    /// Remove these snapshots as far as that can be done; the operation has
    /// succeeded.
    Finish { remove: Vec<u64> },
    /// The operation has failed.
    Fail { error: String },
}

/// An [`Action`] as a mathematical value.
pub enum ActionModel {
    CreateDirectory,
    CopyDocument { snapshot: u64 },
    Stage { operation: Operation, snapshot: u64 },
    Install { operation: Operation },
    Finish { remove: Seq<u64> },
    Fail { error: Seq<char> },
}

impl View for Action {
    type V = ActionModel;

    open spec fn view(&self) -> ActionModel {
        match *self {
            Action::CreateDirectory => ActionModel::CreateDirectory,
            Action::CopyDocument { snapshot } => ActionModel::CopyDocument { snapshot },
            Action::Stage { operation, snapshot } => ActionModel::Stage { operation, snapshot },
            Action::Install { operation } => ActionModel::Install { operation },
            Action::Finish { remove } => ActionModel::Finish { remove: remove@ },
            Action::Fail { error } => ActionModel::Fail { error: error@ },
        }
    }
}

/// The state of a history as a mathematical value.
#[verifier::ext_equal]
pub struct HistoryModel {
    /// Snapshots to go back to, the most recent last.
    pub undo: Seq<u64>,
    /// Snapshots to come forward to, the nearest last.
    pub redo: Seq<u64>,
    /// The number of the next snapshot.
    pub next_id: u64,
    /// Whether the snapshot directory is there.
    pub has_directory: bool,
    pub pending: Pending,
}

/// Undo and redo stacks of snapshots, by number.
#[derive(Debug)]
pub struct PageEditHistory {
    undo_stack: Vec<u64>,
    redo_stack: Vec<u64>,
    next_id: u64,
    has_directory: bool,
    pending: Pending,
}

/// How many snapshots a history keeps.
pub open spec fn max_depth() -> nat {
    10
}

impl HistoryModel {
    /// The snapshot that the operation in progress has taken off a stack, or
    /// none.
    pub open spec fn held(self) -> Seq<u64> {
        match self.pending {
            Pending::Directory { operation, snapshot } => if operation is Checkpoint {
                Seq::empty()
            } else {
                seq![snapshot]
            },
            Pending::Copy { operation, snapshot, fresh } => if operation is Checkpoint {
                Seq::empty()
            } else {
                seq![snapshot]
            },
            _ => Seq::empty(),
        }
    }

    /// Whether every number in use is below the next one and in use once, and
    /// no more snapshots are kept than the depth allows.
    pub open spec fn wf(self) -> bool {
        let ids = self.undo + self.redo;
        &&& self.undo.len() + self.redo.len() + self.held().len() <= max_depth()
        &&& forall|i: int| 0 <= i < ids.len() ==> #[trigger] ids[i] < self.next_id
        &&& forall|i: int, j: int| 0 <= i < j < ids.len() ==> ids[i] != ids[j]
        &&& match self.pending {
            Pending::Nothing => true,
            Pending::Directory { operation, snapshot } => operation is Checkpoint || (snapshot
                < self.next_id && !ids.contains(snapshot)),
            Pending::Copy { operation, snapshot, fresh } => fresh < self.next_id && !ids.contains(
                fresh,
            ) && (operation is Checkpoint || (snapshot < self.next_id && snapshot != fresh
                && !ids.contains(snapshot))),
            Pending::Stage { operation, snapshot } => operation !is Checkpoint && snapshot
                < self.next_id && !ids.contains(snapshot),
            Pending::Install { operation, snapshot } => operation !is Checkpoint && snapshot
                < self.next_id && !ids.contains(snapshot),
        }
    }

    /// The step that gets a new snapshot of the document: the directory first,
    /// where it is not there yet.
    pub open spec fn taking_snapshot(self, operation: Operation, snapshot: u64) -> (
        HistoryModel,
        ActionModel,
    ) {
        if self.has_directory {
            (
                HistoryModel {
                    next_id: (self.next_id + 1) as u64,
                    pending: Pending::Copy { operation, snapshot, fresh: self.next_id },
                    ..self
                },
                ActionModel::CopyDocument { snapshot: self.next_id },
            )
        } else {
            (
                HistoryModel { pending: Pending::Directory { operation, snapshot }, ..self },
                ActionModel::CreateDirectory,
            )
        }
    }

    /// How a checkpoint starts.
    pub open spec fn checkpoint_begun(self) -> (HistoryModel, ActionModel) {
        self.taking_snapshot(Operation::Checkpoint, 0)
    }

    /// How an undo starts.
    pub open spec fn undo_begun(self) -> (HistoryModel, ActionModel) {
        if self.undo.len() == 0 {
            (self, ActionModel::Fail { error: "nothing to undo"@ })
        } else {
            HistoryModel { undo: self.undo.drop_last(), ..self }.taking_snapshot(
                Operation::Undo,
                self.undo.last(),
            )
        }
    }

    /// How a redo starts.
    pub open spec fn redo_begun(self) -> (HistoryModel, ActionModel) {
        if self.redo.len() == 0 {
            (self, ActionModel::Fail { error: "nothing to redo"@ })
        } else {
            HistoryModel { redo: self.redo.drop_last(), ..self }.taking_snapshot(
                Operation::Redo,
                self.redo.last(),
            )
        }
    }

    /// The end of a checkpoint: the new snapshot goes on the undo stack, the
    /// redo stack is dropped, and the oldest snapshot is, where there is one
    /// too many.
    pub open spec fn checkpoint_ended(self, fresh: u64) -> (HistoryModel, ActionModel) {
        let grown = self.undo.push(fresh);
        let idle = HistoryModel { redo: Seq::empty(), pending: Pending::Nothing, ..self };
        if grown.len() > max_depth() {
            (
                HistoryModel { undo: grown.skip(1), ..idle },
                ActionModel::Finish { remove: self.redo.push(grown[0]) },
            )
        } else {
            (HistoryModel { undo: grown, ..idle }, ActionModel::Finish { remove: self.redo })
        }
    }

    /// How the operation in progress goes on after its last action succeeded.
    pub open spec fn advanced(self) -> (HistoryModel, ActionModel) {
        match self.pending {
            Pending::Nothing => (self, ActionModel::Finish { remove: Seq::empty() }),
            Pending::Directory { operation, snapshot } => HistoryModel {
                has_directory: true,
                ..self
            }.taking_snapshot(operation, snapshot),
            Pending::Copy { operation, snapshot, fresh } => match operation {
                Operation::Checkpoint => self.checkpoint_ended(fresh),
                Operation::Undo => (
                    HistoryModel {
                        redo: self.redo.push(fresh),
                        pending: Pending::Stage { operation, snapshot },
                        ..self
                    },
                    ActionModel::Stage { operation, snapshot },
                ),
                Operation::Redo => (
                    HistoryModel {
                        undo: self.undo.push(fresh),
                        pending: Pending::Stage { operation, snapshot },
                        ..self
                    },
                    ActionModel::Stage { operation, snapshot },
                ),
            },
            Pending::Stage { operation, snapshot } => (
                HistoryModel { pending: Pending::Install { operation, snapshot }, ..self },
                ActionModel::Install { operation },
            ),
            Pending::Install { operation, snapshot } => (
                HistoryModel { pending: Pending::Nothing, ..self },
                ActionModel::Finish { remove: seq![snapshot] },
            ),
        }
    }

    /// How the operation in progress ends after its last action failed.
    pub open spec fn failed(self, error: Seq<char>) -> (HistoryModel, ActionModel) {
        (HistoryModel { pending: Pending::Nothing, ..self }, ActionModel::Fail { error })
    }

    /// A history that has dropped both stacks.
    pub open spec fn cleared(self) -> HistoryModel {
        HistoryModel { undo: Seq::empty(), redo: Seq::empty(), ..self }
    }
}

impl View for PageEditHistory {
    type V = HistoryModel;

    closed spec fn view(&self) -> HistoryModel {
        HistoryModel {
            undo: self.undo_stack@,
            redo: self.redo_stack@,
            next_id: self.next_id,
            has_directory: self.has_directory,
            pending: self.pending,
        }
    }
}

impl Default for PageEditHistory {
    fn default() -> (h: Self)
        ensures
            h@ == (HistoryModel {
                undo: Seq::empty(),
                redo: Seq::empty(),
                next_id: 0,
                has_directory: false,
                pending: Pending::Nothing,
            }),
            h@.wf(),
    {
        PageEditHistory {
            undo_stack: Vec::new(),
            redo_stack: Vec::new(),
            next_id: 0,
            has_directory: false,
            pending: Pending::Nothing,
        }
    }
}

impl PageEditHistory {
    /// How many snapshots a history keeps.
    pub const MAX_DEPTH: usize = 10;

    /// Whether there is a snapshot to go back to.
    pub fn can_undo(&self) -> (r: bool)
        ensures
            r == (self@.undo.len() > 0),
    {
        self.undo_stack.len() > 0
    }

    /// Whether there is a snapshot to come forward to.
    pub fn can_redo(&self) -> (r: bool)
        ensures
            r == (self@.redo.len() > 0),
    {
        self.redo_stack.len() > 0
    }

    /// How many snapshots there are to go back to.
    pub fn undo_depth(&self) -> (n: usize)
        ensures
            n == self@.undo.len(),
    {
        self.undo_stack.len()
    }

    /// Whether no operation is in progress.
    pub fn is_idle(&self) -> (r: bool)
        ensures
            r == (self@.pending is Nothing),
    {
        matches!(self.pending, Pending::Nothing)
    }

    /// Whether the snapshot directory has been made.
    pub fn has_directory(&self) -> (r: bool)
        ensures
            r == self@.has_directory,
    {
        self.has_directory
    }

    /// Takes the next snapshot number, or asks for the directory first.
    fn take_snapshot(&mut self, operation: Operation, snapshot: u64) -> (a: Action)
        requires
            old(self)@.next_id < u64::MAX,
        ensures
            (final(self)@, a@) == old(self)@.taking_snapshot(operation, snapshot),
    {
        if self.has_directory {
            let fresh: u64 = self.next_id;
            self.next_id = fresh + 1;
            self.pending = Pending::Copy { operation, snapshot, fresh };
            Action::CopyDocument { snapshot: fresh }
        } else {
            self.pending = Pending::Directory { operation, snapshot };
            Action::CreateDirectory
        }
    }

    /// Starts a snapshot of the document, to be taken before an edit in place.
    /// It drops what could be redone, and the oldest snapshot once there are
    /// more than [`Self::MAX_DEPTH`].
    pub fn checkpoint(&mut self) -> (a: Action)
        requires
            old(self)@.wf(),
            old(self)@.pending is Nothing,
            old(self)@.next_id < u64::MAX,
        ensures
            (final(self)@, a@) == old(self)@.checkpoint_begun(),
            final(self)@.wf(),
    {
        self.take_snapshot(Operation::Checkpoint, 0)
    }

    /// Starts to put the document back to the most recent snapshot. The
    /// document as it is goes on the redo stack.
    pub fn undo(&mut self) -> (a: Action)
        requires
            old(self)@.wf(),
            old(self)@.pending is Nothing,
            old(self)@.next_id < u64::MAX,
        ensures
            (final(self)@, a@) == old(self)@.undo_begun(),
            final(self)@.wf(),
    {
        proof {
            lemma_pop_wf(self@);
        }
        match self.undo_stack.pop() {
            None => Action::Fail { error: "nothing to undo".to_string() },
            Some(snapshot) => {
                let ghost popped = self@;
                assert(popped == (HistoryModel { undo: old(self)@.undo.drop_last(), ..old(self)@ }));
                self.take_snapshot(Operation::Undo, snapshot)
            },
        }
    }

    /// Starts to bring the document forward again, the inverse of an undo.
    pub fn redo(&mut self) -> (a: Action)
        requires
            old(self)@.wf(),
            old(self)@.pending is Nothing,
            old(self)@.next_id < u64::MAX,
        ensures
            (final(self)@, a@) == old(self)@.redo_begun(),
            final(self)@.wf(),
    {
        proof {
            lemma_pop_wf(self@);
        }
        match self.redo_stack.pop() {
            None => Action::Fail { error: "nothing to redo".to_string() },
            Some(snapshot) => {
                let ghost popped = self@;
                assert(popped == (HistoryModel { redo: old(self)@.redo.drop_last(), ..old(self)@ }));
                self.take_snapshot(Operation::Redo, snapshot)
            },
        }
    }

    /// Goes on with the operation in progress, given how its last action went.
    pub fn advance(&mut self, outcome: Result<(), String>) -> (a: Action)
        requires
            old(self)@.wf(),
            old(self)@.pending !is Nothing,
            old(self)@.pending is Directory ==> old(self)@.next_id < u64::MAX,
        ensures
            match outcome {
                Ok(_) => (final(self)@, a@) == old(self)@.advanced(),
                Err(e) => (final(self)@, a@) == old(self)@.failed(e@),
            },
            final(self)@.wf(),
    {
        proof {
            lemma_advance_wf(self@);
        }
        match outcome {
            Err(error) => {
                self.pending = Pending::Nothing;
                return Action::Fail { error };
            },
            Ok(_) => {},
        }
        match self.pending {
            Pending::Nothing => Action::Finish { remove: Vec::new() },
            Pending::Directory { operation, snapshot } => {
                self.has_directory = true;
                self.take_snapshot(operation, snapshot)
            },
            Pending::Copy { operation, snapshot, fresh } => match operation {
                Operation::Checkpoint => {
                    let ghost start = self@;
                    self.pending = Pending::Nothing;
                    self.undo_stack.push(fresh);
                    let mut remove: Vec<u64> = Vec::new();
                    remove.append(&mut self.redo_stack);
                    if self.undo_stack.len() > Self::MAX_DEPTH {
                        let oldest: u64 = self.undo_stack.remove(0);
                        remove.push(oldest);
                        assert(self.undo_stack@ == start.undo.push(fresh).skip(1));
                    }
                    let ghost end = start.checkpoint_ended(fresh);
                    assert(remove@ == end.1->remove);
                    assert(self@ == end.0);
                    Action::Finish { remove }
                },
                Operation::Undo => {
                    self.redo_stack.push(fresh);
                    self.pending = Pending::Stage { operation, snapshot };
                    Action::Stage { operation, snapshot }
                },
                Operation::Redo => {
                    self.undo_stack.push(fresh);
                    self.pending = Pending::Stage { operation, snapshot };
                    Action::Stage { operation, snapshot }
                },
            },
            Pending::Stage { operation, snapshot } => {
                self.pending = Pending::Install { operation, snapshot };
                Action::Install { operation }
            },
            Pending::Install { operation, snapshot } => {
                self.pending = Pending::Nothing;
                let mut remove: Vec<u64> = Vec::new();
                remove.push(snapshot);
                assert(remove@ == seq![snapshot]);
                Action::Finish { remove }
            },
        }
    }

    /// Drops both stacks. The result lists the snapshots to remove. For when
    /// another document is loaded.
    pub fn clear(&mut self) -> (remove: Vec<u64>)
        requires
            old(self)@.wf(),
            old(self)@.pending is Nothing,
        ensures
            final(self)@ == old(self)@.cleared(),
            final(self)@.wf(),
            remove@ == old(self)@.undo + old(self)@.redo,
    {
        let mut remove: Vec<u64> = Vec::new();
        remove.append(&mut self.undo_stack);
        remove.append(&mut self.redo_stack);
        remove
    }
}

/// An undo or a redo starts in a sound state, where the history was in one.
pub proof fn lemma_pop_wf(h: HistoryModel)
    requires
        h.wf(),
        h.pending is Nothing,
        h.next_id < u64::MAX,
    ensures
        h.undo_begun().0.wf(),
        h.redo_begun().0.wf(),
{
    let ids = h.undo + h.redo;
    if h.undo.len() > 0 {
        let now = h.undo_begun().0;
        let left = now.undo + now.redo;
        let s = h.undo.last();
        assert(ids[h.undo.len() - 1] == s);
        assert forall|i: int| 0 <= i < left.len() implies #[trigger] left[i] < h.next_id && left[i]
            != s by {
            if i < now.undo.len() {
                assert(ids[i] == left[i]);
            } else {
                assert(ids[i + 1] == left[i]);
            }
        }
        assert forall|i: int, j: int| 0 <= i < j < left.len() implies left[i] != left[j] by {
            let a = if i < now.undo.len() {
                i
            } else {
                i + 1
            };
            let b = if j < now.undo.len() {
                j
            } else {
                j + 1
            };
            assert(ids[a] == left[i]);
            assert(ids[b] == left[j]);
        }
    }
    if h.redo.len() > 0 {
        let now = h.redo_begun().0;
        let left = now.undo + now.redo;
        let s = h.redo.last();
        assert(ids[ids.len() - 1] == s);
        assert forall|i: int| 0 <= i < left.len() implies #[trigger] left[i] < h.next_id && left[i]
            != s by {
            assert(ids[i] == left[i]);
        }
        assert forall|i: int, j: int| 0 <= i < j < left.len() implies left[i] != left[j] by {
            assert(ids[i] == left[i]);
            assert(ids[j] == left[j]);
        }
    }
}

/// An operation goes on in a sound state, where it was in one.
pub proof fn lemma_advance_wf(h: HistoryModel)
    requires
        h.wf(),
        h.pending is Directory ==> h.next_id < u64::MAX,
    ensures
        h.advanced().0.wf(),
        forall|e: Seq<char>| (#[trigger] h.failed(e)).0.wf(),
{
    let ids = h.undo + h.redo;
    let now = h.advanced().0;
    let left = now.undo + now.redo;
    match h.pending {
        Pending::Copy { operation, snapshot, fresh } => {
            match operation {
                Operation::Checkpoint => {
                    let from: int = if h.undo.len() + 1 > max_depth() {
                        1
                    } else {
                        0
                    };
                    assert forall|i: int| 0 <= i < left.len() implies #[trigger] left[i] == (if i
                        + from < h.undo.len() {
                        ids[i + from]
                    } else {
                        fresh
                    }) by {}
                    assert forall|i: int, j: int| 0 <= i < j < left.len() implies left[i]
                        != left[j] by {
                        assert(ids[i + from] == left[i]);
                        if j + from < h.undo.len() {
                            assert(ids[j + from] == left[j]);
                        } else {
                            assert(ids.contains(ids[i + from]));
                        }
                    }
                },
                Operation::Undo => {
                    assert(left =~= ids.push(fresh));
                    assert forall|i: int, j: int| 0 <= i < j < left.len() implies left[i]
                        != left[j] by {
                        assert(ids.contains(ids[i]));
                    }
                    assert(!left.contains(snapshot)) by {
                        if left.contains(snapshot) {
                            let i = left.index_of(snapshot);
                            if i < ids.len() {
                                assert(ids[i] == snapshot);
                            }
                        }
                    }
                },
                Operation::Redo => {
                    let at = h.undo.len() as int;
                    assert(left =~= ids.insert(at, fresh));
                    assert forall|i: int| 0 <= i < left.len() && i != at implies #[trigger] left[i]
                        == ids[if i < at {
                        i
                    } else {
                        i - 1
                    }] by {}
                    assert forall|i: int| 0 <= i < left.len() implies #[trigger] left[i]
                        < now.next_id by {
                        if i < at {
                            assert(ids[i] == left[i]);
                        } else if i > at {
                            assert(ids[i - 1] == left[i]);
                        }
                    }
                    assert forall|i: int, j: int| 0 <= i < j < left.len() implies left[i]
                        != left[j] by {
                        let a = if i < at {
                            i
                        } else {
                            i - 1
                        };
                        let b = if j < at {
                            j
                        } else {
                            j - 1
                        };
                        if i != at {
                            assert(ids[a] == left[i]);
                            assert(ids.contains(ids[a]));
                        }
                        if j != at {
                            assert(ids[b] == left[j]);
                            assert(ids.contains(ids[b]));
                        }
                    }
                    assert(!left.contains(snapshot)) by {
                        if left.contains(snapshot) {
                            let i = left.index_of(snapshot);
                            if i < at {
                                assert(ids[i] == snapshot);
                            } else if i > at {
                                assert(ids[i - 1] == snapshot);
                            }
                        }
                    }
                },
            }
        },
        Pending::Directory { operation, snapshot } => {
            assert(!ids.contains(h.next_id)) by {
                if ids.contains(h.next_id) {
                    assert(ids[ids.index_of(h.next_id)] < h.next_id);
                }
            }
        },
        _ => {},
    }
}

/// The file name of a snapshot.
pub fn snapshot_name(id: u64) -> (s: String)
    ensures
        s@ == decimal(id as nat) + ".pdf"@,
{
    let mut v = format_u64(id);
    push_text(&mut v, &chars_of(".pdf"));
    string_of(&v)
}

/// The name of the snapshot directory of the history numbered `history_id` in
/// the process `process_id`.
pub fn directory_name(process_id: u32, history_id: u64) -> (s: String)
    ensures
        s@ == "papers-page-history-"@ + decimal(process_id as nat) + "-"@ + decimal(
            history_id as nat,
        ),
{
    let mut v = chars_of("papers-page-history-");
    push_text(&mut v, &format_u64(process_id as u64));
    push_text(&mut v, &chars_of("-"));
    push_text(&mut v, &format_u64(history_id));
    string_of(&v)
}

/// The extension of the file beside the document that an operation stages a
/// snapshot in; a checkpoint stages none.
pub fn staging_extension(operation: Operation) -> (s: Option<String>)
    ensures
        match operation {
            Operation::Checkpoint => s is None,
            Operation::Undo => s matches Some(t) && t@ == "papers-undo-tmp"@,
            Operation::Redo => s matches Some(t) && t@ == "papers-redo-tmp"@,
        },
{
    match operation {
        Operation::Checkpoint => None,
        Operation::Undo => Some("papers-undo-tmp".to_string()),
        Operation::Redo => Some("papers-redo-tmp".to_string()),
    }
}

} // verus!
